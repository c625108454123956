use vstd::prelude::*;

verus! {

/// One line of a room's log: nonempty, newline-terminated, with no
/// interior newline.
pub open spec fn is_log_line(s: Seq<u8>) -> bool {
    &&& s.len() > 0
    &&& s[s.len() - 1] == 10u8
    &&& forall|i: int| 0 <= i < s.len() - 1 ==> s[i] != 10u8
}

/// How many lines `s` holds: its count of newline bytes.
pub open spec fn line_count(s: Seq<u8>) -> nat
    decreases s.len(),
{
    if s.len() == 0 {
        0
    } else {
        line_count(s.drop_last()) + if s.last() == 10u8 {
            1nat
        } else {
            0nat
        }
    }
}

/// Newlines are counted piecewise: appending bytes adds their own count.
pub proof fn lemma_line_count_concat(a: Seq<u8>, b: Seq<u8>)
    ensures
        line_count(a + b) == line_count(a) + line_count(b),
    decreases b.len(),
{
    if b.len() == 0 {
        assert(a + b =~= a);
    } else {
        assert((a + b).drop_last() =~= a + b.drop_last());
        lemma_line_count_concat(a, b.drop_last());
    }
}

proof fn lemma_no_newline_no_line(s: Seq<u8>)
    requires
        forall|i: int| 0 <= i < s.len() ==> s[i] != 10u8,
    ensures
        line_count(s) == 0,
    decreases s.len(),
{
    if s.len() > 0 {
        lemma_no_newline_no_line(s.drop_last());
    }
}

/// A valid log line is exactly one line.
pub proof fn lemma_log_line_is_one_line(s: Seq<u8>)
    requires
        is_log_line(s),
    ensures
        line_count(s) == 1,
{
    lemma_no_newline_no_line(s.drop_last());
}

/// The contents of one room's append-only log, as its single writer
/// produces them: lines appended whole, one at a time, in the order the
/// writer dequeued them.
pub struct LogFile {
    data: Vec<u8>,
}

impl LogFile {
    /// The bytes written so far.
    pub closed spec fn contents(&self) -> Seq<u8> {
        self.data@
    }

    /// A log starts empty.
    pub fn new() -> (r: LogFile)
        ensures
            r.contents() == Seq::<u8>::empty(),
            line_count(r.contents()) == 0,
    {
        LogFile { data: Vec::new() }
    }

    /// Appends one line whole. The contents grow by exactly that line,
    /// and the log gains exactly one line: N appended messages make N
    /// lines, in append order.
    pub fn append_line(&mut self, line: &Vec<u8>)
        requires
            is_log_line(line@),
        ensures
            final(self).contents() == old(self).contents() + line@,
            line_count(final(self).contents()) == line_count(old(self).contents()) + 1,
    {
        proof {
            lemma_line_count_concat(old(self).contents(), line@);
            lemma_log_line_is_one_line(line@);
        }
        let n: usize = line.len();
        let mut i: usize = 0;
        while i < n
            invariant
                n == line@.len(),
                0 <= i <= n,
                self.data@ == old(self).data@ + line@.take(i as int),
            decreases n - i,
        {
            self.data.push(line[i]);
            proof {
                assert(old(self).data@ + line@.take(i as int) + seq![line@[i as int]] =~= old(
                    self,
                ).data@ + line@.take(i + 1));
            }
            i = i + 1;
        }
        proof {
            assert(line@.take(n as int) =~= line@);
        }
    }

    /// The bytes written so far.
    pub fn bytes(&self) -> (r: &Vec<u8>)
        ensures
            r@ == self.contents(),
    {
        &self.data
    }

    /// Counts the lines written so far.
    pub fn count_lines(&self) -> (n: usize)
        ensures
            n == line_count(self.contents()),
    {
        let len: usize = self.data.len();
        let mut count: usize = 0;
        let mut i: usize = 0;
        proof {
            assert(self.data@.take(0) =~= Seq::<u8>::empty());
        }
        while i < len
            invariant
                len == self.data@.len(),
                0 <= i <= len,
                count <= i,
                count == line_count(self.data@.take(i as int)),
            decreases len - i,
        {
            proof {
                assert(self.data@.take(i + 1).drop_last() =~= self.data@.take(i as int));
                assert(self.data@.take(i + 1).last() == self.data@[i as int]);
            }
            if self.data[i] == 10 {
                count = count + 1;
            }
            i = i + 1;
        }
        proof {
            assert(self.data@.take(len as int) =~= self.data@);
        }
        count
    }
}

/// The concatenation of a batch of lines, in order.
pub open spec fn concat_lines(lines: Seq<Seq<u8>>) -> Seq<u8>
    decreases lines.len(),
{
    if lines.len() == 0 {
        Seq::empty()
    } else {
        lines.first() + concat_lines(lines.drop_first())
    }
}

/// Appending N valid lines yields contents with exactly N lines.
pub proof fn lemma_n_appends_n_lines(lines: Seq<Seq<u8>>)
    requires
        forall|i: int| 0 <= i < lines.len() ==> is_log_line(#[trigger] lines[i]),
    ensures
        line_count(concat_lines(lines)) == lines.len(),
    decreases lines.len(),
{
    if lines.len() > 0 {
        lemma_log_line_is_one_line(lines.first());
        lemma_line_count_concat(lines.first(), concat_lines(lines.drop_first()));
        lemma_n_appends_n_lines(lines.drop_first());
    }
}

/// The offset of the first newline of `s`; `s.len()` if there is none.
pub open spec fn first_newline(s: Seq<u8>) -> nat
    decreases s.len(),
{
    if s.len() == 0 {
        0
    } else if s.first() == 10u8 {
        0
    } else {
        1 + first_newline(s.drop_first())
    }
}

/// The lines of `s`, split after each newline; trailing bytes with no
/// newline count as one last partial line.
pub open spec fn lines_of(s: Seq<u8>) -> Seq<Seq<u8>>
    decreases s.len(),
{
    if s.len() == 0 {
        Seq::empty()
    } else {
        let k = first_newline(s);
        if k >= s.len() {
            seq![s]
        } else {
            seq![s.take(k + 1 as int)] + lines_of(s.skip(k + 1 as int))
        }
    }
}

proof fn lemma_first_newline_of_line_prefix(l: Seq<u8>, rest: Seq<u8>)
    requires
        is_log_line(l),
    ensures
        first_newline(l + rest) == l.len() - 1,
    decreases l.len(),
{
    if l.len() == 1 {
        assert((l + rest).first() == 10u8);
    } else {
        assert(l.first() != 10u8);
        assert((l + rest).first() != 10u8);
        assert((l + rest).drop_first() =~= l.drop_first() + rest);
        assert(is_log_line(l.drop_first()));
        lemma_first_newline_of_line_prefix(l.drop_first(), rest);
    }
}

/// Serialization is faithful: splitting the concatenation of N valid
/// lines gives back exactly those N lines, in the order they were
/// appended.
pub proof fn lemma_lines_round_trip(lines: Seq<Seq<u8>>)
    requires
        forall|i: int| 0 <= i < lines.len() ==> is_log_line(#[trigger] lines[i]),
    ensures
        lines_of(concat_lines(lines)) == lines,
    decreases lines.len(),
{
    if lines.len() == 0 {
        assert(lines_of(concat_lines(lines)) =~= lines);
    } else {
        let l0 = lines.first();
        let rest = concat_lines(lines.drop_first());
        let s = l0 + rest;
        assert(is_log_line(l0));
        lemma_first_newline_of_line_prefix(l0, rest);
        let k = first_newline(s);
        assert(k == l0.len() - 1);
        assert(s.len() == l0.len() + rest.len());
        assert(k < s.len());
        assert(s.take(k + 1 as int) =~= l0);
        assert(s.skip(k + 1 as int) =~= rest);
        assert forall|i: int| 0 <= i < lines.drop_first().len() implies is_log_line(
            #[trigger] lines.drop_first()[i],
        ) by {
            assert(lines.drop_first()[i] == lines[i + 1]);
        }
        lemma_lines_round_trip(lines.drop_first());
        assert(lines_of(s) == seq![l0] + lines.drop_first());
        assert(seq![l0] + lines.drop_first() =~= lines);
    }
}

} // verus!
