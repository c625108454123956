use vstd::prelude::*;

verus! {

/// How many entries of `s` carry the room name `name`.
pub open spec fn entries_named<H>(s: Seq<(Vec<u8>, H)>, name: Seq<u8>) -> nat
    decreases s.len(),
{
    if s.len() == 0 {
        0
    } else {
        entries_named(s.drop_last(), name) + if s.last().0@ == name {
            1nat
        } else {
            0nat
        }
    }
}

proof fn lemma_entries_named_zero<H>(s: Seq<(Vec<u8>, H)>, name: Seq<u8>)
    requires
        forall|i: int| 0 <= i < s.len() ==> s[i].0@ != name,
    ensures
        entries_named(s, name) == 0,
    decreases s.len(),
{
    if s.len() > 0 {
        lemma_entries_named_zero(s.drop_last(), name);
    }
}

/// The log registry: maps a room name to the handle through which that
/// room's log lines are enqueued. An entry is created at most once per
/// room name, on first access, and never removed; the one writer behind
/// the handle owns the room's log file. The handle type is whatever the
/// surrounding service uses to reach its writer.
pub struct Logger<H> {
    log_map: Vec<(Vec<u8>, H)>,
}

impl<H> Logger<H> {
    /// Well-formed: no room name occurs twice.
    pub closed spec fn wf(&self) -> bool {
        forall|i: int, j: int|
            0 <= i < j < self.log_map@.len() ==> self.log_map@[i].0@ != self.log_map@[j].0@
    }

    /// Whether a writer handle exists for this room.
    pub closed spec fn has_writer(&self, name: Seq<u8>) -> bool {
        exists|i: int| 0 <= i < self.log_map@.len() && self.log_map@[i].0@ == name
    }

    /// The handle registered for this room (meaningful when
    /// `has_writer(name)`).
    pub closed spec fn writer_of(&self, name: Seq<u8>) -> H {
        let i = choose|i: int| 0 <= i < self.log_map@.len() && self.log_map@[i].0@ == name;
        self.log_map@[i].1
    }

    /// How many rooms have a writer.
    pub closed spec fn count(&self) -> nat {
        self.log_map@.len()
    }

    /// How many entries this room has; under `wf` it is at most one.
    pub closed spec fn writer_count(&self, name: Seq<u8>) -> nat {
        entries_named(self.log_map@, name)
    }

    /// A new registry: no rooms, no writers.
    pub fn new() -> (r: Logger<H>)
        ensures
            r.wf(),
            r.count() == 0,
            forall|n: Seq<u8>| !r.has_writer(n),
    {
        Logger { log_map: Vec::new() }
    }

    /// How many rooms have a writer.
    pub fn len(&self) -> (n: usize)
        ensures
            n == self.count(),
    {
        self.log_map.len()
    }

    /// The index of this room's entry, if one exists.
    fn index_of(&self, name: &Vec<u8>) -> (r: Option<usize>)
        ensures
            match r {
                Some(i) => i < self.log_map@.len() && self.log_map@[i as int].0@ == name@,
                None => !self.has_writer(name@),
            },
    {
        let n: usize = self.log_map.len();
        let mut k: usize = 0;
        while k < n
            invariant
                n == self.log_map@.len(),
                0 <= k <= n,
                forall|j: int| 0 <= j < k ==> self.log_map@[j].0@ != name@,
            decreases n - k,
        {
            if crate::bytes_eq(&self.log_map[k].0, name) {
                return Some(k);
            }
            k = k + 1;
        }
        None
    }

    /// Returns the writer handle for this room, if one was registered.
    /// Creation is the caller's: it checks with this method and registers
    /// a fresh handle under the same exclusive access, so a handle is
    /// created at most once per room.
    pub fn get_log_writer(&self, room_name: &Vec<u8>) -> (r: Option<&H>)
        requires
            self.wf(),
        ensures
            match r {
                Some(h) => self.has_writer(room_name@) && *h == self.writer_of(room_name@),
                None => !self.has_writer(room_name@),
            },
    {
        let found = self.index_of(room_name);
        match found {
            Some(i) => {
                proof {
                    let m = self.log_map@;
                    let k = choose|k: int| 0 <= k < m.len() && m[k].0@ == room_name@;
                    if k != i as int {
                        assert(m[k].0@ == m[i as int].0@);
                        assert(false);
                    }
                }
                Some(&self.log_map[i].1)
            },
            None => None,
        }
    }

    /// Registers the writer handle for a room that has none yet. The new
    /// room gains exactly one entry; no other room is touched.
    pub fn register_log_writer(&mut self, room_name: &Vec<u8>, handle: H)
        requires
            old(self).wf(),
            !old(self).has_writer(room_name@),
        ensures
            final(self).wf(),
            final(self).has_writer(room_name@),
            final(self).writer_of(room_name@) == handle,
            final(self).writer_count(room_name@) == 1,
            forall|n: Seq<u8>|
                n != room_name@ ==> final(self).has_writer(n) == old(self).has_writer(n),
            forall|n: Seq<u8>|
                n != room_name@ && old(self).has_writer(n) ==> final(self).writer_of(n) == old(
                    self,
                ).writer_of(n),
            final(self).count() == old(self).count() + 1,
    {
        let name_c = crate::to_owned_bytes(room_name);
        self.log_map.push((name_c, handle));
        proof {
            let m0 = old(self).log_map@;
            let m1 = self.log_map@;
            let n_len: int = m0.len() as int;
            assert forall|k: int| 0 <= k < n_len implies m0[k].0@ != room_name@ by {
                if m0[k].0@ == room_name@ {
                    assert(old(self).has_writer(room_name@));
                }
            }
            assert(m1[n_len].0@ == room_name@);
            assert(self.has_writer(room_name@));
            assert(self.wf());
            assert forall|k: int| 0 <= k < m1.len() && m1[k].0@ == room_name@ implies k
                == n_len by {
                if k < n_len {
                    assert(m0[k].0@ == room_name@);
                }
            }
            assert(self.writer_of(room_name@) == handle);
            assert(m1.drop_last() =~= m0);
            lemma_entries_named_zero(m0, room_name@);
            assert(self.writer_count(room_name@) == 1);
            assert forall|n: Seq<u8>| n != room_name@ implies self.has_writer(n) == old(
                self,
            ).has_writer(n) && (old(self).has_writer(n) ==> self.writer_of(n) == old(
                self,
            ).writer_of(n)) by {
                if old(self).has_writer(n) {
                    let k0 = choose|k: int| 0 <= k < m0.len() && m0[k].0@ == n;
                    assert(m1[k0].0@ == n);
                    assert(self.has_writer(n));
                    let k1 = choose|k: int| 0 <= k < m1.len() && m1[k].0@ == n;
                    assert(k1 != n_len);
                    if k1 != k0 {
                        assert(m0[k1].0@ == n);
                        assert(false);
                    }
                }
                if self.has_writer(n) {
                    let k1 = choose|k: int| 0 <= k < m1.len() && m1[k].0@ == n;
                    assert(k1 != n_len);
                    assert(m0[k1].0@ == n);
                }
            }
        }
    }

    /// At most one writer exists per room name: however the registry was
    /// grown, a well-formed registry holds no second entry for a name.
    pub proof fn lemma_at_most_one_writer(&self, name: Seq<u8>)
        requires
            self.wf(),
        ensures
            self.writer_count(name) <= 1,
    {
        Self::lemma_entries_named_le_one(self.log_map@, name);
    }

    proof fn lemma_entries_named_le_one(s: Seq<(Vec<u8>, H)>, name: Seq<u8>)
        requires
            forall|i: int, j: int| 0 <= i < j < s.len() ==> s[i].0@ != s[j].0@,
        ensures
            entries_named(s, name) <= 1,
        decreases s.len(),
    {
        if s.len() > 0 {
            if s.last().0@ == name {
                assert forall|i: int| 0 <= i < s.len() - 1 implies s.drop_last()[i].0@ != name by {
                    assert(s[i].0@ != s[s.len() - 1].0@);
                }
                lemma_entries_named_zero(s.drop_last(), name);
            } else {
                Self::lemma_entries_named_le_one(s.drop_last(), name);
            }
        }
    }
}

} // verus!
