use vstd::prelude::*;

verus! {

/// The ASCII decimal digits of `n`, most significant first.
pub open spec fn dec_digits(n: nat) -> Seq<u8>
    decreases n,
{
    if n < 10 {
        seq![(48 + n) as u8]
    } else {
        dec_digits(n / 10).push((48 + n % 10) as u8)
    }
}

/// Renders `n` in decimal, as the ASCII bytes of its digits.
pub fn u64_to_dec(n: u64) -> (r: Vec<u8>)
    ensures
        r@ == dec_digits(n as nat),
    decreases n,
{
    if n < 10 {
        let mut v: Vec<u8> = Vec::new();
        v.push(48 + n as u8);
        proof {
            assert(v@ =~= dec_digits(n as nat));
        }
        v
    } else {
        let mut v = u64_to_dec(n / 10);
        v.push(48 + (n % 10) as u8);
        proof {
            assert(v@ =~= dec_digits(n as nat));
        }
        v
    }
}

/// The bytes of `"<User#"`.
pub open spec fn line_prefix() -> Seq<u8> {
    seq![60u8, 85u8, 115u8, 101u8, 114u8, 35u8]
}

/// The bytes of `">: "`.
pub open spec fn line_sep() -> Seq<u8> {
    seq![62u8, 58u8, 32u8]
}

/// The display line that attributes a message to its sender:
/// `<User#<id>>: <text>`.
pub open spec fn format_line_spec(id: nat, msg: Seq<u8>) -> Seq<u8> {
    line_prefix() + dec_digits(id) + line_sep() + msg
}

/// The line appended to the room's log for a message: the display line,
/// newline-terminated.
pub open spec fn log_line_spec(id: nat, msg: Seq<u8>) -> Seq<u8> {
    format_line_spec(id, msg).push(10u8)
}

/// The path of a room's log file: `logs/<room>.log`.
pub open spec fn log_path_spec(room: Seq<u8>) -> Seq<u8> {
    seq![108u8, 111u8, 103u8, 115u8, 47u8] + room + seq![46u8, 108u8, 111u8, 103u8]
}

/// Appends all of `src` to `dst`, in order.
fn push_all(dst: &mut Vec<u8>, src: &Vec<u8>)
    ensures
        final(dst)@ == old(dst)@ + src@,
{
    let n: usize = src.len();
    let mut i: usize = 0;
    while i < n
        invariant
            n == src@.len(),
            0 <= i <= n,
            dst@ == old(dst)@ + src@.take(i as int),
        decreases n - i,
    {
        dst.push(src[i]);
        proof {
            assert(old(dst)@ + src@.take(i as int) + seq![src@[i as int]] =~= old(dst)@
                + src@.take(i + 1));
        }
        i = i + 1;
    }
    proof {
        assert(src@.take(n as int) =~= src@);
    }
}

/// Builds the display line `<User#<id>>: <text>` for a message.
pub fn format_line(id: u64, msg: &Vec<u8>) -> (r: Vec<u8>)
    ensures
        r@ == format_line_spec(id as nat, msg@),
{
    let mut r: Vec<u8> = Vec::new();
    r.push(60);
    r.push(85);
    r.push(115);
    r.push(101);
    r.push(114);
    r.push(35);
    proof {
        assert(r@ =~= line_prefix());
    }
    let digits = u64_to_dec(id);
    push_all(&mut r, &digits);
    r.push(62);
    r.push(58);
    r.push(32);
    proof {
        assert(r@ =~= line_prefix() + dec_digits(id as nat) + line_sep());
    }
    push_all(&mut r, msg);
    proof {
        assert(r@ =~= format_line_spec(id as nat, msg@));
    }
    r
}

/// Builds the newline-terminated log line for a message.
pub fn log_line(id: u64, msg: &Vec<u8>) -> (r: Vec<u8>)
    ensures
        r@ == log_line_spec(id as nat, msg@),
{
    let mut r = format_line(id, msg);
    r.push(10);
    r
}

/// Terminates an already formatted display line with the newline that
/// closes it in the log.
pub fn terminated(line: &Vec<u8>) -> (r: Vec<u8>)
    ensures
        r@ == line@.push(10u8),
{
    let mut r = crate::to_owned_bytes(line);
    r.push(10);
    r
}

/// Derives the log file path `logs/<room>.log` for a room name.
pub fn log_path(room: &Vec<u8>) -> (r: Vec<u8>)
    ensures
        r@ == log_path_spec(room@),
{
    let mut r: Vec<u8> = Vec::new();
    r.push(108);
    r.push(111);
    r.push(103);
    r.push(115);
    r.push(47);
    proof {
        assert(r@ =~= seq![108u8, 111u8, 103u8, 115u8, 47u8]);
    }
    push_all(&mut r, room);
    r.push(46);
    r.push(108);
    r.push(111);
    r.push(103);
    proof {
        assert(r@ =~= log_path_spec(room@));
    }
    r
}

} // verus!
