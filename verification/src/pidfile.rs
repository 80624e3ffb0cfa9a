//! The text of a session's PID file: what is written for a process id, and
//! how the file's content is read back.

use vstd::prelude::*;
use crate::render::{trim, trim_vec};
use crate::text::{chars_of, parse_u32, parse_u32_bytes, string_of};

verus! {

/// Decimal digit `d` (below 10) as a character.
pub open spec fn digit_char(d: nat) -> char {
    (48 + d) as char
}

/// Decimal text of `n`, without leading zeros (`to_string`).
pub open spec fn dec_text(n: nat) -> Seq<char>
    decreases n,
{
    if n < 10 {
        seq![digit_char(n)]
    } else {
        dec_text(n / 10).push(digit_char(n % 10))
    }
}

/// The bytes of a text made of ASCII characters.
pub open spec fn ascii_bytes(s: Seq<char>) -> Seq<u8> {
    Seq::new(s.len(), |i: int| (s[i] as u32) as u8)
}

pub open spec fn is_ascii(s: Seq<char>) -> bool {
    forall|i: int| 0 <= i < s.len() ==> (#[trigger] s[i] as u32) < 128
}

/// The process id a PID file's content stands for: the trimmed content
/// parsed as a `u32` (`str::parse`); `None` when it is not one.
pub open spec fn pid_of_text(t: Seq<char>) -> Option<u32> {
    let s = trim(t);
    if is_ascii(s) {
        parse_u32(ascii_bytes(s))
    } else {
        None
    }
}

fn push_decimal(v: &mut Vec<char>, n: u32)
    ensures
        final(v)@ == old(v)@ + dec_text(n as nat),
    decreases n,
{
    if n >= 10 {
        push_decimal(v, n / 10);
    }
    let d = (n % 10) as u8;
    let c = (48 + d) as char;
    proof {
        assert(c == digit_char((n % 10) as nat));
    }
    let ghost before = v@;
    v.push(c);
    proof {
        if n >= 10 {
            assert(dec_text(n as nat) == dec_text((n / 10) as nat).push(digit_char((n % 10) as nat)));
            assert(v@ =~= old(v)@ + dec_text(n as nat));
        } else {
            assert(v@ =~= old(v)@ + dec_text(n as nat));
        }
    }
}

/// What a PID file holds for process `pid`: its decimal text.
pub fn pid_text(pid: u32) -> (r: String)
    ensures
        r@ == dec_text(pid as nat),
{
    let mut v: Vec<char> = Vec::new();
    push_decimal(&mut v, pid);
    assert(v@ =~= dec_text(pid as nat));
    string_of(v.as_slice())
}

/// The process id in a PID file's content, if it holds one.
pub fn parse_pid(text: &str) -> (r: Option<u32>)
    ensures
        r == pid_of_text(text@),
{
    let t = trim_vec(chars_of(text).as_slice());
    let mut b: Vec<u8> = Vec::new();
    let mut i: usize = 0;
    while i < t.len()
        invariant
            i <= t@.len(),
            t@ == trim(text@),
            is_ascii(t@.take(i as int)),
            b@ == ascii_bytes(t@.take(i as int)),
        decreases t@.len() - i,
    {
        let c = t[i];
        if (c as u32) >= 128 {
            assert(!is_ascii(t@));
            return None;
        }
        b.push((c as u32) as u8);
        assert(b@ =~= ascii_bytes(t@.take(i + 1)));
        i = i + 1;
        assert(is_ascii(t@.take(i as int)));
    }
    assert(t@.take(i as int) =~= t@);
    parse_u32_bytes(b.as_slice())
}

/// The process a PID file lets one signal: its pid when that is a real
/// process id (1 to `i32::MAX`); never 0, which would signal the caller's
/// whole process group, nor a value that turns negative as a `pid_t`.
pub open spec fn stoppable_pid(t: Seq<char>) -> Option<i32> {
    match pid_of_text(t) {
        Some(p) => if 1 <= p <= i32::MAX {
            Some(p as i32)
        } else {
            None
        },
        None => None,
    }
}

/// The pid to signal for a PID file's content (see [`stoppable_pid`]).
pub fn pid_to_stop(text: &str) -> (r: Option<i32>)
    ensures
        r == stoppable_pid(text@),
{
    match parse_pid(text) {
        Some(p) => if 1 <= p && p <= 0x7fff_ffff {
            Some(p as i32)
        } else {
            None
        },
        None => None,
    }
}

} // verus!
