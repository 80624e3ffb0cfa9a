//! Byte-string helpers: searching, splitting, trimming and decimal parsing
//! with the meaning of the `str` methods they stand for.

use vstd::prelude::*;
use vstd::utf8::{decode_utf8, valid_utf8};

verus! {

/// Index of the first `c` in `s`, or -1.
pub open spec fn first_index(s: Seq<u8>, c: u8) -> int
    decreases s.len(),
{
    if s.len() == 0 {
        -1
    } else if s[0] == c {
        0
    } else {
        let r = first_index(s.drop_first(), c);
        if r < 0 {
            -1
        } else {
            r + 1
        }
    }
}

pub proof fn lemma_first_index(s: Seq<u8>, c: u8)
    ensures
        -1 <= first_index(s, c) < s.len(),
        first_index(s, c) >= 0 ==> s[first_index(s, c)] == c,
        forall|j: int| 0 <= j < s.len() && (first_index(s, c) < 0 || j < first_index(s, c)) ==> s[j] != c,
    decreases s.len(),
{
    if s.len() > 0 && s[0] != c {
        lemma_first_index(s.drop_first(), c);
        assert forall|j: int| 0 <= j < s.len() && (first_index(s, c) < 0 || j < first_index(s, c)) implies s[j] != c by {
            if j > 0 {
                assert(s[j] == s.drop_first()[j - 1]);
            }
        }
    }
}

/// `first_index` is determined by: `i` holds `c` and nothing before it does.
pub proof fn lemma_first_index_at(s: Seq<u8>, c: u8, i: int)
    requires
        -1 <= i < s.len(),
        i >= 0 ==> s[i] == c,
        forall|j: int| 0 <= j < s.len() && (i < 0 || j < i) ==> s[j] != c,
    ensures
        first_index(s, c) == i,
    decreases s.len(),
{
    if s.len() > 0 && i != 0 {
        let t = s.drop_first();
        assert forall|j: int| 0 <= j < t.len() && (i - 1 < 0 || j < i - 1) implies t[j] != c by {
            assert(t[j] == s[j + 1]);
        }
        if i < 0 {
            lemma_first_index_at(t, c, -1);
        } else {
            lemma_first_index_at(t, c, i - 1);
        }
    }
}

/// Position of the first `c` in `s`.
pub fn find_byte(s: &[u8], c: u8) -> (r: Option<usize>)
    ensures
        match r {
            Some(i) => first_index(s@, c) == i,
            None => first_index(s@, c) == -1,
        },
{
    let mut i: usize = 0;
    while i < s.len()
        invariant
            i <= s@.len(),
            forall|j: int| 0 <= j < i ==> s@[j] != c,
        decreases s@.len() - i,
    {
        if s[i] == c {
            proof {
                lemma_first_index_at(s@, c, i as int);
            }
            return Some(i);
        }
        i = i + 1;
    }
    proof {
        lemma_first_index_at(s@, c, -1);
    }
    None
}

/// The pieces of `s` between occurrences of `c` (like `str::split`).
pub open spec fn split_on(s: Seq<u8>, c: u8) -> Seq<Seq<u8>>
    decreases s.len(),
{
    let i = first_index(s, c);
    if i < 0 {
        seq![s]
    } else {
        proof {
            lemma_first_index(s, c);
        }
        seq![s.take(i)] + split_on(s.skip(i + 1), c)
    }
}

pub open spec fn views(v: Seq<Vec<u8>>) -> Seq<Seq<u8>> {
    Seq::new(v.len(), |i: int| v[i]@)
}

/// Split `s` at every `c`.
pub fn split_bytes(s: &[u8], c: u8) -> (parts: Vec<Vec<u8>>)
    ensures
        views(parts@) == split_on(s@, c),
{
    let mut parts: Vec<Vec<u8>> = Vec::new();
    let mut start: usize = 0;
    let n = s.len();
    assert(s@.skip(0) =~= s@);
    assert(views(parts@) =~= Seq::<Seq<u8>>::empty());
    loop
        invariant
            start <= s@.len(),
            n == s@.len(),
            views(parts@) + split_on(s@.skip(start as int), c) == split_on(s@, c),
        decreases s@.len() - start,
    {
        let rest = slice_from(s, start);
        match find_byte(rest, c) {
            Some(i) => {
                proof {
                    lemma_first_index(rest@, c);
                    assert(i < rest@.len());
                    assert(rest@.skip(i + 1) =~= s@.skip(start + i + 1));
                }
                let piece = slice_range_vec(s, start, start + i);
                assert(piece@ == rest@.take(i as int));
                let ghost before = views(parts@);
                parts.push(piece);
                assert(views(parts@) =~= before.push(piece@));
                assert(split_on(rest@, c) == seq![rest@.take(i as int)] + split_on(rest@.skip(i + 1), c));
                assert(views(parts@) + split_on(s@.skip(start + i + 1), c) =~= before + split_on(rest@, c));
                start = start + i + 1;
            },
            None => {
                let piece = slice_range_vec(s, start, s.len());
                assert(piece@ =~= rest@);
                let ghost before = views(parts@);
                parts.push(piece);
                assert(views(parts@) =~= before.push(piece@));
                assert(views(parts@) =~= before + split_on(rest@, c));
                return parts;
            },
        }
    }
}

/// `s[start..]` (empty when `start` is past the end).
pub fn slice_from(s: &[u8], start: usize) -> (r: &[u8])
    requires
        start <= s@.len(),
    ensures
        r@ == s@.skip(start as int),
{
    let (_, r) = s.split_at(start);
    r
}

/// A copy of `s[lo..hi]`.
pub fn slice_range_vec(s: &[u8], lo: usize, hi: usize) -> (r: Vec<u8>)
    requires
        lo <= hi <= s@.len(),
    ensures
        r@ == s@.subrange(lo as int, hi as int),
{
    let mut r: Vec<u8> = Vec::with_capacity(hi - lo);
    let mut i = lo;
    while i < hi
        invariant
            lo <= i <= hi <= s@.len(),
            r@ == s@.subrange(lo as int, i as int),
        decreases hi - i,
    {
        r.push(s[i]);
        assert(r@ =~= s@.subrange(lo as int, i + 1));
        i = i + 1;
    }
    r
}

/// `s` with trailing CR and LF bytes removed.
pub open spec fn trim_end_crlf(s: Seq<u8>) -> Seq<u8>
    decreases s.len(),
{
    if s.len() > 0 && (s.last() == 13 || s.last() == 10) {
        trim_end_crlf(s.drop_last())
    } else {
        s
    }
}

/// Length of `s` without its trailing CR/LF bytes.
pub fn trimmed_crlf_len(s: &[u8]) -> (n: usize)
    ensures
        n <= s@.len(),
        trim_end_crlf(s@) == s@.take(n as int),
{
    let mut n = s.len();
    assert(s@.take(n as int) =~= s@);
    while n > 0 && (s[n - 1] == 13 || s[n - 1] == 10)
        invariant
            n <= s@.len(),
            trim_end_crlf(s@) == trim_end_crlf(s@.take(n as int)),
        decreases n,
    {
        assert(s@.take(n as int).drop_last() =~= s@.take(n - 1));
        n = n - 1;
    }
    assert(s@.take(n as int) =~= s@.take(n as int));
    n
}

pub open spec fn is_digit(b: u8) -> bool {
    48 <= b <= 57
}

pub open spec fn all_digits(s: Seq<u8>) -> bool {
    forall|i: int| 0 <= i < s.len() ==> is_digit(#[trigger] s[i])
}

/// Value of a run of decimal digits.
pub open spec fn digits_value(s: Seq<u8>) -> nat
    decreases s.len(),
{
    if s.len() == 0 {
        0
    } else {
        digits_value(s.drop_last()) * 10 + (s.last() - 48) as nat
    }
}

/// Unsigned decimal with an optional leading `+` (as `str::parse`).
pub open spec fn parse_nat(s: Seq<u8>) -> Option<nat> {
    let t = if s.len() > 0 && s[0] == 43 {
        s.drop_first()
    } else {
        s
    };
    if t.len() > 0 && all_digits(t) {
        Some(digits_value(t))
    } else {
        None
    }
}

/// Signed decimal with an optional leading `+` or `-`.
pub open spec fn parse_int(s: Seq<u8>) -> Option<int> {
    if s.len() > 0 && s[0] == 45 {
        let t = s.drop_first();
        if t.len() > 0 && all_digits(t) {
            Some(-(digits_value(t) as int))
        } else {
            None
        }
    } else {
        match parse_nat(s) {
            Some(n) => Some(n as int),
            None => None,
        }
    }
}

/// `str::parse::<u32>`.
pub open spec fn parse_u32(s: Seq<u8>) -> Option<u32> {
    match parse_nat(s) {
        Some(n) => if n <= u32::MAX {
            Some(n as u32)
        } else {
            None
        },
        None => None,
    }
}

/// `str::parse::<i32>`.
pub open spec fn parse_i32(s: Seq<u8>) -> Option<i32> {
    match parse_int(s) {
        Some(n) => if i32::MIN <= n <= i32::MAX {
            Some(n as i32)
        } else {
            None
        },
        None => None,
    }
}

/// `str::parse::<i8>`.
pub open spec fn parse_i8(s: Seq<u8>) -> Option<i8> {
    match parse_int(s) {
        Some(n) => if i8::MIN <= n <= i8::MAX {
            Some(n as i8)
        } else {
            None
        },
        None => None,
    }
}

proof fn lemma_digits_prefix_mono(s: Seq<u8>, i: int)
    requires
        0 <= i <= s.len(),
    ensures
        digits_value(s.take(i)) <= digits_value(s),
    decreases s.len() - i,
{
    if i < s.len() {
        lemma_digits_prefix_mono(s, i + 1);
        assert(s.take(i + 1).drop_last() =~= s.take(i));
        assert(digits_value(s.take(i + 1)) >= digits_value(s.take(i)));
    } else {
        assert(s.take(i) =~= s);
    }
}

/// Value of the decimal digits `s[lo..]` if all are digits, there is at least
/// one, and the value does not exceed `max`.
fn digits_upto(s: &[u8], lo: usize, max: u64) -> (r: Option<u64>)
    requires
        lo <= s@.len(),
        max <= 0x1_0000_0000,
    ensures
        match r {
            Some(v) => {
                let t = s@.skip(lo as int);
                &&& t.len() > 0
                &&& all_digits(t)
                &&& v == digits_value(t)
                &&& v <= max
            },
            None => {
                let t = s@.skip(lo as int);
                !(t.len() > 0 && all_digits(t) && digits_value(t) <= max)
            },
        },
{
    let ghost t = s@.skip(lo as int);
    if lo >= s.len() {
        return None;
    }
    let mut v: u64 = 0;
    let mut i = lo;
    while i < s.len()
        invariant
            lo <= i <= s@.len(),
            t == s@.skip(lo as int),
            all_digits(t.take(i - lo)),
            v == digits_value(t.take(i - lo)),
            v <= max,
            max <= 0x1_0000_0000,
        decreases s@.len() - i,
    {
        let b = s[i];
        if b < 48 || b > 57 {
            assert(t[i - lo] == b);
            return None;
        }
        assert(t.take(i - lo + 1).drop_last() =~= t.take(i - lo));
        let nv = v * 10 + (b - 48) as u64;
        if nv > max {
            proof {
                lemma_digits_prefix_mono(t, i - lo + 1);
                assert(t.take(i - lo + 1) =~= t.take(i - lo + 1));
            }
            return None;
        }
        v = nv;
        i = i + 1;
        assert(all_digits(t.take(i - lo)));
    }
    assert(t.take(i - lo) =~= t);
    Some(v)
}

pub fn parse_u32_bytes(s: &[u8]) -> (r: Option<u32>)
    ensures
        r == parse_u32(s@),
{
    let lo: usize = if s.len() > 0 && s[0] == 43 { 1 } else { 0 };
    assert(s@.skip(lo as int) =~= (if s@.len() > 0 && s@[0] == 43 { s@.drop_first() } else { s@ }));
    match digits_upto(s, lo, 0xFFFF_FFFF) {
        Some(v) => Some(v as u32),
        None => None,
    }
}

/// Signed parse bounded by `-neg_max ..= pos_max`.
fn parse_signed(s: &[u8], neg_max: u64, pos_max: u64) -> (r: Option<i64>)
    requires
        neg_max <= 0x8000_0000,
        pos_max <= 0x7FFF_FFFF,
    ensures
        match r {
            Some(v) => parse_int(s@) == Some(v as int) && -(neg_max as int) <= v <= pos_max,
            None => !(parse_int(s@) is Some && -(neg_max as int) <= parse_int(s@).unwrap()
                <= pos_max),
        },
{
    if s.len() > 0 && s[0] == 45 {
        assert(s@.skip(1) =~= s@.drop_first());
        match digits_upto(s, 1, neg_max) {
            Some(v) => Some(-(v as i64)),
            None => None,
        }
    } else {
        let lo: usize = if s.len() > 0 && s[0] == 43 { 1 } else { 0 };
        assert(s@.skip(lo as int) =~= (if s@.len() > 0 && s@[0] == 43 { s@.drop_first() } else { s@ }));
        match digits_upto(s, lo, pos_max) {
            Some(v) => Some(v as i64),
            None => None,
        }
    }
}

pub fn parse_i32_bytes(s: &[u8]) -> (r: Option<i32>)
    ensures
        r == parse_i32(s@),
{
    match parse_signed(s, 0x8000_0000, 0x7FFF_FFFF) {
        Some(v) => Some(v as i32),
        None => None,
    }
}

pub fn parse_i8_bytes(s: &[u8]) -> (r: Option<i8>)
    ensures
        r == parse_i8(s@),
{
    match parse_signed(s, 128, 127) {
        Some(v) => Some(v as i8),
        None => None,
    }
}

/// Bytes of `String::from_utf8_lossy(bytes)`: invalid sequences replaced by
/// U+FFFD.
pub uninterp spec fn utf8_lossy(bytes: Seq<u8>) -> Seq<u8>;

/// Calls `String::from_utf8_lossy`. The result is a function of the bytes
/// alone and is always valid UTF-8; valid input comes back unchanged. Where
/// the input is invalid, which bytes replace it is named, not spelled out.
#[verifier::external_body]
pub(crate) fn lossy_utf8_bytes(bytes: &[u8]) -> (r: Vec<u8>)
    ensures
        r@ == utf8_lossy(bytes@),
        valid_utf8(r@),
        valid_utf8(bytes@) ==> r@ == bytes@,
{
    String::from_utf8_lossy(bytes).into_owned().into_bytes()
}

/// Calls `std::str::from_utf8`: a string exactly when the bytes are valid
/// UTF-8, holding the characters they encode.
#[verifier::external_body]
pub(crate) fn utf8_string(bytes: &[u8]) -> (r: Option<String>)
    ensures
        r is Some <==> valid_utf8(bytes@),
        r matches Some(s) ==> s@ == decode_utf8(bytes@),
{
    match std::str::from_utf8(bytes) {
        Ok(s) => Some(s.to_string()),
        Err(_) => None,
    }
}

/// Collects the characters into a `String` (`FromIterator<&char>`): the
/// string of exactly these characters.
#[verifier::external_body]
pub(crate) fn string_of(chars: &[char]) -> (s: String)
    ensures
        s@ == chars@,
{
    chars.iter().collect()
}

/// An owned copy of `lit`.
pub fn text(lit: &str) -> (r: String)
    ensures
        r@ == lit@,
{
    string_of(chars_of(lit).as_slice())
}

/// The characters of `s`.
pub fn chars_of(s: &str) -> (v: Vec<char>)
    ensures
        v@ == s@,
{
    broadcast use vstd::string::group_string_axioms;

    let mut v: Vec<char> = Vec::new();
    for c in it: s.chars()
        invariant
            v@.len() == it.index(),
            forall|j: int| 0 <= j < it.index() ==> v@[j] == it.seq()[j],
    {
        v.push(c);
    }
    assert(v@ =~= s@);
    v
}

} // verus!
