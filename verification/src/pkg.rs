//! Pure parts of `mterm pkg`: hexadecimal keys and digests, SHA-256
//! parts of an archive, Ed25519 signatures of an index, and the small
//! parsers of the command line and of file names.

use vstd::prelude::*;
use ed25519_dalek::{Signature, Signer, SigningKey, Verifier, VerifyingKey};
use sha2::{Digest, Sha256};
use crate::render::{copy_range, eq_chars, find, find_char, lemma_find_bounds, push_all, trim, trim_vec};
use crate::text::{chars_of, string_of};

verus! {

/// Size of the content-addressed parts an archive is cut into (1 MiB).
pub const PART_SIZE: usize = 1048576;

/// SHA-256 digest of `data` (32 bytes).
pub uninterp spec fn sha256(data: Seq<u8>) -> Seq<u8>;

/// Ed25519 public key of a 32-byte secret seed.
pub uninterp spec fn ed25519_public(seed: Seq<u8>) -> Seq<u8>;

/// Ed25519 signature (64 bytes) of `msg` under the secret seed.
pub uninterp spec fn ed25519_signature(seed: Seq<u8>, msg: Seq<u8>) -> Seq<u8>;

/// Whether `sig` is a valid Ed25519 signature of `msg` under public key `pk`
/// (false when `pk` is not a valid curve point).
pub uninterp spec fn ed25519_valid(pk: Seq<u8>, msg: Seq<u8>, sig: Seq<u8>) -> bool;

/// Calls `sha2::Sha256` (`new`, `update`, `finalize`): the SHA-256 digest of
/// `data`, a function of the bytes alone.
#[verifier::external_body]
fn sha256_digest(data: &[u8]) -> (r: [u8; 32])
    ensures
        r@ == sha256(data@),
{
    let mut h = Sha256::new();
    h.update(data);
    h.finalize().into()
}

/// Calls `ed25519_dalek::SigningKey::from_bytes`, `verifying_key` and
/// `VerifyingKey::to_bytes`: the public key of the seed, a function of the
/// seed alone.
#[verifier::external_body]
fn public_key_of(seed: &[u8; 32]) -> (r: [u8; 32])
    ensures
        r@ == ed25519_public(seed@),
{
    SigningKey::from_bytes(seed).verifying_key().to_bytes()
}

/// Calls `ed25519_dalek::SigningKey::from_bytes`, `Signer::sign` and
/// `Signature::to_bytes`: the (deterministic) Ed25519 signature of `msg`.
/// Also claimed: it verifies under the seed's public key, the correctness
/// of the Ed25519 scheme that `Verifier::verify` checks.
#[verifier::external_body]
fn sign_with(seed: &[u8; 32], msg: &[u8]) -> (r: [u8; 64])
    ensures
        r@ == ed25519_signature(seed@, msg@),
        ed25519_valid(ed25519_public(seed@), msg@, r@),
{
    let key = SigningKey::from_bytes(seed);
    let sig: Signature = key.sign(msg);
    sig.to_bytes()
}

/// Calls `ed25519_dalek::VerifyingKey::from_bytes` and `Verifier::verify`:
/// whether the signature is valid (false for a key that is no curve point).
#[verifier::external_body]
fn verify_with(pk: &[u8; 32], msg: &[u8], sig: &[u8; 64]) -> (r: bool)
    ensures
        r == ed25519_valid(pk@, msg@, sig@),
{
    match VerifyingKey::from_bytes(pk) {
        Ok(k) => k.verify(msg, &Signature::from_bytes(sig)).is_ok(),
        Err(_) => false,
    }
}

/// Value of a lowercase hexadecimal digit.
pub open spec fn hex_digit(c: u8) -> Option<u8> {
    if 48 <= c <= 57 {
        Some((c - 48) as u8)
    } else if 97 <= c <= 102 {
        Some((c - 97 + 10) as u8)
    } else {
        None
    }
}

pub fn hexv(c: u8) -> (r: Option<u8>)
    ensures
        r == hex_digit(c),
{
    if 48 <= c && c <= 57 {
        Some(c - 48)
    } else if 97 <= c && c <= 102 {
        Some(c - 97 + 10)
    } else {
        None
    }
}

/// Lowercase hexadecimal digit of a value below 16.
pub open spec fn hex_char(v: u8) -> char {
    if v < 10 {
        (48 + v) as char
    } else {
        (97 + v - 10) as char
    }
}

/// Lowercase hexadecimal text of `bytes` (two digits each).
pub open spec fn hex_text(bytes: Seq<u8>) -> Seq<char>
    decreases bytes.len(),
{
    if bytes.len() == 0 {
        Seq::empty()
    } else {
        hex_text(bytes.drop_last()) + seq![hex_char(bytes.last() / 16), hex_char(bytes.last() % 16)]
    }
}

fn hex_digit_char(v: u8) -> (c: char)
    requires
        v < 16,
    ensures
        c == hex_char(v),
{
    if v < 10 {
        (48 + v) as char
    } else {
        (97 + v - 10) as char
    }
}

/// Lowercase hexadecimal text of `bytes`.
pub fn hex_string(bytes: &[u8]) -> (s: String)
    ensures
        s@ == hex_text(bytes@),
{
    let mut out: Vec<char> = Vec::new();
    let mut i: usize = 0;
    while i < bytes.len()
        invariant
            i <= bytes@.len(),
            out@ == hex_text(bytes@.take(i as int)),
        decreases bytes@.len() - i,
    {
        let b = bytes[i];
        out.push(hex_digit_char(b / 16));
        out.push(hex_digit_char(b % 16));
        assert(bytes@.take(i + 1).drop_last() =~= bytes@.take(i as int));
        assert(out@ =~= hex_text(bytes@.take(i + 1)));
        i = i + 1;
    }
    assert(bytes@.take(i as int) =~= bytes@);
    string_of(out.as_slice())
}

/// SHA-256 of `data` as lowercase hexadecimal.
pub fn sha256_hex(data: &[u8]) -> (s: String)
    ensures
        s@ == hex_text(sha256(data@)),
{
    let d = sha256_digest(data);
    hex_string(&d)
}

/// A lowercase hexadecimal digit (ASCII).
pub open spec fn is_hex_char(c: char) -> bool {
    (c as u32) < 128 && hex_digit(c as u8) is Some
}

pub open spec fn hex_value(c: char) -> u8 {
    hex_digit(c as u8)->0
}

/// The 32 bytes written as 64 lowercase hex digits in `t`, if it is that.
pub open spec fn key_bytes(t: Seq<char>) -> Option<Seq<u8>> {
    if t.len() == 64 && forall|i: int| 0 <= i < 64 ==> #[trigger] is_hex_char(t[i]) {
        Some(Seq::new(32, |i: int| (hex_value(t[2 * i]) * 16 + hex_value(t[2 * i + 1])) as u8))
    } else {
        None
    }
}

fn hex_of_char(c: char) -> (r: Option<u8>)
    ensures
        r is Some <==> is_hex_char(c),
        r matches Some(v) ==> v == hex_value(c) && v < 16,
{
    if (c as u32) >= 128 {
        return None;
    }
    hexv(c as u8)
}

/// A key file's content (trimmed) as 32 bytes: 64 lowercase hex digits.
pub fn parse_key_hex(text: &str) -> (r: Option<[u8; 32]>)
    ensures
        match r {
            Some(k) => key_bytes(trim(text@)) == Some(k@),
            None => key_bytes(trim(text@)) is None,
        },
{
    let all = chars_of(text);
    let t = trim_vec(all.as_slice());
    if t.len() != 64 {
        return None;
    }
    let mut out: [u8; 32] = [0u8; 32];
    let mut i: usize = 0;
    while i < 32
        invariant
            t@.len() == 64,
            t@ == trim(text@),
            i <= 32,
            forall|j: int| 0 <= j < 2 * i ==> #[trigger] is_hex_char(t@[j]),
            forall|j: int| 0 <= j < i ==> out@[j] == (hex_value(t@[2 * j]) * 16 + hex_value(t@[2 * j + 1])) as u8,
        decreases 32 - i,
    {
        let hi = match hex_of_char(t[2 * i]) {
            Some(v) => v,
            None => {
                assert(!is_hex_char(t@[2 * i as int]));
                return None;
            },
        };
        let lo = match hex_of_char(t[2 * i + 1]) {
            Some(v) => v,
            None => {
                assert(!is_hex_char(t@[2 * i + 1]));
                return None;
            },
        };
        out[i] = hi * 16 + lo;
        i = i + 1;
    }
    assert(out@ =~= key_bytes(t@)->0);
    Some(out)
}

/// Public key of a secret seed.
pub fn pub_of_priv(seed: &[u8; 32]) -> (r: [u8; 32])
    ensures
        r@ == ed25519_public(seed@),
{
    public_key_of(seed)
}

/// Signature (64 bytes) of `data` with the secret seed.
pub fn sign_bytes(seed: &[u8; 32], data: &[u8]) -> (r: Vec<u8>)
    ensures
        r@ == ed25519_signature(seed@, data@),
        r@.len() == 64,
        ed25519_valid(ed25519_public(seed@), data@, r@),
{
    let sig = sign_with(seed, data);
    crate::vt::to_vec(&sig)
}

/// Whether `sig` is a valid signature of `data` under `pubkey`; false for a
/// signature that is not 64 bytes long.
pub fn verify_bytes(pubkey: [u8; 32], data: &[u8], sig: &[u8]) -> (r: bool)
    ensures
        r == (sig@.len() == 64 && ed25519_valid(pubkey@, data@, sig@)),
{
    if sig.len() != 64 {
        return false;
    }
    let mut sb: [u8; 64] = [0u8; 64];
    let mut i: usize = 0;
    while i < 64
        invariant
            sig@.len() == 64,
            i <= 64,
            forall|j: int| 0 <= j < i ==> sb@[j] == sig@[j],
        decreases 64 - i,
    {
        sb[i] = sig[i];
        i = i + 1;
    }
    assert(sb@ =~= sig@);
    verify_with(&pubkey, data, &sb)
}

/// The parts an archive is cut into: consecutive slices of [`PART_SIZE`]
/// bytes, the last one shorter.
pub open spec fn chunks(data: Seq<u8>) -> Seq<Seq<u8>>
    decreases data.len(),
{
    if data.len() == 0 {
        Seq::empty()
    } else if data.len() <= PART_SIZE {
        seq![data]
    } else {
        seq![data.take(PART_SIZE as int)] + chunks(data.skip(PART_SIZE as int))
    }
}

/// A part's reference: its SHA-256 (hex) and size.
pub open spec fn part_ref(chunk: Seq<u8>) -> (Seq<char>, u64) {
    (hex_text(sha256(chunk)), chunk.len() as u64)
}

/// Cut an archive into parts (see [`chunks`]): each part's bytes, SHA-256
/// (hex) and size, in order.
pub fn split_parts(data: &[u8]) -> (parts: Vec<(Vec<u8>, String, u64)>)
    ensures
        parts@.len() == chunks(data@).len(),
        forall|i: int| 0 <= i < parts@.len() ==> {
            &&& (#[trigger] parts@[i]).0@ == chunks(data@)[i]
            &&& (parts@[i].1@, parts@[i].2) == part_ref(chunks(data@)[i])
        },
{
    let mut parts: Vec<(Vec<u8>, String, u64)> = Vec::new();
    let mut off: usize = 0;
    let n = data.len();
    assert(data@.skip(0) =~= data@);
    while off < n
        invariant
            n == data@.len(),
            off <= n,
            parts@.len() + chunks(data@.skip(off as int)).len() == chunks(data@).len(),
            forall|i: int| 0 <= i < parts@.len() ==> {
                &&& (#[trigger] parts@[i]).0@ == chunks(data@)[i]
                &&& (parts@[i].1@, parts@[i].2) == part_ref(chunks(data@)[i])
            },
            forall|i: int| 0 <= i < chunks(data@.skip(off as int)).len() ==> chunks(data@)[parts@.len() + i]
                == #[trigger] chunks(data@.skip(off as int))[i],
        decreases n - off,
    {
        let ghost rest = data@.skip(off as int);
        let end = if n - off > PART_SIZE { off + PART_SIZE } else { n };
        let chunk = crate::text::slice_range_vec(data, off, end);
        let sha = sha256_hex(chunk.as_slice());
        let size = (end - off) as u64;
        proof {
            if rest.len() <= PART_SIZE {
                assert(chunk@ =~= rest);
                assert(data@.skip(end as int) =~= Seq::<u8>::empty());
            } else {
                assert(chunk@ =~= rest.take(PART_SIZE as int));
                assert(rest.skip(PART_SIZE as int) =~= data@.skip(end as int));
            }
            assert(chunks(rest)[0] == chunk@);
            assert(chunks(data@)[parts@.len() as int] == chunk@);
            assert forall|i: int| 0 <= i < chunks(data@.skip(end as int)).len() implies chunks(
                data@,
            )[parts@.len() + 1 + i] == #[trigger] chunks(data@.skip(end as int))[i] by {
                assert(chunks(rest)[i + 1] == chunks(data@.skip(end as int))[i]);
            }
        }
        parts.push((chunk, sha, size));
        off = end;
    }
    parts
}

/// Name and version from an archive's stem `<name>-<version>` (split at the
/// first `-`, both non-empty); otherwise the whole stem and version 1.0.0.
pub open spec fn stem_parts(stem: Seq<char>) -> (Seq<char>, Seq<char>) {
    let i = find_char(stem, 0, '-');
    if 0 < i && i + 1 < stem.len() {
        (stem.take(i), stem.skip(i + 1))
    } else {
        (stem, "1.0.0"@)
    }
}

pub fn name_version(stem: &str) -> (r: (String, String))
    ensures
        r.0@ == stem_parts(stem@).0,
        r.1@ == stem_parts(stem@).1,
{
    let s = chars_of(stem);
    proof {
        lemma_find_bounds(s@, 0, '-');
    }
    match find(s.as_slice(), 0, '-') {
        Some(i) => {
            if i > 0 && s.len() - i > 1 {
                let n = copy_range(s.as_slice(), 0, i);
                let v = copy_range(s.as_slice(), i + 1, s.len());
                assert(n@ =~= s@.take(i as int));
                assert(v@ =~= s@.skip(i + 1));
                return (string_of(n.as_slice()), string_of(v.as_slice()));
            }
        },
        None => {},
    }
    (string_of(s.as_slice()), string_of(chars_of("1.0.0").as_slice()))
}

/// An install spec `name` or `name@version` (a spec starting with `@` is a
/// name).
pub open spec fn spec_parts(spec: Seq<char>) -> (Seq<char>, Option<Seq<char>>) {
    let i = find_char(spec, 0, '@');
    if 0 < i < spec.len() {
        (spec.take(i), Some(spec.skip(i + 1)))
    } else {
        (spec, None)
    }
}

pub fn install_spec(spec: &str) -> (r: (String, Option<String>))
    ensures
        r.0@ == spec_parts(spec@).0,
        match (r.1, spec_parts(spec@).1) {
            (Some(v), Some(w)) => v@ == w,
            (None, None) => true,
            _ => false,
        },
{
    let s = chars_of(spec);
    proof {
        lemma_find_bounds(s@, 0, '@');
    }
    match find(s.as_slice(), 0, '@') {
        Some(i) => {
            if i > 0 {
                let n = copy_range(s.as_slice(), 0, i);
                let v = copy_range(s.as_slice(), i + 1, s.len());
                assert(n@ =~= s@.take(i as int));
                assert(v@ =~= s@.skip(i + 1));
                return (string_of(n.as_slice()), Some(string_of(v.as_slice())));
            }
        },
        None => {},
    }
    (string_of(s.as_slice()), None)
}

/// `s` without its trailing `c` characters.
pub open spec fn trim_end_char(s: Seq<char>, c: char) -> Seq<char>
    decreases s.len(),
{
    if s.len() > 0 && s.last() == c {
        trim_end_char(s.drop_last(), c)
    } else {
        s
    }
}

/// A mirror URL without trailing slashes.
pub fn base_url(url: &str) -> (r: String)
    ensures
        r@ == trim_end_char(url@, '/'),
{
    let s = chars_of(url);
    let mut n = s.len();
    assert(s@.take(n as int) =~= s@);
    while n > 0 && s[n - 1] == '/'
        invariant
            n <= s@.len(),
            trim_end_char(s@.take(n as int), '/') == trim_end_char(s@, '/'),
        decreases n,
    {
        assert(s@.take(n as int).drop_last() =~= s@.take(n - 1));
        n = n - 1;
    }
    let r = copy_range(s.as_slice(), 0, n);
    string_of(r.as_slice())
}

/// `s` without every trailing copy of `suf` (non-empty).
pub open spec fn trim_end_seq(s: Seq<char>, suf: Seq<char>) -> Seq<char>
    decreases s.len(),
{
    if suf.len() > 0 && suf.len() <= s.len() && s.skip(s.len() - suf.len()) == suf {
        trim_end_seq(s.take(s.len() - suf.len()), suf)
    } else {
        s
    }
}

/// Name of a local archive: the file name without `.tar.zst` endings.
pub fn archive_name(fname: &str) -> (r: String)
    ensures
        r@ == trim_end_seq(fname@, ".tar.zst"@),
{
    let s = chars_of(fname);
    let suf = chars_of(".tar.zst");
    let k = suf.len();
    let mut n = s.len();
    assert(s@.take(n as int) =~= s@);
    loop
        invariant
            n <= s@.len(),
            k == suf@.len(),
            suf@ == ".tar.zst"@,
            trim_end_seq(s@.take(n as int), suf@) == trim_end_seq(s@, suf@),
        ensures
            n <= s@.len(),
            trim_end_seq(s@, suf@) == s@.take(n as int),
        decreases n,
    {
        if k == 0 || k > n {
            break;
        }
        let tail = copy_range(s.as_slice(), n - k, n);
        assert(tail@ =~= s@.take(n as int).skip(n - k));
        if !eq_chars(tail.as_slice(), suf.as_slice()) {
            break;
        }
        assert(s@.take(n as int).take(n - k) =~= s@.take(n - k));
        n = n - k;
    }
    let r = copy_range(s.as_slice(), 0, n);
    assert(r@ =~= s@.take(n as int));
    string_of(r.as_slice())
}

/// First twelve characters (a short digest for display).
pub fn short(s: &str) -> (r: String)
    ensures
        r@ == (if s@.len() <= 12 {
            s@
        } else {
            s@.take(12)
        }),
{
    let c = chars_of(s);
    let n = if c.len() <= 12 { c.len() } else { 12 };
    let r = copy_range(c.as_slice(), 0, n);
    assert(c@.len() <= 12 ==> r@ =~= c@);
    string_of(r.as_slice())
}

/// The argument after the first `flag` (that has one after it).
pub open spec fn flag_value(args: Seq<Seq<char>>, flag: Seq<char>, i: int) -> Option<Seq<char>>
    decreases args.len() - i,
{
    if i < 0 || i + 1 >= args.len() {
        None
    } else if args[i] == flag {
        Some(args[i + 1])
    } else {
        flag_value(args, flag, i + 1)
    }
}

pub fn parse_flag(args: &[String], flag: &str) -> (r: Option<String>)
    ensures
        match r {
            Some(v) => flag_value(crate::tool::strings_view(args@), flag@, 0) == Some(v@),
            None => flag_value(crate::tool::strings_view(args@), flag@, 0) is None,
        },
{
    let ghost av = crate::tool::strings_view(args@);
    let f = chars_of(flag);
    let mut i: usize = 0;
    while i < args.len() && args.len() - i > 1
        invariant
            av == crate::tool::strings_view(args@),
            f@ == flag@,
            flag_value(av, flag@, i as int) == flag_value(av, flag@, 0),
        decreases args@.len() - i,
    {
        let a = chars_of(args[i].as_str());
        if eq_chars(a.as_slice(), f.as_slice()) {
            return Some(args[i + 1].clone());
        }
        i = i + 1;
    }
    None
}

/// Whether the bytes have the expected SHA-256 (hex).
pub fn check_sha(data: &[u8], expected: &str) -> (ok: bool)
    ensures
        ok == (hex_text(sha256(data@)) == expected@),
{
    let h = sha256_hex(data);
    eq_chars(chars_of(h.as_str()).as_slice(), chars_of(expected).as_slice())
}

/// Bytes of the parts, in order.
pub open spec fn concat_all(parts: Seq<Seq<u8>>) -> Seq<u8>
    decreases parts.len(),
{
    if parts.len() == 0 {
        Seq::empty()
    } else {
        concat_all(parts.drop_last()) + parts.last()
    }
}

/// Whether the parts, put together, have the expected SHA-256 (hex): the
/// integrity check of an installed package.
pub fn parts_digest_ok(parts: &Vec<Vec<u8>>, expected: &str) -> (ok: bool)
    ensures
        ok == (hex_text(sha256(concat_all(crate::text::views(parts@)))) == expected@),
{
    let ghost pv = crate::text::views(parts@);
    let mut all: Vec<u8> = Vec::new();
    let mut i: usize = 0;
    while i < parts.len()
        invariant
            pv == crate::text::views(parts@),
            i <= parts@.len(),
            all@ == concat_all(pv.take(i as int)),
        decreases parts@.len() - i,
    {
        let mut p = crate::vt::to_vec(parts[i].as_slice());
        all.append(&mut p);
        assert(pv.take(i + 1).drop_last() =~= pv.take(i as int));
        i = i + 1;
    }
    assert(pv.take(i as int) =~= pv);
    check_sha(all.as_slice(), expected)
}

/// The index entry of an archive `<name>-<version>.tar.zst` with content
/// `data`: name and version from the stem, a description, the SHA-256 and
/// size of the whole, and its parts.
pub struct IndexEntry {
    pub name: String,
    pub version: String,
    pub description: String,
    pub sha256: String,
    pub size: u64,
    pub parts: Vec<(String, u64)>,
}

pub fn index_entry(file_name: &str, data: &[u8]) -> (e: IndexEntry)
    ensures
        ({
            let stem = trim_end_seq(file_name@, ".tar.zst"@);
            &&& e.name@ == stem_parts(stem).0
            &&& e.version@ == stem_parts(stem).1
            &&& e.description@ == "paket "@ + stem_parts(stem).0
            &&& e.sha256@ == hex_text(sha256(data@))
            &&& e.size == data@.len() as u64
            &&& e.parts@.len() == chunks(data@).len()
            &&& forall|i: int| 0 <= i < e.parts@.len() ==> ((#[trigger] e.parts@[i]).0@, e.parts@[i].1)
                == part_ref(chunks(data@)[i])
        }),
{
    let stem = archive_name(file_name);
    let (name, version) = name_version(stem.as_str());
    let mut d = chars_of("paket ");
    push_all(&mut d, chars_of(name.as_str()).as_slice());
    let all = split_parts(data);
    let mut parts: Vec<(String, u64)> = Vec::new();
    let mut i: usize = 0;
    while i < all.len()
        invariant
            i <= all@.len(),
            parts@.len() == i,
            forall|j: int| 0 <= j < i ==> ((#[trigger] parts@[j]).0@, parts@[j].1) == (all@[j].1@, all@[j].2),
        decreases all@.len() - i,
    {
        let sha = string_of(chars_of(all[i].1.as_str()).as_slice());
        parts.push((sha, all[i].2));
        i = i + 1;
    }
    IndexEntry {
        name,
        version,
        description: string_of(d.as_slice()),
        sha256: sha256_hex(data),
        size: data.len() as u64,
        parts,
    }
}

/// A package mirror.
#[derive(Debug, Clone)]
pub struct Mirror {
    pub name: String,
    pub url: String,
}

pub open spec fn mirror_view(m: Mirror) -> (Seq<char>, Seq<char>) {
    (m.name@, m.url@)
}

pub open spec fn mirrors_view(ms: Seq<Mirror>) -> Seq<(Seq<char>, Seq<char>)> {
    Seq::new(ms.len(), |i: int| mirror_view(ms[i]))
}

/// The mirrors not named `name`, in order.
pub open spec fn without(ms: Seq<(Seq<char>, Seq<char>)>, name: Seq<char>) -> Seq<(Seq<char>, Seq<char>)>
    decreases ms.len(),
{
    if ms.len() == 0 {
        Seq::empty()
    } else if ms.last().0 == name {
        without(ms.drop_last(), name)
    } else {
        without(ms.drop_last(), name).push(ms.last())
    }
}

fn remove_named(ms: &Vec<Mirror>, name: &[char]) -> (r: Vec<Mirror>)
    ensures
        mirrors_view(r@) == without(mirrors_view(ms@), name@),
{
    let ghost mv = mirrors_view(ms@);
    let mut out: Vec<Mirror> = Vec::new();
    let mut i: usize = 0;
    while i < ms.len()
        invariant
            mv == mirrors_view(ms@),
            i <= ms@.len(),
            mirrors_view(out@) == without(mv.take(i as int), name@),
        decreases ms@.len() - i,
    {
        assert(mv.take(i + 1).drop_last() =~= mv.take(i as int));
        let n = chars_of(ms[i].name.as_str());
        if !eq_chars(n.as_slice(), name) {
            let m = Mirror {
                name: string_of(n.as_slice()),
                url: string_of(chars_of(ms[i].url.as_str()).as_slice()),
            };
            let ghost before = mirrors_view(out@);
            out.push(m);
            assert(mirrors_view(out@) =~= before.push(mv[i as int]));
        }
        i = i + 1;
    }
    assert(mv.take(i as int) =~= mv);
    out
}

/// Add (or replace) mirror `name`: the others keep their order and the new
/// one comes last; whether one was replaced.
pub fn mirrors_add(ms: &Vec<Mirror>, name: &str, url: &str) -> (r: (Vec<Mirror>, bool))
    ensures
        mirrors_view(r.0@) == without(mirrors_view(ms@), name@).push((name@, url@)),
        r.1 == (without(mirrors_view(ms@), name@).len() < ms@.len()),
{
    let n = chars_of(name);
    let mut out = remove_named(ms, n.as_slice());
    proof {
        lemma_without_len(mirrors_view(ms@), name@);
    }
    let replaced = out.len() < ms.len();
    let ghost before = mirrors_view(out@);
    out.push(Mirror { name: string_of(n.as_slice()), url: string_of(chars_of(url).as_slice()) });
    assert(mirrors_view(out@) =~= before.push((name@, url@)));
    (out, replaced)
}

/// Remove mirror `name`; whether there was one.
pub fn mirrors_remove(ms: &Vec<Mirror>, name: &str) -> (r: (Vec<Mirror>, bool))
    ensures
        mirrors_view(r.0@) == without(mirrors_view(ms@), name@),
        r.1 == (without(mirrors_view(ms@), name@).len() < ms@.len()),
{
    let n = chars_of(name);
    let out = remove_named(ms, n.as_slice());
    proof {
        lemma_without_len(mirrors_view(ms@), name@);
    }
    let removed = out.len() < ms.len();
    (out, removed)
}

proof fn lemma_without_len(ms: Seq<(Seq<char>, Seq<char>)>, name: Seq<char>)
    ensures
        without(ms, name).len() <= ms.len(),
    decreases ms.len(),
{
    if ms.len() > 0 {
        lemma_without_len(ms.drop_last(), name);
    }
}

/// A package seen in a downloaded index: its version and where the caller
/// keeps its full entry.
pub struct Listed {
    pub version: String,
    pub slot: usize,
}

/// Merge one index entry into the package list (one entry per name): it
/// is taken unless the list already has that name at the same version.
/// Whether it was taken.
pub fn merge_listed(
    m: &mut crate::names::NameMap<Listed>,
    name: &str,
    version: &str,
    slot: usize,
) -> (taken: bool)
    requires
        old(m).wf(),
    ensures
        final(m).wf(),
        taken == !(old(m)@.contains_key(name@) && old(m)@[name@].version@ == version@),
        taken ==> final(m)@.dom() == old(m)@.dom().insert(name@),
        taken ==> final(m)@[name@].version@ == version@ && final(m)@[name@].slot == slot,
        taken ==> forall|k: Seq<char>| k != name@ && #[trigger] old(m)@.contains_key(k)
            ==> final(m)@[k] == old(m)@[k],
        !taken ==> final(m)@ == old(m)@,
{
    let same = match m.get(name) {
        Some(old) => eq_chars(chars_of(old.version.as_str()).as_slice(), chars_of(version).as_slice()),
        None => false,
    };
    if same {
        return false;
    }
    let e = Listed { version: string_of(chars_of(version).as_slice()), slot };
    m.insert(string_of(chars_of(name).as_slice()), e);
    assert(m@.dom() =~= old(m)@.dom().insert(name@));
    true
}

/// The positions of the parts not in the cache, in order: the only parts
/// an install downloads (the others are reused by digest).
pub open spec fn missing_spec(cached: Seq<bool>) -> Seq<usize>
    decreases cached.len(),
{
    if cached.len() == 0 {
        Seq::empty()
    } else if cached.last() {
        missing_spec(cached.drop_last())
    } else {
        missing_spec(cached.drop_last()).push((cached.len() - 1) as usize)
    }
}

/// The parts to download, given which parts (by position) are cached.
pub fn missing_parts(cached: &[bool]) -> (r: Vec<usize>)
    ensures
        r@ == missing_spec(cached@),
{
    let mut out: Vec<usize> = Vec::new();
    let mut i: usize = 0;
    while i < cached.len()
        invariant
            i <= cached@.len(),
            out@ == missing_spec(cached@.take(i as int)),
        decreases cached@.len() - i,
    {
        assert(cached@.take(i + 1).drop_last() =~= cached@.take(i as int));
        if !cached[i] {
            out.push(i);
        }
        i = i + 1;
    }
    assert(cached@.take(i as int) =~= cached@);
    out
}

} // verus!
