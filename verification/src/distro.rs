//! Pure parts of `mterm distro`: picking the newest Ubuntu base image for
//! an architecture from a directory listing.

use vstd::prelude::*;
use crate::text::{
    chars_of, lossy_utf8_bytes, parse_u32, parse_u32_bytes, split_bytes, split_on, text, utf8_lossy, views,
};
use crate::render::{is_ws, lines_of, trim_end, trim_start};
use crate::tool::strings_view;

verus! {

/// The architecture's name in distribution file names, from Rust's name
/// for it (`std::env::consts::ARCH`): `aarch64` is `arm64`, `x86_64` is
/// `amd64`, any other name stays as it is.
pub open spec fn arch_tag_spec(arch: Seq<char>) -> Seq<char> {
    if arch == "aarch64"@ {
        "arm64"@
    } else if arch == "x86_64"@ {
        "amd64"@
    } else {
        arch
    }
}

pub fn arch_tag(arch: &str) -> (r: String)
    ensures
        r@ == arch_tag_spec(arch@),
{
    let a = crate::text::chars_of(arch);
    if crate::render::eq_chars(a.as_slice(), crate::text::chars_of("aarch64").as_slice()) {
        crate::text::string_of(crate::text::chars_of("arm64").as_slice())
    } else if crate::render::eq_chars(a.as_slice(), crate::text::chars_of("x86_64").as_slice()) {
        crate::text::string_of(crate::text::chars_of("amd64").as_slice())
    } else {
        crate::text::string_of(a.as_slice())
    }
}

/// `pat` occurs in `s` at index `i`.
pub open spec fn occurs_at(s: Seq<u8>, pat: Seq<u8>, i: int) -> bool {
    0 <= i && i + pat.len() <= s.len() && s.subrange(i, i + pat.len()) == pat
}

/// First index `j >= i` where the non-empty `pat` occurs, or -1.
pub open spec fn find_pat(s: Seq<u8>, pat: Seq<u8>, i: int) -> int
    decreases s.len() - i,
{
    if i < 0 || i >= s.len() || i + pat.len() > s.len() {
        -1
    } else if occurs_at(s, pat, i) {
        i
    } else {
        find_pat(s, pat, i + 1)
    }
}

/// The pieces of `s` between occurrences of the non-empty `pat` (as
/// `str::split` with a string pattern).
pub open spec fn split_pat(s: Seq<u8>, pat: Seq<u8>) -> Seq<Seq<u8>>
    decreases s.len(),
{
    let i = find_pat(s, pat, 0);
    if pat.len() == 0 || i < 0 || i + pat.len() > s.len() {
        seq![s]
    } else {
        seq![s.take(i)] + split_pat(s.skip(i + pat.len()), pat)
    }
}

/// `s` up to the first occurrence of `pat` (all of `s` without one).
pub open spec fn before(s: Seq<u8>, pat: Seq<u8>) -> Seq<u8> {
    split_pat(s, pat)[0]
}

pub open spec fn ends_with(s: Seq<u8>, suf: Seq<u8>) -> bool {
    suf.len() <= s.len() && s.skip(s.len() - suf.len()) == suf
}

/// `"ubuntu-base-"`
pub open spec fn base_prefix() -> Seq<u8> {
    seq![117u8, 98, 117, 110, 116, 117, 45, 98, 97, 115, 101, 45]
}

/// `"-base-"`
pub open spec fn base_mid() -> Seq<u8> {
    seq![45u8, 98, 97, 115, 101, 45]
}

/// `".tar.gz"`
pub open spec fn tar_gz() -> Seq<u8> {
    seq![46u8, 116, 97, 114, 46, 103, 122]
}

/// The version a listing entry (text after `ubuntu-base-`) names for `arch`:
/// `X.Y.Z` (three numbers) before `-base-`, the file being
/// `…-base-<arch>.tar.gz`.
pub open spec fn entry_version(piece: Seq<u8>, arch: Seq<u8>) -> Option<(u32, u32, u32)> {
    let raw = before(piece, base_mid());
    let ver = split_on(raw, 46);
    if ver.len() != 3 {
        None
    } else {
        match (parse_u32(ver[0]), parse_u32(ver[1]), parse_u32(ver[2])) {
            (Some(a), Some(b), Some(c)) => if ends_with(before(piece, tar_gz()), base_mid() + arch) {
                Some((a, b, c))
            } else {
                None
            },
            _ => None,
        }
    }
}

pub open spec fn version_gt(a: (u32, u32, u32), b: (u32, u32, u32)) -> bool {
    a.0 > b.0 || (a.0 == b.0 && (a.1 > b.1 || (a.1 == b.1 && a.2 > b.2)))
}

/// The newest version among `pieces` (and its raw text), the first one
/// winning ties.
pub open spec fn best_of(pieces: Seq<Seq<u8>>, arch: Seq<u8>) -> Option<((u32, u32, u32), Seq<u8>)>
    decreases pieces.len(),
{
    if pieces.len() == 0 {
        None
    } else {
        let prev = best_of(pieces.drop_last(), arch);
        let p = pieces.last();
        match entry_version(p, arch) {
            Some(v) => match prev {
                Some((b, r)) => if version_gt(v, b) {
                    Some((v, before(p, base_mid())))
                } else {
                    prev
                },
                None => Some((v, before(p, base_mid()))),
            },
            None => prev,
        }
    }
}

/// The newest `ubuntu-base-X.Y.Z-base-<arch>.tar.gz` of a listing (its
/// bytes read as lossy UTF-8): the version, its raw text and the file name.
pub open spec fn latest_spec(listing: Seq<u8>, arch: Seq<u8>) -> Option<((u32, u32, u32), Seq<u8>, Seq<u8>)> {
    match best_of(split_pat(utf8_lossy(listing), base_prefix()).drop_first(), arch) {
        Some((v, raw)) => Some((v, raw, base_prefix() + raw + base_mid() + arch + tar_gz())),
        None => None,
    }
}

fn occurs(s: &[u8], pat: &[u8], i: usize) -> (r: bool)
    requires
        i + pat@.len() <= s@.len(),
    ensures
        r == occurs_at(s@, pat@, i as int),
{
    let mut k: usize = 0;
    let mut p: usize = i;
    while k < pat.len()
        invariant
            i + pat@.len() <= s@.len(),
            k <= pat@.len(),
            p == i + k,
            forall|j: int| 0 <= j < k ==> s@[i + j] == pat@[j],
        decreases pat@.len() - k,
    {
        if s[p] != pat[k] {
            assert(s@.subrange(i as int, i + pat@.len())[k as int] != pat@[k as int]);
            return false;
        }
        k = k + 1;
        p = p + 1;
    }
    assert(s@.subrange(i as int, i + pat@.len()) =~= pat@);
    true
}

fn find_pat_from(s: &[u8], pat: &[u8], i: usize) -> (r: Option<usize>)
    ensures
        r == (if find_pat(s@, pat@, i as int) < 0 {
            None
        } else {
            Some(find_pat(s@, pat@, i as int) as usize)
        }),
        r matches Some(j) ==> j as int == find_pat(s@, pat@, i as int) && i <= j && j + pat@.len()
            <= s@.len(),
{
    let mut k = i;
    while k < s.len() && pat.len() <= s.len() - k
        invariant
            i <= k,
            find_pat(s@, pat@, k as int) == find_pat(s@, pat@, i as int),
        decreases s@.len() - k,
    {
        if occurs(s, pat, k) {
            return Some(k);
        }
        k = k + 1;
    }
    None
}

proof fn lemma_find_pat_skip(s: Seq<u8>, pat: Seq<u8>, k: int, i: int)
    requires
        0 <= k <= i,
        k <= s.len(),
    ensures
        find_pat(s.skip(k), pat, i - k) == (if find_pat(s, pat, i) < 0 {
            -1
        } else {
            find_pat(s, pat, i) - k
        }),
    decreases s.len() - i,
{
    if i < s.len() && i + pat.len() <= s.len() {
        assert(s.skip(k).subrange(i - k, i - k + pat.len()) =~= s.subrange(i, i + pat.len()));
        lemma_find_pat_skip(s, pat, k, i + 1);
    }
}

proof fn lemma_find_pat_range(s: Seq<u8>, pat: Seq<u8>, i: int)
    requires
        0 <= i,
    ensures
        find_pat(s, pat, i) == -1 || (i <= find_pat(s, pat, i) && find_pat(s, pat, i) + pat.len()
            <= s.len()),
    decreases s.len() - i,
{
    if i < s.len() && i + pat.len() <= s.len() && !occurs_at(s, pat, i) {
        lemma_find_pat_range(s, pat, i + 1);
    }
}

/// Split `s` at each occurrence of the non-empty `pat`.
fn split_pat_bytes(s: &[u8], pat: &[u8]) -> (parts: Vec<Vec<u8>>)
    requires
        pat@.len() > 0,
    ensures
        views(parts@) == split_pat(s@, pat@),
{
    let mut parts: Vec<Vec<u8>> = Vec::new();
    let mut start: usize = 0;
    let n = s.len();
    assert(s@.skip(0) =~= s@);
    assert(views(parts@) =~= Seq::<Seq<u8>>::empty());
    loop
        invariant
            n == s@.len(),
            start <= s@.len(),
            pat@.len() > 0,
            views(parts@) + split_pat(s@.skip(start as int), pat@) == split_pat(s@, pat@),
        decreases s@.len() - start,
    {
        let ghost rest = s@.skip(start as int);
        proof {
            lemma_find_pat_skip(s@, pat@, start as int, start as int);
            lemma_find_pat_range(s@, pat@, start as int);
        }
        match find_pat_from(s, pat, start) {
            Some(i) => {
                let piece = crate::text::slice_range_vec(s, start, i);
                assert(piece@ =~= rest.take(i - start));
                assert(rest.skip(i - start + pat@.len()) =~= s@.skip(i + pat@.len()));
                let ghost old_parts = views(parts@);
                parts.push(piece);
                assert(views(parts@) =~= old_parts.push(piece@));
                assert(views(parts@) + split_pat(s@.skip(i + pat@.len()), pat@) =~= old_parts
                    + split_pat(rest, pat@));
                start = i + pat.len();
            },
            None => {
                let piece = crate::text::slice_range_vec(s, start, s.len());
                assert(piece@ =~= rest);
                let ghost old_parts = views(parts@);
                parts.push(piece);
                assert(views(parts@) =~= old_parts.push(piece@));
                assert(views(parts@) =~= old_parts + split_pat(rest, pat@));
                return parts;
            },
        }
    }
}

/// `s` up to the first occurrence of the non-empty `pat`.
fn before_bytes(s: &[u8], pat: &[u8]) -> (r: Vec<u8>)
    requires
        pat@.len() > 0,
    ensures
        r@ == before(s@, pat@),
{
    proof {
        lemma_find_pat_range(s@, pat@, 0);
    }
    match find_pat_from(s, pat, 0) {
        Some(i) => {
            let r = crate::text::slice_range_vec(s, 0, i);
            assert(r@ =~= s@.take(i as int));
            r
        },
        None => crate::text::slice_range_vec(s, 0, s.len()),
    }
}

fn ends_with_bytes(s: &[u8], suf: &[u8]) -> (r: bool)
    ensures
        r == ends_with(s@, suf@),
{
    if suf.len() > s.len() {
        return false;
    }
    let n = s.len();
    let off = n - suf.len();
    let mut k: usize = 0;
    while k < suf.len()
        invariant
            n == s@.len(),
            off + suf@.len() == s@.len(),
            k <= suf@.len(),
            forall|j: int| 0 <= j < k ==> s@[off + j] == suf@[j],
        decreases suf@.len() - k,
    {
        if s[off + k] != suf[k] {
            assert(s@.skip(off as int)[k as int] != suf@[k as int]);
            return false;
        }
        k = k + 1;
    }
    assert(s@.skip(off as int) =~= suf@);
    true
}

fn entry_version_of(piece: &[u8], arch: &[u8], mid: &[u8], tgz: &[u8], tail: &[u8]) -> (r: Option<
    (u32, u32, u32),
>)
    requires
        mid@ == base_mid(),
        tgz@ == tar_gz(),
        tail@ == base_mid() + arch@,
    ensures
        r == entry_version(piece@, arch@),
{
    let raw = before_bytes(piece, mid);
    let ver = split_bytes(raw.as_slice(), 46);
    if ver.len() != 3 {
        return None;
    }
    assert(views(ver@)[0] == ver@[0]@ && views(ver@)[1] == ver@[1]@ && views(ver@)[2] == ver@[2]@);
    let a = parse_u32_bytes(ver[0].as_slice());
    let b = parse_u32_bytes(ver[1].as_slice());
    let c = parse_u32_bytes(ver[2].as_slice());
    match (a, b, c) {
        (Some(a), Some(b), Some(c)) => {
            let rest = before_bytes(piece, tgz);
            if ends_with_bytes(rest.as_slice(), tail) {
                Some((a, b, c))
            } else {
                None
            }
        },
        _ => None,
    }
}

fn gt(a: (u32, u32, u32), b: (u32, u32, u32)) -> (r: bool)
    ensures
        r == version_gt(a, b),
{
    a.0 > b.0 || (a.0 == b.0 && (a.1 > b.1 || (a.1 == b.1 && a.2 > b.2)))
}

/// The newest Ubuntu base image for `arch` in a directory listing (see
/// [`latest_spec`]): `(version, raw version text, file name)`.
pub fn latest_version(listing: &[u8], arch: &[u8]) -> (r: Option<((u32, u32, u32), Vec<u8>, Vec<u8>)>)
    ensures
        match r {
            Some((v, raw, file)) => latest_spec(listing@, arch@) == Some((v, raw@, file@)),
            None => latest_spec(listing@, arch@) is None,
        },
{
    let text = lossy_utf8_bytes(listing);
    let prefix: [u8; 12] = [117, 98, 117, 110, 116, 117, 45, 98, 97, 115, 101, 45];
    let mid: [u8; 6] = [45, 98, 97, 115, 101, 45];
    let tgz: [u8; 7] = [46, 116, 97, 114, 46, 103, 122];
    assert(prefix@ =~= base_prefix());
    assert(mid@ =~= base_mid());
    assert(tgz@ =~= tar_gz());
    let mut tail: Vec<u8> = crate::vt::to_vec(&mid);
    let mut a2 = crate::vt::to_vec(arch);
    tail.append(&mut a2);
    let parts = split_pat_bytes(text.as_slice(), &prefix);
    let ghost pieces = views(parts@).drop_first();
    let mut best: Option<((u32, u32, u32), Vec<u8>)> = None;
    let mut i: usize = 1;
    assert(pieces.take(0) =~= Seq::<Seq<u8>>::empty());
    while i < parts.len()
        invariant
            1 <= i <= parts@.len() || parts@.len() == 0,
            pieces == views(parts@).drop_first(),
            mid@ == base_mid(),
            tgz@ == tar_gz(),
            tail@ == base_mid() + arch@,
            match best {
                Some((v, raw)) => best_of(pieces.take(i - 1), arch@) == Some((v, raw@)),
                None => best_of(pieces.take(i - 1), arch@) is None,
            },
        decreases parts@.len() - i,
    {
        let p = parts[i].as_slice();
        assert(pieces[i - 1] == p@);
        assert(pieces.take(i as int).drop_last() =~= pieces.take(i - 1));
        match entry_version_of(p, arch, &mid, &tgz, tail.as_slice()) {
            Some(v) => {
                let better = match &best {
                    Some((b, _)) => gt(v, *b),
                    None => true,
                };
                if better {
                    let raw = before_bytes(p, &mid);
                    best = Some((v, raw));
                }
            },
            None => {},
        }
        i = i + 1;
    }
    proof {
        if parts@.len() > 0 {
            assert(pieces.take(i - 1) =~= pieces);
        }
    }
    match best {
        Some((v, raw)) => {
            let mut file: Vec<u8> = crate::vt::to_vec(&prefix);
            let mut r2 = crate::vt::to_vec(raw.as_slice());
            file.append(&mut r2);
            let mut m2 = crate::vt::to_vec(&mid);
            file.append(&mut m2);
            let mut a3 = crate::vt::to_vec(arch);
            file.append(&mut a3);
            let mut t2 = crate::vt::to_vec(&tgz);
            file.append(&mut t2);
            Some((v, raw, file))
        },
        None => None,
    }
}

/// `s` ends with `p`.
pub open spec fn ends_with_chars(s: Seq<char>, p: Seq<char>) -> bool {
    p.len() <= s.len() && s.skip(s.len() - p.len()) == p
}

/// End of the run of non-whitespace characters of `u` starting at `i`.
pub open spec fn word_end(u: Seq<char>, i: int) -> int
    decreases u.len() - i,
{
    if i < 0 || i >= u.len() || is_ws(u[i]) {
        i
    } else {
        word_end(u, i + 1)
    }
}

/// The first whitespace-separated word of `l` (`split_whitespace().next()`).
pub open spec fn first_word(l: Seq<char>) -> Option<Seq<char>> {
    let u = trim_start(l);
    if u.len() == 0 {
        None
    } else {
        Some(u.take(word_end(u, 0)))
    }
}

/// The digest a `SHA256SUMS` listing gives for `file`: the first word of
/// the first line that (without trailing whitespace) ends with the name.
pub open spec fn sums_entry(lines: Seq<Seq<char>>, file: Seq<char>) -> Option<Seq<char>>
    decreases lines.len(),
{
    if lines.len() == 0 {
        None
    } else if ends_with_chars(trim_end(lines[0]), file) {
        first_word(lines[0])
    } else {
        sums_entry(lines.drop_first(), file)
    }
}

fn ends_with_vec(s: &[char], p: &[char]) -> (b: bool)
    ensures
        b == ends_with_chars(s@, p@),
{
    if p.len() > s.len() {
        return false;
    }
    let tail = crate::render::skip_vec(s, s.len() - p.len());
    crate::render::eq_chars(tail.as_slice(), p)
}

fn first_word_vec(l: &[char]) -> (r: Option<Vec<char>>)
    ensures
        match r {
            Some(w) => first_word(l@) == Some(w@),
            None => first_word(l@) is None,
        },
{
    let u = crate::render::trim_start_vec(l);
    if u.len() == 0 {
        return None;
    }
    let mut i: usize = 0;
    while i < u.len() && !crate::render::ws(u[i])
        invariant
            i <= u@.len(),
            word_end(u@, i as int) == word_end(u@, 0),
        decreases u@.len() - i,
    {
        i = i + 1;
    }
    let w = crate::render::copy_range(u.as_slice(), 0, i);
    assert(w@ =~= u@.take(i as int));
    Some(w)
}

/// The SHA-256 (hex) that the `SHA256SUMS` text `sums` lists for `file`.
pub fn sha256sums_entry(sums: &str, file: &str) -> (r: Option<String>)
    ensures
        match r {
            Some(w) => sums_entry(lines_of(sums@), file@) == Some(w@),
            None => sums_entry(lines_of(sums@), file@) is None,
        },
{
    let s = crate::text::chars_of(sums);
    let f = crate::text::chars_of(file);
    let n = s.len();
    let mut start: usize = 0;
    assert(s@.skip(0) =~= s@);
    while start < n
        invariant
            n == s@.len(),
            start <= n,
            s@ == sums@,
            f@ == file@,
            sums_entry(lines_of(s@.skip(start as int)), f@) == sums_entry(lines_of(s@), f@),
        decreases n - start,
    {
        let (line, next) = crate::render::next_line(s.as_slice(), start);
        let ghost ls = lines_of(s@.skip(start as int));
        assert(ls[0] == line@);
        assert(ls.drop_first() =~= lines_of(s@.skip(next as int)));
        let t = crate::render::trim_end_vec(line.as_slice());
        if ends_with_vec(t.as_slice(), f.as_slice()) {
            return match first_word_vec(line.as_slice()) {
                Some(w) => Some(crate::text::string_of(w.as_slice())),
                None => None,
            };
        }
        start = next;
    }
    assert(s@.skip(start as int) =~= Seq::<char>::empty());
    None
}

/// The parts of a relative path that an archive entry may write to: its
/// components between `/`, without empty ones, `.` and `..`.
pub open spec fn kept_components(parts: Seq<Seq<u8>>) -> Seq<Seq<u8>>
    decreases parts.len(),
{
    if parts.len() == 0 {
        Seq::empty()
    } else {
        let rest = kept_components(parts.drop_last());
        let c = parts.last();
        if c.len() == 0 || c == seq![46u8] || c == seq![46u8, 46u8] {
            rest
        } else {
            rest.push(c)
        }
    }
}

/// An archive entry's path made safe to unpack under a directory: its
/// components, a leading `/` (an empty first component), `.` and `..`
/// dropped.
pub open spec fn sanitized_path(p: Seq<u8>) -> Seq<Seq<u8>> {
    kept_components(split_on(p, 47))
}

fn is_dot_part(c: &[u8]) -> (b: bool)
    ensures
        b == (c@.len() == 0 || c@ == seq![46u8] || c@ == seq![46u8, 46u8]),
{
    if c.len() == 0 {
        return true;
    }
    if c.len() == 1 {
        let b = c[0] == 46;
        assert(b ==> c@ =~= seq![46u8]);
        return b;
    }
    if c.len() == 2 {
        let b = c[0] == 46 && c[1] == 46;
        assert(b ==> c@ =~= seq![46u8, 46u8]);
        return b;
    }
    false
}

pub fn sanitize_path(p: &[u8]) -> (r: Vec<Vec<u8>>)
    ensures
        views(r@) == sanitized_path(p@),
{
    let parts = split_bytes(p, 47);
    let ghost pv = views(parts@);
    let mut out: Vec<Vec<u8>> = Vec::new();
    let mut i: usize = 0;
    while i < parts.len()
        invariant
            pv == views(parts@),
            pv == split_on(p@, 47),
            i <= parts@.len(),
            views(out@) == kept_components(pv.take(i as int)),
        decreases parts@.len() - i,
    {
        assert(pv.take(i + 1).drop_last() =~= pv.take(i as int));
        assert(pv.take(i + 1).last() == parts@[i as int]@);
        if !is_dot_part(parts[i].as_slice()) {
            let c = crate::vt::to_vec(parts[i].as_slice());
            let ghost before = views(out@);
            out.push(c);
            assert(views(out@) =~= before.push(pv[i as int]));
        }
        i = i + 1;
    }
    assert(pv.take(i as int) =~= pv);
    out
}

/// The arguments handed on to the guest's shell: all but the `--`
/// separators, in order.
pub open spec fn guest_args(args: Seq<Seq<char>>) -> Seq<Seq<char>>
    decreases args.len(),
{
    if args.len() == 0 {
        Seq::empty()
    } else if args.last() == "--"@ {
        guest_args(args.drop_last())
    } else {
        guest_args(args.drop_last()).push(args.last())
    }
}

/// The arguments of `proot` for a login into `rootfs`: fake root, the rootfs
/// as `/`, working directory `/`, `/dev`, `/proc` and `/sys` bound from the
/// host, hard links emulated by symlinks; then the guest's `loader` runs a
/// login shell with the guest arguments.
pub open spec fn login_argv(rootfs: Seq<char>, loader: Seq<char>, args: Seq<Seq<char>>) -> Seq<
    Seq<char>,
> {
    seq![
        "-0"@,
        "-r"@,
        rootfs,
        "-w"@,
        "/"@,
        "-b"@,
        "/dev"@,
        "-b"@,
        "/proc"@,
        "-b"@,
        "/sys"@,
        "--link2symlink"@,
        loader,
        "/bin/sh"@,
        "-l"@,
    ] + guest_args(args)
}

/// The argument list of `proot` for `distro login` (see [`login_argv`]).
pub fn proot_argv(rootfs: &str, loader: &str, args: &[String]) -> (r: Vec<String>)
    ensures
        strings_view(r@) == login_argv(rootfs@, loader@, strings_view(args@)),
{
    let mut r: Vec<String> = vec![
        text("-0"),
        text("-r"),
        text(rootfs),
        text("-w"),
        text("/"),
        text("-b"),
        text("/dev"),
        text("-b"),
        text("/proc"),
        text("-b"),
        text("/sys"),
        text("--link2symlink"),
        text(loader),
        text("/bin/sh"),
        text("-l"),
    ];
    let ghost head = strings_view(r@);
    let sep = chars_of("--");
    let mut i: usize = 0;
    while i < args.len()
        invariant
            i <= args@.len(),
            sep@ == "--"@,
            strings_view(r@) == head + guest_args(strings_view(args@.take(i as int))),
        decreases args@.len() - i,
    {
        let a = &args[i];
        let ghost prev = r@;
        assert(strings_view(args@.take(i + 1)).drop_last() =~= strings_view(args@.take(i as int)));
        assert(strings_view(args@.take(i + 1)).last() == a@);
        if !crate::render::eq_chars(chars_of(a.as_str()).as_slice(), sep.as_slice()) {
            r.push(a.clone());
            assert(strings_view(r@) =~= strings_view(prev).push(a@));
        }
        i = i + 1;
    }
    assert(args@.take(i as int) =~= args@);
    r
}

} // verus!
