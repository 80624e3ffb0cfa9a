//! Pure parts of `mterm tool`: reading the Termux package index and
//! building repository URLs.

use vstd::prelude::*;
use crate::render::{
    copy_range, eq_chars, lines_of, next_line, skip_vec, starts, starts_with, trim, trim_vec,
};
use crate::text::{chars_of, string_of};

verus! {

/// The Termux repository the tools come from.
pub const REPO: &'static str = "https://packages.termux.dev/apt/termux-main";

/// Architecture of the packages.
pub const ARCH: &'static str = "aarch64";

/// `hay` contains `needle` (an empty needle is everywhere).
pub open spec fn contains(hay: Seq<char>, needle: Seq<char>) -> bool {
    exists|i: int| 0 <= i && i + needle.len() <= hay.len() && #[trigger] hay.subrange(i, i + needle.len()) == needle
}

/// Fields of the package being read.
pub struct IdxState {
    pub cur: Option<Seq<char>>,
    pub ver: Option<Seq<char>>,
    pub file: Option<Seq<char>>,
    pub sha: Option<Seq<char>>,
}

/// The package read so far is `name` with all three fields, and its version
/// passes the filter.
pub open spec fn idx_hit(st: IdxState, name: Seq<char>, vf: Option<Seq<char>>) -> bool {
    &&& st.cur == Some(name)
    &&& st.ver is Some
    &&& st.file is Some
    &&& st.sha is Some
    &&& match vf {
        None => true,
        Some(f) => contains(st.ver->0, f),
    }
}

pub open spec fn idx_result(st: IdxState) -> (Seq<char>, Seq<char>, Seq<char>) {
    (st.ver->0, st.file->0, st.sha->0)
}

pub open spec fn pkg_tag() -> Seq<char> {
    seq!['P', 'a', 'c', 'k', 'a', 'g', 'e', ':']
}

pub open spec fn ver_tag() -> Seq<char> {
    seq!['V', 'e', 'r', 's', 'i', 'o', 'n', ':']
}

pub open spec fn file_tag() -> Seq<char> {
    seq!['F', 'i', 'l', 'e', 'n', 'a', 'm', 'e', ':']
}

pub open spec fn sha_tag() -> Seq<char> {
    seq!['S', 'H', 'A', '2', '5', '6', ':']
}

/// Reading index lines from state `st`: the first package record named
/// `name` whose `Version`, `Filename` and `SHA256` are all present and whose
/// version passes the filter, checked at the next `Package:`, at a blank
/// line, and at the end.
pub open spec fn idx_run(
    st: IdxState,
    lines: Seq<Seq<char>>,
    name: Seq<char>,
    vf: Option<Seq<char>>,
) -> Option<(Seq<char>, Seq<char>, Seq<char>)>
    decreases lines.len(),
{
    if lines.len() == 0 {
        if idx_hit(st, name, vf) {
            Some(idx_result(st))
        } else {
            None
        }
    } else {
        let line = lines[0];
        let rest = lines.drop_first();
        let ours = st.cur == Some(name);
        if starts(line, pkg_tag()) {
            if idx_hit(st, name, vf) {
                Some(idx_result(st))
            } else {
                idx_run(
                    IdxState { cur: Some(trim(line.skip(8))), ver: None, file: None, sha: None },
                    rest,
                    name,
                    vf,
                )
            }
        } else if starts(line, ver_tag()) {
            idx_run(
                if ours {
                    IdxState { ver: Some(trim(line.skip(8))), ..st }
                } else {
                    st
                },
                rest,
                name,
                vf,
            )
        } else if starts(line, file_tag()) {
            idx_run(
                if ours {
                    IdxState { file: Some(trim(line.skip(9))), ..st }
                } else {
                    st
                },
                rest,
                name,
                vf,
            )
        } else if starts(line, sha_tag()) {
            idx_run(
                if ours {
                    IdxState { sha: Some(trim(line.skip(7))), ..st }
                } else {
                    st
                },
                rest,
                name,
                vf,
            )
        } else if line.len() == 0 && idx_hit(st, name, vf) {
            Some(idx_result(st))
        } else {
            idx_run(st, rest, name, vf)
        }
    }
}

pub open spec fn idx_spec(index: Seq<char>, name: Seq<char>, vf: Option<Seq<char>>) -> Option<
    (Seq<char>, Seq<char>, Seq<char>),
> {
    idx_run(IdxState { cur: None, ver: None, file: None, sha: None }, lines_of(index), name, vf)
}

fn matches_at(hay: &[char], i: usize, needle: &[char]) -> (r: bool)
    requires
        i + needle@.len() <= hay@.len(),
    ensures
        r == (hay@.subrange(i as int, i + needle@.len()) == needle@),
{
    let mut k: usize = 0;
    let mut p: usize = i;
    while k < needle.len()
        invariant
            i + needle@.len() <= hay@.len(),
            k <= needle@.len(),
            p == i + k,
            forall|j: int| 0 <= j < k ==> hay@[i + j] == needle@[j],
        decreases needle@.len() - k,
    {
        if hay[p] != needle[k] {
            assert(hay@.subrange(i as int, i + needle@.len())[k as int] != needle@[k as int]);
            return false;
        }
        k = k + 1;
        p = p + 1;
    }
    assert(hay@.subrange(i as int, i + needle@.len()) =~= needle@);
    true
}

/// Whether `needle` occurs in `hay`.
pub(crate) fn contains_chars(hay: &[char], needle: &[char]) -> (r: bool)
    ensures
        r == contains(hay@, needle@),
{
    if needle.len() > hay.len() {
        return false;
    }
    let last = hay.len() - needle.len();
    let mut i: usize = 0;
    loop
        invariant
            last == hay@.len() - needle@.len(),
            i <= last,
            forall|j: int| 0 <= j < i ==> #[trigger] hay@.subrange(j, j + needle@.len()) != needle@,
        decreases last - i,
    {
        if matches_at(hay, i, needle) {
            return true;
        }
        if i == last {
            return false;
        }
        i = i + 1;
    }
}

pub open spec fn opt_view(o: Option<Vec<char>>) -> Option<Seq<char>> {
    match o {
        Some(v) => Some(v@),
        None => None,
    }
}

fn opt_copy(o: &Option<Vec<char>>) -> (r: Vec<char>)
    requires
        o is Some,
    ensures
        r@ == o->0@,
{
    match o {
        Some(v) => copy_range(v.as_slice(), 0, v.len()),
        None => Vec::new(),
    }
}

fn is_name(cur: &Option<Vec<char>>, name: &[char]) -> (r: bool)
    ensures
        r == (opt_view(*cur) == Some(name@)),
{
    match cur {
        Some(c) => eq_chars(c.as_slice(), name),
        None => false,
    }
}

/// The line's value after a tag of `k` characters, trimmed.
fn value_after(line: &[char], k: usize) -> (r: Vec<char>)
    requires
        k <= line@.len(),
    ensures
        r@ == trim(line@.skip(k as int)),
{
    trim_vec(skip_vec(line, k).as_slice())
}

fn hit(
    cur: &Option<Vec<char>>,
    ver: &Option<Vec<char>>,
    file: &Option<Vec<char>>,
    sha: &Option<Vec<char>>,
    name: &[char],
    vf: &Option<Vec<char>>,
) -> (r: bool)
    ensures
        r == idx_hit(
            IdxState {
                cur: opt_view(*cur),
                ver: opt_view(*ver),
                file: opt_view(*file),
                sha: opt_view(*sha),
            },
            name@,
            opt_view(*vf),
        ),
{
    if !is_name(cur, name) || ver.is_none() || file.is_none() || sha.is_none() {
        return false;
    }
    match vf {
        None => true,
        Some(f) => {
            let v = opt_copy(ver);
            contains_chars(v.as_slice(), f.as_slice())
        },
    }
}

/// The `(Version, Filename, SHA256)` of the first complete record of
/// package `pkg_name` in a `Packages` index whose version contains
/// `version_filter` (when given); records higher in the index are newer.
pub fn parse_pkg_index(pkg_index: &str, pkg_name: &str, version_filter: Option<&str>) -> (r: Option<
    (String, String, String),
>)
    ensures
        r is Some <==> idx_spec(pkg_index@, pkg_name@, opt_str(version_filter)) is Some,
        r is Some ==> ({
            let e = idx_spec(pkg_index@, pkg_name@, opt_str(version_filter))->0;
            (r->0).0@ == e.0 && (r->0).1@ == e.1 && (r->0).2@ == e.2
        }),
{
    let s = chars_of(pkg_index);
    let name = chars_of(pkg_name);
    let vf: Option<Vec<char>> = match version_filter {
        Some(f) => Some(chars_of(f)),
        None => None,
    };
    let ghost vfv = opt_str(version_filter);
    assert(opt_view(vf) == vfv);

    let pkg: [char; 8] = ['P', 'a', 'c', 'k', 'a', 'g', 'e', ':'];
    let vt: [char; 8] = ['V', 'e', 'r', 's', 'i', 'o', 'n', ':'];
    let ft: [char; 9] = ['F', 'i', 'l', 'e', 'n', 'a', 'm', 'e', ':'];
    let st: [char; 7] = ['S', 'H', 'A', '2', '5', '6', ':'];
    assert(pkg@ =~= pkg_tag());
    assert(vt@ =~= ver_tag());
    assert(ft@ =~= file_tag());
    assert(st@ =~= sha_tag());
    let mut cur: Option<Vec<char>> = None;
    let mut ver: Option<Vec<char>> = None;
    let mut file: Option<Vec<char>> = None;
    let mut sha: Option<Vec<char>> = None;
    let n = s.len();
    let mut start: usize = 0;
    assert(s@.skip(0) =~= s@);
    while start < n
        invariant
            n == s@.len(),
            start <= n,
            s@ == pkg_index@,
            name@ == pkg_name@,
            opt_view(vf) == vfv,
            vfv == opt_str(version_filter),
            pkg@ == pkg_tag(),
            vt@ == ver_tag(),
            ft@ == file_tag(),
            st@ == sha_tag(),
            idx_run(
                IdxState {
                    cur: opt_view(cur),
                    ver: opt_view(ver),
                    file: opt_view(file),
                    sha: opt_view(sha),
                },
                lines_of(s@.skip(start as int)),
                name@,
                vfv,
            ) == idx_spec(pkg_index@, pkg_name@, vfv),
        decreases n - start,
    {
        let (line, next) = next_line(s.as_slice(), start);
        let ghost stv = IdxState {
            cur: opt_view(cur),
            ver: opt_view(ver),
            file: opt_view(file),
            sha: opt_view(sha),
        };
        let ghost ls = seq![line@] + lines_of(s@.skip(next as int));
        assert(ls.drop_first() =~= lines_of(s@.skip(next as int)));
        assert(ls[0] == line@);
        assert(ls.len() > 0);
        let ours = is_name(&cur, name.as_slice());
        if starts_with(line.as_slice(), &pkg) {
            if hit(&cur, &ver, &file, &sha, name.as_slice(), &vf) {
                assert(idx_spec(pkg_index@, pkg_name@, vfv) == Some(idx_result(stv)));
                let res = found(&ver, &file, &sha);
                assert(res.0@ == idx_result(stv).0 && res.1@ == idx_result(stv).1 && res.2@
                    == idx_result(stv).2);

                return Some(res);
            }
            cur = Some(value_after(line.as_slice(), 8));
            ver = None;
            file = None;
            sha = None;
        } else if starts_with(line.as_slice(), &vt) {
            if ours {
                ver = Some(value_after(line.as_slice(), 8));
            }
        } else if starts_with(line.as_slice(), &ft) {
            if ours {
                file = Some(value_after(line.as_slice(), 9));
            }
        } else if starts_with(line.as_slice(), &st) {
            if ours {
                sha = Some(value_after(line.as_slice(), 7));
            }
        } else if line.len() == 0 && hit(&cur, &ver, &file, &sha, name.as_slice(), &vf) {
            assert(idx_spec(pkg_index@, pkg_name@, vfv) == Some(idx_result(stv)));
            return Some(found(&ver, &file, &sha));
        }
        start = next;
    }
    assert(lines_of(s@.skip(start as int)) =~= Seq::<Seq<char>>::empty()) by {
        assert(s@.skip(start as int) =~= Seq::<char>::empty());
    }
    if hit(&cur, &ver, &file, &sha, name.as_slice(), &vf) {
        return Some(found(&ver, &file, &sha));
    }
    None
}

fn found(ver: &Option<Vec<char>>, file: &Option<Vec<char>>, sha: &Option<Vec<char>>) -> (r: (
    String,
    String,
    String,
))
    requires
        ver is Some,
        file is Some,
        sha is Some,
    ensures
        r.0@ == ver->0@,
        r.1@ == file->0@,
        r.2@ == sha->0@,
{
    (
        string_of(opt_copy(ver).as_slice()),
        string_of(opt_copy(file).as_slice()),
        string_of(opt_copy(sha).as_slice()),
    )
}

pub open spec fn opt_str(o: Option<&str>) -> Option<Seq<char>> {
    match o {
        Some(s) => Some(s@),
        None => None,
    }
}

/// URL of a package file of the repository.
pub fn deb_url(filename: &str) -> (r: String)
    ensures
        r@ == REPO@ + seq!['/'] + filename@,
{
    let mut v = chars_of(REPO);
    v.push('/');
    let f = chars_of(filename);
    crate::render::push_all(&mut v, f.as_slice());
    string_of(v.as_slice())
}

/// URL of the repository's (gzip) package index for [`ARCH`].
pub fn packages_index_url() -> (r: String)
    ensures
        r@ == REPO@ + "/dists/stable/main/binary-"@ + ARCH@ + "/Packages.gz"@,
{
    let mut v = chars_of(REPO);
    let a = chars_of("/dists/stable/main/binary-");
    crate::render::push_all(&mut v, a.as_slice());
    let b = chars_of(ARCH);
    crate::render::push_all(&mut v, b.as_slice());
    let c = chars_of("/Packages.gz");
    crate::render::push_all(&mut v, c.as_slice());
    string_of(v.as_slice())
}

pub open spec fn strings_view(v: Seq<String>) -> Seq<Seq<char>> {
    Seq::new(v.len(), |i: int| v[i]@)
}

/// The argument after the first `--version` (that has one after it).
pub open spec fn version_arg(args: Seq<Seq<char>>, i: int) -> Option<Seq<char>>
    decreases args.len() - i,
{
    if i < 0 || i + 1 >= args.len() {
        None
    } else if args[i] == "--version"@ {
        Some(args[i + 1])
    } else {
        version_arg(args, i + 1)
    }
}

pub open spec fn opt_string(o: Option<String>) -> Option<Seq<char>> {
    match o {
        Some(s) => Some(s@),
        None => None,
    }
}

/// The node version asked for: `--version <v>` in `args`, else `env` (the
/// `MTERM_NODE_VERSION` variable), else `marker` (the cached version).
pub open spec fn version_choice(
    args: Seq<Seq<char>>,
    env: Option<Seq<char>>,
    marker: Option<Seq<char>>,
) -> Option<Seq<char>> {
    match version_arg(args, 0) {
        Some(v) => Some(v),
        None => match env {
            Some(e) => Some(e),
            None => marker,
        },
    }
}

/// The node version asked for (see [`version_choice`]); the caller reads the
/// environment variable and the cache marker.
pub fn node_version_from_args(args: &[String], env: Option<String>, marker: Option<String>) -> (r:
    Option<String>)
    ensures
        opt_string(r) == version_choice(strings_view(args@), opt_string(env), opt_string(marker)),
{
    let ghost av = strings_view(args@);
    let flag = chars_of("--version");
    let mut i: usize = 0;
    while i < args.len() && args.len() - i > 1
        invariant
            av == strings_view(args@),
            flag@ == "--version"@,
            version_arg(av, i as int) == version_arg(av, 0),
        decreases args@.len() - i,
    {
        let a = chars_of(args[i].as_str());
        if eq_chars(a.as_slice(), flag.as_slice()) {
            return Some(args[i + 1].clone());
        }
        i = i + 1;
    }
    match env {
        Some(e) => Some(e),
        None => marker,
    }
}

/// `(version, filename, sha256)` of `nodejs` in the index, for the version
/// asked for (see [`node_version_from_args`]).
pub fn resolve_node_info(index_text: &str, args: &[String], env: Option<String>, marker: Option<
    String,
>) -> (r: Option<(String, String, String)>)
    ensures
        ({
            let vf = version_choice(strings_view(args@), opt_string(env), opt_string(marker));
            &&& r is Some <==> idx_spec(index_text@, "nodejs"@, vf) is Some
            &&& r is Some ==> ({
                let e = idx_spec(index_text@, "nodejs"@, vf)->0;
                (r->0).0@ == e.0 && (r->0).1@ == e.1 && (r->0).2@ == e.2
            })
        }),
{
    let vf = node_version_from_args(args, env, marker);
    match vf {
        Some(v) => parse_pkg_index(index_text, "nodejs", Some(v.as_str())),
        None => parse_pkg_index(index_text, "nodejs", None),
    }
}

} // verus!
