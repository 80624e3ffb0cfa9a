//! The runtimes `mterm` knows: name, binaries tried in order, version flag,
//! and whether the runtime is optional.

use vstd::prelude::*;
use crate::render::eq_chars;
use crate::text::chars_of;

verus! {

#[derive(Clone, Copy)]
pub struct Runtime {
    pub name: &'static str,
    /// Binaries tried in order (fallbacks).
    pub bins: &'static [&'static str],
    pub version_flag: &'static str,
    /// True = not required (shown for information only).
    pub optional: bool,
}

/// Model of a runtime entry.
pub struct RuntimeView {
    pub name: Seq<char>,
    pub bins: Seq<Seq<char>>,
    pub version_flag: Seq<char>,
    pub optional: bool,
}

pub open spec fn runtime_view(r: Runtime) -> RuntimeView {
    RuntimeView {
        name: r.name@,
        bins: Seq::new(r.bins@.len(), |i: int| r.bins@[i]@),
        version_flag: r.version_flag@,
        optional: r.optional,
    }
}

pub open spec fn entry(name: Seq<char>, bins: Seq<Seq<char>>, flag: Seq<char>, optional: bool) -> RuntimeView {
    RuntimeView { name, bins, version_flag: flag, optional }
}

/// The table, in the order `doctor` shows it.
pub open spec fn runtime_table() -> Seq<RuntimeView> {
    seq![
        entry("git"@, seq!["git"@], "--version"@, false),
        entry("node"@, seq!["node"@], "--version"@, false),
        entry("npm"@, seq!["npm"@], "--version"@, false),
        entry("ripgrep"@, seq!["rg"@], "--version"@, false),
        entry("python"@, seq!["python3"@, "python"@], "--version"@, false),
        entry("go"@, seq!["go"@], "version"@, false),
        entry("bun"@, seq!["bun"@], "--version"@, true),
        entry("fzf"@, seq!["fzf"@], "--version"@, true),
    ]
}

fn rt(name: &'static str, bins: &'static [&'static str], flag: &'static str, optional: bool) -> (r: Runtime)
    ensures
        r == (Runtime { name, bins, version_flag: flag, optional }),
{
    Runtime { name, bins, version_flag: flag, optional }
}

/// The known runtimes (see [`runtime_table`]).
pub fn runtimes() -> (v: Vec<Runtime>)
    ensures
        v@.len() == runtime_table().len(),
        forall|i: int| 0 <= i < v@.len() ==> runtime_view(#[trigger] v@[i]) == runtime_table()[i],
{
    let mut v: Vec<Runtime> = Vec::new();
    v.push(rt("git", &["git"], "--version", false));
    v.push(rt("node", &["node"], "--version", false));
    v.push(rt("npm", &["npm"], "--version", false));
    v.push(rt("ripgrep", &["rg"], "--version", false));
    v.push(rt("python", &["python3", "python"], "--version", false));
    v.push(rt("go", &["go"], "version", false));
    v.push(rt("bun", &["bun"], "--version", true));
    v.push(rt("fzf", &["fzf"], "--version", true));
    proof {
        assert forall|i: int| 0 <= i < v@.len() implies runtime_view(#[trigger] v@[i])
            == runtime_table()[i] by {
            assert(runtime_view(v@[i]).bins =~= runtime_table()[i].bins);
        }
    }
    v
}

/// Index of the first entry named `name`, or -1.
pub open spec fn table_index(name: Seq<char>, i: int) -> int
    decreases runtime_table().len() - i,
{
    if i < 0 || i >= runtime_table().len() {
        -1
    } else if runtime_table()[i].name == name {
        i
    } else {
        table_index(name, i + 1)
    }
}

/// The runtime named `name`.
pub fn runtime_for(name: &str) -> (r: Option<Runtime>)
    ensures
        match r {
            Some(rt) => table_index(name@, 0) >= 0 && runtime_view(rt) == runtime_table()[table_index(
                name@,
                0,
            )],
            None => table_index(name@, 0) < 0,
        },
{
    let all = runtimes();
    let want = chars_of(name);
    let mut i: usize = 0;
    while i < all.len()
        invariant
            all@.len() == runtime_table().len(),
            forall|j: int| 0 <= j < all@.len() ==> runtime_view(#[trigger] all@[j]) == runtime_table()[j],
            i <= all@.len(),
            want@ == name@,
            table_index(name@, i as int) == table_index(name@, 0),
        decreases all@.len() - i,
    {
        let n = chars_of(all[i].name);
        assert(runtime_view(all@[i as int]).name == n@);
        if eq_chars(n.as_slice(), want.as_slice()) {
            return Some(all[i]);
        }
        i = i + 1;
    }
    None
}

} // verus!
