//! The runtime profiles of `mterm profile`: the manifest's default set, the
//! upgrade of an older manifest, and the changes `use` and `add` make.

use vstd::prelude::*;
use crate::names::NameMap;
use crate::text::{chars_of, string_of, text};

verus! {

/// A profile: the runtimes it needs and its theme.
pub struct Profile {
    pub runtimes: Vec<String>,
    pub theme: Option<String>,
}

/// The manifest: the active profile's name and the profiles by name.
pub struct Profiles {
    pub current: Option<String>,
    pub available: NameMap<Profile>,
}

pub open spec fn profile_view(p: Profile) -> (Seq<Seq<char>>, Option<Seq<char>>) {
    (
        Seq::new(p.runtimes@.len(), |i: int| p.runtimes@[i]@),
        match p.theme {
            Some(t) => Some(t@),
            None => None,
        },
    )
}

/// A profile with the dark theme.
pub open spec fn dark(runtimes: Seq<Seq<char>>) -> (Seq<Seq<char>>, Option<Seq<char>>) {
    (runtimes, Some("dark"@))
}

pub open spec fn full_runtimes() -> Seq<Seq<char>> {
    seq!["python"@, "go"@, "git"@, "node"@]
}

fn dark_profile(runtimes: Vec<String>) -> (p: Profile)
    ensures
        profile_view(p) == dark(Seq::new(runtimes@.len(), |i: int| runtimes@[i]@)),
{
    Profile { runtimes, theme: Some(text("dark")) }
}

fn full_profile() -> (p: Profile)
    ensures
        profile_view(p) == dark(full_runtimes()),
{
    let v: Vec<String> = vec![text("python"), text("go"), text("git"), text("node")];
    let p = dark_profile(v);
    assert(profile_view(p).0 =~= full_runtimes());
    p
}

/// The manifest written on first use: `dev`, `web` and `full`, none active.
pub fn default_profiles() -> (r: Profiles)
    ensures
        r.available.wf(),
        r.current is None,
        r.available@.dom() == set!["dev"@, "web"@, "full"@],
        profile_view(r.available@["dev"@]) == dark(seq!["git"@, "node"@, "ripgrep"@]),
        profile_view(r.available@["web"@]) == dark(seq!["node"@, "npm"@]),
        profile_view(r.available@["full"@]) == dark(full_runtimes()),
{
    let mut m: NameMap<Profile> = NameMap::new();
    let dev = dark_profile(vec![text("git"), text("node"), text("ripgrep")]);
    assert(profile_view(dev).0 =~= seq!["git"@, "node"@, "ripgrep"@]);
    m.insert(text("dev"), dev);
    let web = dark_profile(vec![text("node"), text("npm")]);
    assert(profile_view(web).0 =~= seq!["node"@, "npm"@]);
    m.insert(text("web"), web);
    m.insert(text("full"), full_profile());
    proof {
        reveal_strlit("dev");
        reveal_strlit("web");
        reveal_strlit("full");
        assert("dev"@[0] != "full"@[0]);
        assert("web"@[0] != "full"@[0]);
        assert("dev"@[0] != "web"@[0]);
    }
    assert(m@.dom() =~= set!["dev"@, "web"@, "full"@]);
    Profiles { current: None, available: m }
}

/// Upgrade a manifest made before `full` existed: add `full` when it is
/// missing; whether it was added (the manifest then needs saving).
pub fn ensure_full(p: &mut Profiles) -> (added: bool)
    requires
        old(p).available.wf(),
    ensures
        final(p).available.wf(),
        final(p).current == old(p).current,
        added == !old(p).available@.contains_key("full"@),
        !added ==> final(p).available@ == old(p).available@,
        added ==> final(p).available@.dom() == old(p).available@.dom().insert("full"@),
        added ==> forall|k: Seq<char>| k != "full"@ && #[trigger] old(p).available@.contains_key(k)
            ==> final(p).available@[k] == old(p).available@[k],
        added ==> profile_view(final(p).available@["full"@]) == dark(full_runtimes()),
{
    if p.available.contains("full") {
        return false;
    }
    p.available.insert(text("full"), full_profile());
    assert(p.available@.dom() =~= old(p).available@.dom().insert("full"@));
    true
}

/// `profile use <name>`: make `name` the active profile; false (nothing
/// changed) when there is no such profile.
pub fn select(p: &mut Profiles, name: &str) -> (ok: bool)
    requires
        old(p).available.wf(),
    ensures
        final(p).available == old(p).available,
        ok == old(p).available@.contains_key(name@),
        ok ==> (final(p).current matches Some(c) && c@ == name@),
        !ok ==> final(p).current == old(p).current,
{
    if !p.available.contains(name) {
        return false;
    }
    p.current = Some(text(name));
    true
}

/// `profile add <name> [runtime...]`: bind `name` to a dark profile with
/// these runtimes (replacing one of that name).
pub fn add_profile(p: &mut Profiles, name: &str, runtimes: Vec<String>)
    requires
        old(p).available.wf(),
    ensures
        final(p).available.wf(),
        final(p).current == old(p).current,
        final(p).available@.dom() == old(p).available@.dom().insert(name@),
        forall|k: Seq<char>| k != name@ && #[trigger] old(p).available@.contains_key(k)
            ==> final(p).available@[k] == old(p).available@[k],
        profile_view(final(p).available@[name@]) == dark(
            Seq::new(runtimes@.len(), |i: int| runtimes@[i]@),
        ),
{
    let prof = dark_profile(runtimes);
    p.available.insert(text(name), prof);
    assert(p.available@.dom() =~= old(p).available@.dom().insert(name@));
}

} // verus!
