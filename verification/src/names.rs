//! A map from names to values kept in name order (the order of `String`'s
//! `Ord`): the profile manifest, the installed-package state and the merged
//! package list are such maps.

use vstd::prelude::*;
use crate::text::chars_of;

verus! {

/// `a` comes before `b` in lexicographic order of code points.
pub open spec fn lex_lt(a: Seq<char>, b: Seq<char>) -> bool
    decreases a.len(),
{
    if a.len() == 0 {
        b.len() > 0
    } else if b.len() == 0 {
        false
    } else if a[0] < b[0] {
        true
    } else if a[0] == b[0] {
        lex_lt(a.drop_first(), b.drop_first())
    } else {
        false
    }
}

pub proof fn lemma_lex_irrefl(a: Seq<char>)
    ensures
        !lex_lt(a, a),
    decreases a.len(),
{
    if a.len() > 0 {
        lemma_lex_irrefl(a.drop_first());
    }
}

pub proof fn lemma_lex_trans(a: Seq<char>, b: Seq<char>, c: Seq<char>)
    requires
        lex_lt(a, b),
        lex_lt(b, c),
    ensures
        lex_lt(a, c),
    decreases a.len(),
{
    if a.len() > 0 && b.len() > 0 && c.len() > 0 && a[0] == b[0] && b[0] == c[0] {
        lemma_lex_trans(a.drop_first(), b.drop_first(), c.drop_first());
    }
}

pub proof fn lemma_lex_total(a: Seq<char>, b: Seq<char>)
    ensures
        lex_lt(a, b) || a == b || lex_lt(b, a),
    decreases a.len(),
{
    if a.len() > 0 && b.len() > 0 && a[0] == b[0] {
        lemma_lex_total(a.drop_first(), b.drop_first());
        if a.drop_first() == b.drop_first() {
            assert(a =~= seq![a[0]] + a.drop_first());
            assert(b =~= seq![b[0]] + b.drop_first());
        }
    } else if a.len() == 0 && b.len() == 0 {
        assert(a =~= b);
    }
}

/// Names in strictly increasing order (hence each at most once).
pub open spec fn sorted_names(ks: Seq<Seq<char>>) -> bool {
    forall|i: int, j: int| 0 <= i < j < ks.len() ==> lex_lt(#[trigger] ks[i], #[trigger] ks[j])
}

pub proof fn lemma_sorted_index(ks: Seq<Seq<char>>, i: int)
    requires
        sorted_names(ks),
        0 <= i < ks.len(),
    ensures
        ks.contains(ks[i]),
        ks.index_of(ks[i]) == i,
{
    assert(ks[i] == ks[i]);
    let j = ks.index_of(ks[i]);
    assert(0 <= j < ks.len() && ks[j] == ks[i]);
    if j < i {
        lemma_lex_irrefl(ks[i]);
        assert(lex_lt(ks[j], ks[i]));
    } else if j > i {
        lemma_lex_irrefl(ks[i]);
        assert(lex_lt(ks[i], ks[j]));
    }
}

/// A name that sorts between the names before `i` and the name at `i` is
/// not among them.
pub proof fn lemma_absent(ks: Seq<Seq<char>>, k: Seq<char>, i: int)
    requires
        sorted_names(ks),
        0 <= i <= ks.len(),
        forall|j: int| 0 <= j < i ==> lex_lt(#[trigger] ks[j], k),
        i < ks.len() ==> lex_lt(k, ks[i]),
    ensures
        !ks.contains(k),
{
    lemma_lex_irrefl(k);
    if ks.contains(k) {
        let j = ks.index_of(k);
        assert(ks[j] == k);
        if j > i {
            lemma_lex_trans(k, ks[i], ks[j]);
        }
    }
}

/// Compare two names.
pub fn lex_less(a: &str, b: &str) -> (r: bool)
    ensures
        r == lex_lt(a@, b@),
{
    let x = chars_of(a);
    let y = chars_of(b);
    let mut i: usize = 0;
    assert(x@.skip(0) =~= x@);
    assert(y@.skip(0) =~= y@);
    loop
        invariant
            i <= x@.len(),
            i <= y@.len(),
            x@ == a@,
            y@ == b@,
            lex_lt(x@.skip(i as int), y@.skip(i as int)) == lex_lt(a@, b@),
        decreases x@.len() - i,
    {
        if i == x.len() {
            return i < y.len();
        }
        if i == y.len() {
            return false;
        }
        let c = x[i];
        let d = y[i];
        assert(x@.skip(i as int)[0] == c && y@.skip(i as int)[0] == d);
        if c < d {
            return true;
        }
        if c != d {
            return false;
        }
        assert(x@.skip(i as int).drop_first() =~= x@.skip(i + 1));
        assert(y@.skip(i as int).drop_first() =~= y@.skip(i + 1));
        i = i + 1;
    }
}

/// Name-ordered map: `keys[i]` is bound to `vals[i]`.
pub struct NameMap<V> {
    pub keys: Vec<String>,
    pub vals: Vec<V>,
}

impl<V> NameMap<V> {
    pub open spec fn names(&self) -> Seq<Seq<char>> {
        Seq::new(self.keys@.len(), |i: int| self.keys@[i]@)
    }

    pub open spec fn wf(&self) -> bool {
        &&& self.keys@.len() == self.vals@.len()
        &&& sorted_names(self.names())
    }

    /// The map: each name to its value.
    pub open spec fn view(&self) -> Map<Seq<char>, V> {
        Map::new(
            |k: Seq<char>| self.names().contains(k),
            |k: Seq<char>| self.vals@[self.names().index_of(k)],
        )
    }

    pub fn new() -> (m: Self)
        ensures
            m.wf(),
            m@ == Map::<Seq<char>, V>::empty(),
    {
        let m = NameMap { keys: Vec::new(), vals: Vec::new() };
        assert(m@ =~= Map::<Seq<char>, V>::empty());
        m
    }

    pub fn len(&self) -> (n: usize)
        requires
            self.wf(),
        ensures
            n == self@.dom().len(),
            n == self.keys@.len(),
    {
        proof {
            self.lemma_dom_len();
        }
        self.keys.len()
    }

    proof fn lemma_dom_len(&self)
        requires
            self.wf(),
        ensures
            self@.dom() == self.names().to_set(),
            self@.dom().len() == self.keys@.len(),
    {
        let ks = self.names();
        assert(self@.dom() =~= ks.to_set());
        assert forall|i: int, j: int| 0 <= i < j < ks.len() implies ks[i] != ks[j] by {
            lemma_lex_irrefl(ks[i]);
        }
        assert(ks.no_duplicates());
        ks.unique_seq_to_set();
    }

    /// Position of `k`, or where it would be inserted.
    fn position(&self, k: &str) -> (r: (usize, bool))
        requires
            self.wf(),
        ensures
            r.0 <= self.keys@.len(),
            forall|j: int| 0 <= j < r.0 ==> lex_lt(#[trigger] self.names()[j], k@),
            r.1 ==> r.0 < self.keys@.len() && self.names()[r.0 as int] == k@,
            !r.1 ==> r.0 < self.keys@.len() ==> lex_lt(k@, self.names()[r.0 as int]),
    {
        let mut i: usize = 0;
        while i < self.keys.len()
            invariant
                i <= self.keys@.len(),
                self.wf(),
                forall|j: int| 0 <= j < i ==> lex_lt(#[trigger] self.names()[j], k@),
            decreases self.keys@.len() - i,
        {
            assert(self.names()[i as int] == self.keys@[i as int]@);
            if !lex_less(self.keys[i].as_str(), k) {
                proof {
                    lemma_lex_total(self.names()[i as int], k@);
                }
                let same = !lex_less(k, self.keys[i].as_str());
                return (i, same);
            }
            i = i + 1;
        }
        (i, false)
    }

    /// The value bound to `k`.
    pub fn get(&self, k: &str) -> (r: Option<&V>)
        requires
            self.wf(),
        ensures
            match r {
                Some(v) => self@.contains_key(k@) && *v == self@[k@],
                None => !self@.contains_key(k@),
            },
    {
        let (i, found) = self.position(k);
        if found {
            proof {
                lemma_sorted_index(self.names(), i as int);
            }
            Some(&self.vals[i])
        } else {
            proof {
                lemma_absent(self.names(), k@, i as int);
            }
            None
        }
    }

    pub fn contains(&self, k: &str) -> (b: bool)
        requires
            self.wf(),
        ensures
            b == self@.contains_key(k@),
    {
        self.get(k).is_some()
    }

    /// Bind `k` to `v` (replacing an earlier value).
    pub fn insert(&mut self, k: String, v: V)
        requires
            old(self).wf(),
        ensures
            final(self).wf(),
            final(self)@ == old(self)@.insert(k@, v),
    {
        let ghost ks = self.names();
        let ghost kv = k@;
        let (i, found) = self.position(k.as_str());
        if found {
            self.vals.set(i, v);
            proof {
                assert(self.names() =~= ks);
                lemma_sorted_index(ks, i as int);
                assert forall|key: Seq<char>| #[trigger] self@.contains_key(key) implies self@[key]
                    == old(self)@.insert(kv, v)[key] by {
                    let j = ks.index_of(key);
                    lemma_sorted_index(ks, j);
                }
                assert(self@ =~= old(self)@.insert(kv, v));
            }
        } else {
            proof {
                lemma_absent(ks, kv, i as int);
            }
            self.keys.insert(i, k);
            self.vals.insert(i, v);
            proof {
                let ns = self.names();
                assert(ns =~= ks.insert(i as int, kv));
                assert forall|a: int, b: int| 0 <= a < b < ns.len() implies lex_lt(
                    #[trigger] ns[a],
                    #[trigger] ns[b],
                ) by {
                    if b == i {
                        assert(ns[a] == ks[a]);
                    } else if a == i {
                        assert(ns[b] == ks[b - 1]);
                        if b - 1 > i {
                            lemma_lex_trans(kv, ks[i as int], ks[b - 1]);
                        }
                    } else {
                        let a0 = if a < i { a } else { a - 1 };
                        let b0 = if b < i { b } else { b - 1 };
                        assert(ns[a] == ks[a0] && ns[b] == ks[b0]);
                        assert(a0 < b0);
                    }
                }
                assert forall|key: Seq<char>| #[trigger] old(self)@.insert(kv, v).contains_key(key)
                    implies ns.contains(key) by {
                    if key == kv {
                        assert(ns[i as int] == kv);
                    } else {
                        let j = ks.index_of(key);
                        let j2 = if j < i { j } else { j + 1 };
                        assert(ns[j2] == key);
                    }
                }
                assert forall|key: Seq<char>| ns.contains(key) implies #[trigger] old(self)@.insert(
                    kv,
                    v,
                ).contains_key(key) by {
                    let j = ns.index_of(key);
                    if j != i {
                        let j0 = if j < i { j } else { j - 1 };
                        assert(ks[j0] == key);
                    }
                }
                assert forall|key: Seq<char>| #[trigger] self@.contains_key(key) implies self@[key]
                    == old(self)@.insert(kv, v)[key] by {
                    let j = ns.index_of(key);
                    assert(0 <= j < ns.len() && ns[j] == key);
                    lemma_sorted_index(ns, j);
                    if j != i {
                        let j0 = if j < i { j } else { j - 1 };
                        assert(ks[j0] == key);
                        assert(key != kv);
                        lemma_sorted_index(ks, j0);
                        assert(self.vals@[j] == old(self).vals@[j0]);
                    } else {
                        assert(key == kv);
                        assert(self.vals@[j] == v);
                    }
                }
                assert(self@ =~= old(self)@.insert(kv, v));
            }
        }
    }

    /// Unbind `k`; its value, if it had one.
    pub fn remove(&mut self, k: &str) -> (r: Option<V>)
        requires
            old(self).wf(),
        ensures
            final(self).wf(),
            final(self)@ == old(self)@.remove(k@),
            match r {
                Some(v) => old(self)@.contains_key(k@) && v == old(self)@[k@],
                None => !old(self)@.contains_key(k@),
            },
    {
        let ghost ks = self.names();
        let (i, found) = self.position(k);
        if !found {
            proof {
                lemma_absent(ks, k@, i as int);
                assert(old(self)@.remove(k@) =~= old(self)@);
            }
            return None;
        }
        proof {
            lemma_sorted_index(ks, i as int);
        }
        let _ = self.keys.remove(i);
        let v = self.vals.remove(i);
        proof {
            let ns = self.names();
            assert(ns =~= ks.remove(i as int));
            assert forall|a: int, b: int| 0 <= a < b < ns.len() implies lex_lt(
                #[trigger] ns[a],
                #[trigger] ns[b],
            ) by {
                let a0 = if a < i { a } else { a + 1 };
                let b0 = if b < i { b } else { b + 1 };
                assert(ns[a] == ks[a0] && ns[b] == ks[b0]);
            }
            assert forall|key: Seq<char>| #[trigger] old(self)@.remove(k@).contains_key(key) implies ns.contains(
                key,
            ) by {
                let j = ks.index_of(key);
                assert(j != i);
                let j2 = if j < i { j } else { j - 1 };
                assert(ns[j2] == key);
            }
            assert forall|key: Seq<char>| ns.contains(key) implies #[trigger] old(self)@.remove(
                k@,
            ).contains_key(key) by {
                let j = ns.index_of(key);
                let j0 = if j < i { j } else { j + 1 };
                assert(ks[j0] == key);
                lemma_sorted_index(ks, j0);
            }
            assert forall|key: Seq<char>| #[trigger] self@.contains_key(key) implies self@[key]
                == old(self)@.remove(k@)[key] by {
                let j = ns.index_of(key);
                lemma_sorted_index(ns, j);
                let j0 = if j < i { j } else { j + 1 };
                assert(ks[j0] == key);
                lemma_sorted_index(ks, j0);
            }
            assert(self@ =~= old(self)@.remove(k@));
        }
        Some(v)
    }
}

} // verus!
