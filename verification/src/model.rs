//! The persisted document types and the product-count map.
//!
//! A freezer's `products` field is the mutable state the service protects.
//! [`Counts`] keeps it as an association vector with distinct keys and is
//! specified by the finite map it denotes; the quantity-adjustment protocol
//! (`add_all`, `sub_all`) and the per-document recompute step
//! (`apply_defaults`) live here, each an atomic check-then-apply: on failure
//! the counts are left exactly as they were.

use crate::errors::Error;
use crate::keyed::{
    find_key, keys_of, kv_map, lemma_find_key, lemma_find_key_first, lemma_kv_map,
    lemma_kv_map_absent, lemma_kv_map_push, lemma_kv_map_remove, lemma_kv_map_update,
    lemma_no_dup_push, lemma_no_dup_remove,
};
use vstd::prelude::*;

verus! {

/// The model designation of a freezer.
#[derive(Debug)]
pub struct Model {
    pub name: String,
    pub year: usize,
}

/// Spec-level image of a model designation.
pub ghost struct ModelView {
    pub name: Seq<char>,
    pub year: usize,
}

impl View for Model {
    type V = ModelView;

    open spec fn view(&self) -> ModelView {
        ModelView { name: self.name@, year: self.year }
    }
}

impl Clone for Model {
    fn clone(&self) -> (res: Self)
        ensures
            res@ == self@,
    {
        Model { name: self.name.clone(), year: self.year }
    }
}

/// Reference data: a product and its configured default stocking count.
#[derive(Debug)]
pub struct Product {
    pub name: String,
    pub default: usize,
}

/// Spec-level image of a product.
pub ghost struct ProductView {
    pub name: Seq<char>,
    pub default: usize,
}

impl View for Product {
    type V = ProductView;

    open spec fn view(&self) -> ProductView {
        ProductView { name: self.name@, default: self.default }
    }
}

impl Clone for Product {
    fn clone(&self) -> (res: Self)
        ensures
            res@ == self@,
    {
        Product { name: self.name.clone(), default: self.default }
    }
}

/// The entries of a count map, at the spec level.
spec fn pairs(entries: Seq<(String, usize)>) -> Seq<(Seq<char>, usize)> {
    entries.map_values(|p: (String, usize)| (p.0@, p.1))
}

/// A mapping from product name to count, with one entry per name.
#[derive(Debug)]
pub struct Counts {
    entries: Vec<(String, usize)>,
}

impl View for Counts {
    type V = Map<Seq<char>, usize>;

    closed spec fn view(&self) -> Map<Seq<char>, usize> {
        kv_map(pairs(self.entries@))
    }
}

impl Counts {
    #[verifier::type_invariant]
    spec fn wf(self) -> bool {
        keys_of(pairs(self.entries@)).no_duplicates()
    }

    /// An empty count map.
    pub fn new() -> (r: Counts)
        ensures
            r@ == Map::<Seq<char>, usize>::empty(),
    {
        Counts { entries: Vec::new() }
    }

    /// The count stored under a name, if any.
    pub fn get(&self, name: &str) -> (r: Option<usize>)
        ensures
            r == (if self@.contains_key(name@) {
                Some(self@[name@])
            } else {
                None::<usize>
            }),
    {
        let ghost s = pairs(self.entries@);
        match find_entry(&self.entries, name) {
            Some(i) => {
                proof {
                    assert(keys_of(s)[i as int] == s[i as int].0);
                    assert(forall|j: int| 0 <= j < i ==> keys_of(s)[j] == s[j].0);
                    lemma_find_key_first(keys_of(s), name@, i as int);
                    lemma_kv_map(s, name@);
                }
                Some(self.entries[i].1)
            },
            None => {
                proof {
                    assert(forall|j: int| 0 <= j < s.len() ==> keys_of(s)[j] == s[j].0);
                    lemma_find_key(keys_of(s), name@);
                    lemma_kv_map(s, name@);
                }
                None
            },
        }
    }

    /// Stores a count under a name, replacing any prior entry.
    pub fn set(&mut self, name: String, value: usize)
        ensures
            final(self)@ == old(self)@.insert(name@, value),
    {
        proof {
            use_type_invariant(&*self);
        }
        let ghost s = pairs(self.entries@);
        let mut es: Vec<(String, usize)> = Vec::new();
        core::mem::swap(&mut es, &mut self.entries);
        match find_entry(&es, name.as_str()) {
            Some(i) => {
                proof {
                    assert(keys_of(s)[i as int] == s[i as int].0);
                    assert(forall|j: int| 0 <= j < i ==> keys_of(s)[j] == s[j].0);
                    lemma_find_key_first(keys_of(s), name@, i as int);
                    lemma_kv_map_update(s, i as int, value);
                }
                es[i] = (name, value);
                proof {
                    assert(pairs(es@) =~= s.update(i as int, (s[i as int].0, value)));
                    assert(keys_of(pairs(es@)) =~= keys_of(s));
                }
            },
            None => {
                proof {
                    assert(forall|j: int| 0 <= j < s.len() ==> keys_of(s)[j] == s[j].0);
                    lemma_find_key(keys_of(s), name@);
                    lemma_kv_map_push(s, name@, value);
                    lemma_no_dup_push(keys_of(s), name@);
                }
                es.push((name, value));
                proof {
                    assert(pairs(es@) =~= s.push((name@, value)));
                    assert(keys_of(pairs(es@)) =~= keys_of(s).push(name@));
                }
            },
        }
        self.entries = es;
    }

    /// The entries of the map, one pair per name.
    pub fn to_pairs(&self) -> (r: Vec<(String, usize)>)
        ensures
            forall|j: int|
                0 <= j < r@.len() ==> self@.contains_key(#[trigger] r@[j].0@) && self@[r@[j].0@]
                    == r@[j].1,
            forall|k: Seq<char>| #[trigger]
                self@.contains_key(k) ==> exists|j: int| 0 <= j < r@.len() && r@[j].0@ == k,
            forall|j1: int, j2: int|
                0 <= j1 < j2 < r@.len() ==> #[trigger] r@[j1].0@ != #[trigger] r@[j2].0@,
    {
        proof {
            use_type_invariant(&*self);
        }
        let ghost s = pairs(self.entries@);
        let mut out: Vec<(String, usize)> = Vec::new();
        let mut i: usize = 0;
        while i < self.entries.len()
            invariant
                i <= self.entries.len(),
                s == pairs(self.entries@),
                out@.len() == i,
                forall|j: int| 0 <= j < i ==> (out@[j].0@, out@[j].1) == s[j],
            decreases self.entries.len() - i,
        {
            out.push((self.entries[i].0.clone(), self.entries[i].1));
            i += 1;
        }
        proof {
            assert forall|j: int|
                0 <= j < out@.len() implies self@.contains_key(#[trigger] out@[j].0@) && self@[
                out@[j].0@
            ] == out@[j].1 by {
                assert forall|l: int| 0 <= l < j implies keys_of(s)[l] != s[j].0 by {
                    assert(keys_of(s)[l] == s[l].0);
                    assert(keys_of(s)[j] == s[j].0);
                }
                assert(keys_of(s)[j] == s[j].0);
                lemma_find_key_first(keys_of(s), s[j].0, j);
                lemma_kv_map(s, s[j].0);
                assert(out@[j].0@ == s[j].0);
            }
            assert forall|j1: int, j2: int|
                0 <= j1 < j2 < out@.len() implies #[trigger] out@[j1].0@ != #[trigger] out@[
                j2
            ].0@ by {
                assert(out@[j1].0@ == keys_of(s)[j1]);
                assert(out@[j2].0@ == keys_of(s)[j2]);
            }
            assert forall|k: Seq<char>| #[trigger]
                self@.contains_key(k) implies exists|j: int|
                0 <= j < out@.len() && out@[j].0@ == k by {
                lemma_kv_map(s, k);
                lemma_find_key(keys_of(s), k);
                let f = find_key(keys_of(s), k);
                assert(keys_of(s)[f] == s[f].0);
                assert(out@[f].0@ == k);
            }
        }
        out
    }

    /// Removes the entry under a name, returning its count, or `None` when
    /// the name is absent (leaving the map unchanged).
    pub fn remove(&mut self, name: &str) -> (r: Option<usize>)
        ensures
            old(self)@.contains_key(name@) ==> r == Some(old(self)@[name@]) && final(self)@
                == old(self)@.remove(name@),
            !old(self)@.contains_key(name@) ==> r is None && final(self)@ == old(self)@,
    {
        proof {
            use_type_invariant(&*self);
        }
        let ghost s = pairs(self.entries@);
        let mut es: Vec<(String, usize)> = Vec::new();
        core::mem::swap(&mut es, &mut self.entries);
        let r = match find_entry(&es, name) {
            Some(i) => {
                proof {
                    assert(keys_of(s)[i as int] == s[i as int].0);
                    assert(forall|j: int| 0 <= j < i ==> keys_of(s)[j] == s[j].0);
                    lemma_find_key_first(keys_of(s), name@, i as int);
                    lemma_kv_map(s, name@);
                    lemma_kv_map_remove(s, i as int);
                    lemma_no_dup_remove(keys_of(s), i as int);
                }
                let entry = es.remove(i);
                proof {
                    assert(pairs(es@) =~= s.remove(i as int));
                    assert(keys_of(pairs(es@)) =~= keys_of(s).remove(i as int));
                }
                Some(entry.1)
            },
            None => {
                proof {
                    assert(forall|j: int| 0 <= j < s.len() ==> keys_of(s)[j] == s[j].0);
                    lemma_find_key(keys_of(s), name@);
                    lemma_kv_map(s, name@);
                }
                None
            },
        };
        self.entries = es;
        r
    }
}

/// The count a map holds for a name, counting an absent name as zero.
pub open spec fn cnt(m: Map<Seq<char>, usize>, k: Seq<char>) -> int {
    if m.contains_key(k) {
        m[k] as int
    } else {
        0
    }
}

/// Whether every addition in `adds` fits the machine range.
pub open spec fn add_fits(m: Map<Seq<char>, usize>, adds: Map<Seq<char>, usize>) -> bool {
    forall|k: Seq<char>| adds.contains_key(k) ==> cnt(m, k) + adds[k] <= usize::MAX
}

/// The result of putting `adds` in: each added name is incremented (an
/// absent name starts at zero), every other entry is untouched.
pub open spec fn map_add(
    m: Map<Seq<char>, usize>,
    adds: Map<Seq<char>, usize>,
) -> Map<Seq<char>, usize> {
    Map::new(
        |k: Seq<char>| m.contains_key(k) || adds.contains_key(k),
        |k: Seq<char>|
            if adds.contains_key(k) {
                (cnt(m, k) + adds[k]) as usize
            } else {
                m[k]
            },
    )
}

/// Whether taking `subs` out stays at or above zero: the quantity policy.
pub open spec fn sub_ok(m: Map<Seq<char>, usize>, subs: Map<Seq<char>, usize>) -> bool {
    forall|k: Seq<char>| m.contains_key(k) && subs.contains_key(k) ==> subs[k] <= m[k]
}

/// The result of putting `subs` out: each present subtracted name is
/// decremented; a subtracted name that is absent stays absent.
pub open spec fn map_sub(
    m: Map<Seq<char>, usize>,
    subs: Map<Seq<char>, usize>,
) -> Map<Seq<char>, usize> {
    Map::new(
        |k: Seq<char>| m.contains_key(k),
        |k: Seq<char>|
            if subs.contains_key(k) {
                (m[k] - subs[k]) as usize
            } else {
                m[k]
            },
    )
}

/// Whether every name in `m` has a configured default.
pub open spec fn dom_covered(m: Map<Seq<char>, usize>, defaults: Map<Seq<char>, usize>) -> bool {
    forall|k: Seq<char>| m.contains_key(k) ==> defaults.contains_key(k)
}

/// The recompute step for one count map: every present name is reset to its
/// configured default; no name appears or disappears.
pub open spec fn map_defaults(
    m: Map<Seq<char>, usize>,
    defaults: Map<Seq<char>, usize>,
) -> Map<Seq<char>, usize> {
    Map::new(|k: Seq<char>| m.contains_key(k), |k: Seq<char>| defaults[k])
}

impl Counts {
    /// Puts `adds` in: an atomic increment of every added name.  When some
    /// addition would overflow, nothing changes and the quantity policy
    /// rejects the request.
    pub fn add_all(&mut self, adds: &Counts) -> (r: Result<(), Error>)
        ensures
            add_fits(old(self)@, adds@) ==> r is Ok && final(self)@ == map_add(
                old(self)@,
                adds@,
            ),
            !add_fits(old(self)@, adds@) ==> (r matches Err(e) && e is LogicError) && final(self)@ == old(self)@,
    {
        let ghost sa = pairs(adds.entries@);
        let mut i: usize = 0;
        while i < adds.entries.len()
            invariant
                i <= adds.entries.len(),
                sa == pairs(adds.entries@),
                *self == *old(self),
                forall|j: int| 0 <= j < i ==> cnt(old(self)@, sa[j].0) + sa[j].1 <= usize::MAX,
            decreases adds.entries.len() - i,
        {
            let cur = match self.get(adds.entries[i].0.as_str()) {
                Some(c) => c,
                None => 0,
            };
            proof {
                assert(sa[i as int].0 == adds.entries@[i as int].0@);
                assert(cur as int == cnt(self@, sa[i as int].0));
            }
            if adds.entries[i].1 > usize::MAX - cur {
                proof {
                    use_type_invariant(&*adds);
                    let ghost k = sa[i as int].0;
                    assert forall|j: int| 0 <= j < i implies keys_of(sa)[j] != k by {
                        assert(keys_of(sa)[j] == sa[j].0);
                        assert(keys_of(sa)[i as int] == k);
                    }
                    assert(keys_of(sa)[i as int] == k);
                    lemma_find_key_first(keys_of(sa), k, i as int);
                    lemma_kv_map(sa, k);
                    assert(adds@.contains_key(k) && adds@[k] == sa[i as int].1);
                    assert(!add_fits(old(self)@, adds@));
                }
                return Err(Error::LogicError("count out of range".to_owned()));
            }
            i += 1;
        }
        proof {
            use_type_invariant(&*adds);
            assert forall|k: Seq<char>| adds@.contains_key(k) implies cnt(old(self)@, k)
                + adds@[k] <= usize::MAX by {
                lemma_kv_map(sa, k);
                lemma_find_key(keys_of(sa), k);
                let f = find_key(keys_of(sa), k);
                assert(keys_of(sa)[f] == sa[f].0);
            }
        }
        let ghost m0 = self@;
        let mut i: usize = 0;
        while i < adds.entries.len()
            invariant
                i <= adds.entries.len(),
                sa == pairs(adds.entries@),
                adds@ == kv_map(sa),
                keys_of(sa).no_duplicates(),
                add_fits(m0, adds@),
                self@ == map_add(m0, kv_map(sa.take(i as int))),
            decreases adds.entries.len() - i,
        {
            let key = adds.entries[i].0.clone();
            let add = adds.entries[i].1;
            let cur = match self.get(key.as_str()) {
                Some(c) => c,
                None => 0,
            };
            proof {
                let ghost k = sa[i as int].0;
                assert(key@ == k);
                assert forall|j: int| 0 <= j < i implies keys_of(sa.take(i as int))[j] != k by {
                    assert(keys_of(sa.take(i as int))[j] == sa[j].0);
                    assert(keys_of(sa)[j] == sa[j].0);
                    assert(keys_of(sa)[i as int] == k);
                }
                lemma_kv_map_absent(sa.take(i as int), k);
                assert(cnt(self@, k) == cnt(m0, k));
                assert forall|j: int| 0 <= j < i implies keys_of(sa)[j] != k by {
                    assert(keys_of(sa)[j] == sa[j].0);
                    assert(keys_of(sa)[i as int] == k);
                }
                assert(keys_of(sa)[i as int] == k);
                lemma_find_key_first(keys_of(sa), k, i as int);
                lemma_kv_map(sa, k);
                assert(add == adds@[k]);
                assert(cur + add <= usize::MAX);
            }
            self.set(key, cur + add);
            proof {
                let ghost k = sa[i as int].0;
                let ghost p = sa.take(i as int);
                lemma_find_key(keys_of(p), k);
                lemma_kv_map_push(p, k, add);
                assert(sa.take(i as int + 1) =~= p.push((k, add))) by {
                    assert(sa[i as int].1 == add);
                    assert(sa[i as int] == (k, add));
                }
                assert(self@ =~= map_add(m0, kv_map(sa.take(i as int + 1))));
            }
            i += 1;
        }
        proof {
            assert(sa.take(sa.len() as int) =~= sa);
        }
        Ok(())
    }

    /// Puts `subs` out: an atomic decrement of every subtracted name that is
    /// present; a subtracted name that is absent is left alone.  When some
    /// decrement would drop below zero, nothing changes and the quantity
    /// policy rejects the request.
    pub fn sub_all(&mut self, subs: &Counts) -> (r: Result<(), Error>)
        ensures
            sub_ok(old(self)@, subs@) ==> r is Ok && final(self)@ == map_sub(old(self)@, subs@),
            !sub_ok(old(self)@, subs@) ==> (r matches Err(e) && e is LogicError) && final(self)@
                == old(self)@,
    {
        let ghost sa = pairs(subs.entries@);
        let mut i: usize = 0;
        while i < subs.entries.len()
            invariant
                i <= subs.entries.len(),
                sa == pairs(subs.entries@),
                *self == *old(self),
                forall|j: int|
                    0 <= j < i ==> (old(self)@.contains_key(sa[j].0) ==> sa[j].1 <= old(self)@[sa[j].0]),
            decreases subs.entries.len() - i,
        {
            proof {
                assert(sa[i as int].0 == subs.entries@[i as int].0@);
            }
            match self.get(subs.entries[i].0.as_str()) {
                Some(cur) => {
                    if subs.entries[i].1 > cur {
                        proof {
                            use_type_invariant(&*subs);
                            let ghost k = sa[i as int].0;
                            assert forall|j: int| 0 <= j < i implies keys_of(sa)[j] != k by {
                                assert(keys_of(sa)[j] == sa[j].0);
                                assert(keys_of(sa)[i as int] == k);
                            }
                            assert(keys_of(sa)[i as int] == k);
                            lemma_find_key_first(keys_of(sa), k, i as int);
                            lemma_kv_map(sa, k);
                            assert(subs@.contains_key(k) && subs@[k] == sa[i as int].1);
                            assert(!sub_ok(old(self)@, subs@));
                        }
                        return Err(Error::LogicError("count below zero".to_owned()));
                    }
                },
                None => {},
            }
            i += 1;
        }
        proof {
            use_type_invariant(&*subs);
            assert forall|k: Seq<char>|
                old(self)@.contains_key(k) && subs@.contains_key(k) implies subs@[k] <= old(self)@[k] by {
                lemma_kv_map(sa, k);
                lemma_find_key(keys_of(sa), k);
                let f = find_key(keys_of(sa), k);
                assert(keys_of(sa)[f] == sa[f].0);
            }
        }
        let ghost m0 = self@;
        let mut i: usize = 0;
        while i < subs.entries.len()
            invariant
                i <= subs.entries.len(),
                sa == pairs(subs.entries@),
                subs@ == kv_map(sa),
                keys_of(sa).no_duplicates(),
                sub_ok(m0, subs@),
                self@ == map_sub(m0, kv_map(sa.take(i as int))),
            decreases subs.entries.len() - i,
        {
            let key = subs.entries[i].0.clone();
            let sub = subs.entries[i].1;
            proof {
                let ghost k = sa[i as int].0;
                assert(key@ == k);
                assert forall|j: int| 0 <= j < i implies keys_of(sa.take(i as int))[j] != k by {
                    assert(keys_of(sa.take(i as int))[j] == sa[j].0);
                    assert(keys_of(sa)[j] == sa[j].0);
                    assert(keys_of(sa)[i as int] == k);
                }
                lemma_kv_map_absent(sa.take(i as int), k);
                assert forall|j: int| 0 <= j < i implies keys_of(sa)[j] != k by {
                    assert(keys_of(sa)[j] == sa[j].0);
                    assert(keys_of(sa)[i as int] == k);
                }
                assert(keys_of(sa)[i as int] == k);
                lemma_find_key_first(keys_of(sa), k, i as int);
                lemma_kv_map(sa, k);
                assert(sub == subs@[k]);
            }
            match self.get(key.as_str()) {
                Some(cur) => {
                    proof {
                        assert(m0.contains_key(key@));
                        assert(cur == m0[key@]);
                        assert(sub <= cur);
                    }
                    self.set(key, cur - sub);
                },
                None => {},
            }
            proof {
                let ghost k = sa[i as int].0;
                let ghost p = sa.take(i as int);
                lemma_find_key(keys_of(p), k);
                lemma_kv_map_push(p, k, sub);
                assert(sa.take(i as int + 1) =~= p.push((k, sub))) by {
                    assert(sa[i as int].1 == sub);
                    assert(sa[i as int] == (k, sub));
                }
                assert(self@ =~= map_sub(m0, kv_map(sa.take(i as int + 1))));
            }
            i += 1;
        }
        proof {
            assert(sa.take(sa.len() as int) =~= sa);
        }
        Ok(())
    }

    /// The recompute step for one document: a fresh count map with the same
    /// names, each reset to its configured default.  When a name has no
    /// default the counts are left alone and the missing name is reported.
    pub fn apply_defaults(&self, defaults: &Counts) -> (r: Result<Counts, Error>)
        ensures
            dom_covered(self@, defaults@) ==> (r matches Ok(c) && c@ == map_defaults(
                self@,
                defaults@,
            )),
            !dom_covered(self@, defaults@) ==> (r matches Err(e) && e is NotFound),
    {
        let ghost s = pairs(self.entries@);
        let mut out = Counts::new();
        let mut i: usize = 0;
        while i < self.entries.len()
            invariant
                i <= self.entries.len(),
                s == pairs(self.entries@),
                self@ == kv_map(s),
                out@ == map_defaults(kv_map(s.take(i as int)), defaults@),
                forall|j: int| 0 <= j < i ==> defaults@.contains_key(sa_key(s, j)),
            decreases self.entries.len() - i,
        {
            let key = self.entries[i].0.clone();
            proof {
                assert(key@ == s[i as int].0);
            }
            match defaults.get(key.as_str()) {
                None => {
                    proof {
                        use_type_invariant(&*self);
                        let ghost k = s[i as int].0;
                        assert(keys_of(s)[i as int] == k);
                        lemma_find_key(keys_of(s), k);
                        lemma_kv_map(s, k);
                        assert(find_key(keys_of(s), k) >= 0);
                        assert(self@.contains_key(k));
                        assert(!dom_covered(self@, defaults@));
                    }
                    return Err(Error::NotFound(key));
                },
                Some(d) => {
                    proof {
                        use_type_invariant(&*self);
                        let ghost k = s[i as int].0;
                        assert forall|j: int|
                            0 <= j < i implies keys_of(s.take(i as int))[j] != k by {
                            assert(keys_of(s.take(i as int))[j] == s[j].0);
                            assert(keys_of(s)[j] == s[j].0);
                            assert(keys_of(s)[i as int] == k);
                        }
                        lemma_find_key(keys_of(s.take(i as int)), k);
                        lemma_kv_map_push(s.take(i as int), k, s[i as int].1);
                        assert(s.take(i as int + 1) =~= s.take(i as int).push(
                            (k, s[i as int].1),
                        ));
                    }
                    out.set(key, d);
                    proof {
                        assert(out@ =~= map_defaults(kv_map(s.take(i as int + 1)), defaults@));
                    }
                },
            }
            i += 1;
        }
        proof {
            assert(s.take(s.len() as int) =~= s);
            assert forall|k: Seq<char>| self@.contains_key(k) implies defaults@.contains_key(
                k,
            ) by {
                lemma_kv_map(s, k);
                lemma_find_key(keys_of(s), k);
                let f = find_key(keys_of(s), k);
                assert(keys_of(s)[f] == s[f].0);
                assert(sa_key(s, f) == k);
            }
        }
        Ok(out)
    }
}

/// The key of one entry of a count sequence.
spec fn sa_key(s: Seq<(Seq<char>, usize)>, j: int) -> Seq<char> {
    s[j].0
}

/// A delta touching a single product.
pub open spec fn single(p: Seq<char>, a: usize) -> Map<Seq<char>, usize> {
    Map::empty().insert(p, a)
}

/// The amount a delta map adds for a name.
pub open spec fn delta_of(adds: Map<Seq<char>, usize>, k: Seq<char>) -> int {
    if adds.contains_key(k) {
        adds[k] as int
    } else {
        0
    }
}

/// Putting a delta in raises each count by exactly the delta's amount and
/// grows the domain by exactly the delta's names.
pub proof fn lemma_cnt_map_add(m: Map<Seq<char>, usize>, adds: Map<Seq<char>, usize>)
    requires
        add_fits(m, adds),
    ensures
        forall|k: Seq<char>| #[trigger] cnt(map_add(m, adds), k) == cnt(m, k) + delta_of(adds, k),
        forall|k: Seq<char>| #[trigger]
            map_add(m, adds).contains_key(k) <==> (m.contains_key(k) || adds.contains_key(k)),
{
    assert forall|k: Seq<char>| #[trigger] cnt(map_add(m, adds), k) == cnt(m, k) + delta_of(
        adds,
        k,
    ) by {
        if adds.contains_key(k) {
            assert(map_add(m, adds)[k] == (cnt(m, k) + adds[k]) as usize);
        }
    }
}

/// Inverse law: putting an amount of a present product in and then taking
/// the same amount back out restores the counts exactly.
pub proof fn lemma_put_in_put_out_inverse(m: Map<Seq<char>, usize>, p: Seq<char>, a: usize)
    requires
        m.contains_key(p),
        cnt(m, p) + a <= usize::MAX,
    ensures
        add_fits(m, single(p, a)),
        sub_ok(map_add(m, single(p, a)), single(p, a)),
        map_sub(map_add(m, single(p, a)), single(p, a)) =~= m,
{
    lemma_cnt_map_add(m, single(p, a));
}

/// Two atomic put-ins commute: when both fit in order, both fit in the other
/// order and either order yields the same counts.  No increment is lost,
/// however concurrent put-ins against one freezer are serialized.
pub proof fn lemma_add_commutes(
    m: Map<Seq<char>, usize>,
    d1: Map<Seq<char>, usize>,
    d2: Map<Seq<char>, usize>,
)
    requires
        add_fits(m, d1),
        add_fits(map_add(m, d1), d2),
    ensures
        add_fits(m, d2),
        add_fits(map_add(m, d2), d1),
        map_add(map_add(m, d1), d2) =~= map_add(map_add(m, d2), d1),
{
    lemma_cnt_map_add(m, d1);
    assert forall|k: Seq<char>| d2.contains_key(k) implies cnt(m, k) + d2[k] <= usize::MAX by {
        assert(cnt(map_add(m, d1), k) + d2[k] <= usize::MAX);
    }
    lemma_cnt_map_add(m, d2);
    assert forall|k: Seq<char>| d1.contains_key(k) implies cnt(map_add(m, d2), k) + d1[k]
        <= usize::MAX by {
        if d2.contains_key(k) {
            assert(cnt(map_add(m, d1), k) + d2[k] <= usize::MAX);
        }
    }
    lemma_cnt_map_add(map_add(m, d1), d2);
    lemma_cnt_map_add(map_add(m, d2), d1);
    let left = map_add(map_add(m, d1), d2);
    let right = map_add(map_add(m, d2), d1);
    assert forall|k: Seq<char>| left.contains_key(k) implies left[k] == right[k] by {
        assert(cnt(left, k) == cnt(m, k) + delta_of(d1, k) + delta_of(d2, k));
        assert(cnt(right, k) == cnt(m, k) + delta_of(d2, k) + delta_of(d1, k));
    }
}

/// The counts after `n` successive put-ins of `a` of product `p`.
pub open spec fn iter_add(m: Map<Seq<char>, usize>, p: Seq<char>, a: usize, n: nat) -> Map<
    Seq<char>,
    usize,
>
    decreases n,
{
    if n == 0 {
        m
    } else {
        map_add(iter_add(m, p, a, (n - 1) as nat), single(p, a))
    }
}

/// N serialized atomic put-ins of `a`, starting from a count of zero, leave
/// the count at exactly N·a and touch no other product.
pub proof fn lemma_repeated_put_in(m: Map<Seq<char>, usize>, p: Seq<char>, a: usize, n: nat)
    requires
        cnt(m, p) == 0,
        n * a <= usize::MAX,
    ensures
        n > 0 ==> iter_add(m, p, a, n).contains_key(p),
        cnt(iter_add(m, p, a, n), p) == n * a,
        forall|k: Seq<char>| k != p ==> cnt(iter_add(m, p, a, n), k) == cnt(m, k),
        forall|k: Seq<char>|
            k != p ==> (iter_add(m, p, a, n).contains_key(k) <==> m.contains_key(k)),
    decreases n,
{
    if n > 0 {
        assert((n - 1) * a + a == n * a && (n - 1) * a >= 0) by (nonlinear_arith)
            requires
                n >= 1,
        ;
        lemma_repeated_put_in(m, p, a, (n - 1) as nat);
        let prev = iter_add(m, p, a, (n - 1) as nat);
        assert(add_fits(prev, single(p, a))) by {
            assert(cnt(prev, p) + a == n * a);
        }
        lemma_cnt_map_add(prev, single(p, a));
        assert(cnt(prev, p) == (n - 1) * a);
        assert(delta_of(single(p, a), p) == a);
        assert(iter_add(m, p, a, n) == map_add(prev, single(p, a)));
        assert(cnt(map_add(prev, single(p, a)), p) == cnt(prev, p) + delta_of(single(p, a), p));
        assert(cnt(iter_add(m, p, a, n), p) == n * a);
    } else {
        assert(iter_add(m, p, a, n) == m);
        assert(n * a == 0) by (nonlinear_arith)
            requires
                n == 0,
        ;
    }
}

/// The recompute step is idempotent: resetting counts to the defaults twice
/// is the same as doing it once.
pub proof fn lemma_defaults_idempotent(
    m: Map<Seq<char>, usize>,
    defaults: Map<Seq<char>, usize>,
)
    ensures
        map_defaults(map_defaults(m, defaults), defaults) =~= map_defaults(m, defaults),
        dom_covered(m, defaults) ==> dom_covered(map_defaults(m, defaults), defaults),
{
}

impl Clone for Counts {
    fn clone(&self) -> (res: Self)
        ensures
            res@ == self@,
    {
        proof {
            use_type_invariant(&*self);
        }
        let mut es: Vec<(String, usize)> = Vec::new();
        let mut i: usize = 0;
        while i < self.entries.len()
            invariant
                i <= self.entries.len(),
                es@.len() == i,
                forall|j: int| 0 <= j < i ==> es@[j] == self.entries@[j],
            decreases self.entries.len() - i,
        {
            es.push((self.entries[i].0.clone(), self.entries[i].1));
            i += 1;
        }
        proof {
            assert(es@ =~= self.entries@);
        }
        Counts { entries: es }
    }
}

/// Locates the first entry stored under `name`.
fn find_entry(entries: &Vec<(String, usize)>, name: &str) -> (r: Option<usize>)
    ensures
        match r {
            Some(i) => i < entries@.len() && pairs(entries@)[i as int].0 == name@ && (forall|
                j: int,
            |
                0 <= j < i ==> pairs(entries@)[j].0 != name@),
            None => forall|j: int| 0 <= j < entries@.len() ==> pairs(entries@)[j].0 != name@,
        },
{
    let key: String = name.to_owned();
    let mut i: usize = 0;
    while i < entries.len()
        invariant
            i <= entries.len(),
            key@ == name@,
            forall|j: int| 0 <= j < i ==> pairs(entries@)[j].0 != name@,
        decreases entries.len() - i,
    {
        if entries[i].0 == key {
            proof {
                assert(pairs(entries@)[i as int].0 == entries@[i as int].0@);
            }
            return Some(i);
        }
        proof {
            assert(pairs(entries@)[i as int].0 == entries@[i as int].0@);
        }
        i += 1;
    }
    None
}

/// Spec-level image of a freezer document.
#[verifier::ext_equal]
pub ghost struct FreezerView {
    pub name: Seq<char>,
    pub model: ModelView,
    pub owner: Option<Seq<char>>,
    pub products: Map<Seq<char>, usize>,
}

/// A named inventory container.
#[derive(Debug)]
pub struct Freezer {
    pub name: String,
    pub model: Model,
    pub owner: Option<String>,
    pub products: Counts,
}

impl View for Freezer {
    type V = FreezerView;

    open spec fn view(&self) -> FreezerView {
        FreezerView {
            name: self.name@,
            model: self.model@,
            owner: match self.owner {
                Some(ref o) => Some(o@),
                None => None,
            },
            products: self.products@,
        }
    }
}

impl Clone for Freezer {
    fn clone(&self) -> (res: Self)
        ensures
            res@ == self@,
    {
        let res = Freezer {
            name: self.name.clone(),
            model: self.model.clone(),
            owner: match &self.owner {
                Some(o) => Some(o.clone()),
                None => None,
            },
            products: self.products.clone(),
        };
        proof {
            assert(res@ =~= self@);
        }
        res
    }
}

} // verus!
