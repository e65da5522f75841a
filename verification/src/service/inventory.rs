//! The inventory store: product reference data and freezer documents.
//!
//! Both stores keep their documents in insertion order, keyed by the unique
//! `name` field.  The freezer store owns the keyed quantity-adjustment
//! protocol: `put_in`, `put_out` and `remove_product` each mutate one
//! document atomically behind the store's exclusive reference, so operations
//! against one key are serialized and no read-modify-write cycle is exposed.
//! The batch recompute procedure reads every document, recomputes all counts
//! from the product defaults, and only then replaces the documents, so a
//! missing default leaves the store untouched.

use crate::errors::Error;
use crate::keyed::{find_key, lemma_find_key, lemma_find_key_first};
use crate::model::{
    dom_covered, map_add, map_defaults, map_sub, add_fits, sub_ok, Counts, Freezer, FreezerView,
    Product, ProductView,
};
use vstd::prelude::*;

verus! {

/// The views of a sequence of freezer documents.
pub open spec fn freezer_views(items: Seq<Freezer>) -> Seq<FreezerView> {
    items.map_values(|f: Freezer| f@)
}

/// The views of a sequence of product documents.
pub open spec fn product_views(items: Seq<Product>) -> Seq<ProductView> {
    items.map_values(|p: Product| p@)
}

/// The primary keys of a freezer sequence, in store order.
pub open spec fn freezer_names(s: Seq<FreezerView>) -> Seq<Seq<char>> {
    s.map_values(|f: FreezerView| f.name)
}

/// The primary keys of a product sequence, in store order.
pub open spec fn product_names(s: Seq<ProductView>) -> Seq<Seq<char>> {
    s.map_values(|p: ProductView| p.name)
}

/// The catalog a product sequence denotes: product name to default count.
pub open spec fn catalog_of(s: Seq<ProductView>) -> Map<Seq<char>, usize> {
    crate::keyed::kv_map(s.map_values(|p: ProductView| (p.name, p.default)))
}

/// A freezer view with its primary key replaced.
pub open spec fn with_name(f: FreezerView, name: Seq<char>) -> FreezerView {
    FreezerView { name, ..f }
}

/// A freezer view with its counts replaced.
pub open spec fn with_products(f: FreezerView, products: Map<Seq<char>, usize>) -> FreezerView {
    FreezerView { products, ..f }
}

/// The store of product reference data, keyed by product name.
pub struct ProductsStore {
    items: Vec<Product>,
}

impl View for ProductsStore {
    type V = Seq<ProductView>;

    closed spec fn view(&self) -> Seq<ProductView> {
        product_views(self.items@)
    }
}

impl ProductsStore {
    #[verifier::type_invariant]
    spec fn wf(self) -> bool {
        product_names(self@).no_duplicates()
    }

    /// An empty product store.
    pub fn new() -> (r: ProductsStore)
        ensures
            r@ == Seq::<ProductView>::empty(),
    {
        let r = ProductsStore { items: Vec::new() };
        proof {
            assert(r@ =~= Seq::<ProductView>::empty());
            assert(product_names(r@) =~= Seq::<Seq<char>>::empty());
        }
        r
    }

    /// Adds a product document; product names are primary keys, so a taken
    /// name is rejected.  (Products are created out of band, not by the
    /// public endpoints.)
    pub fn insert(&mut self, product: Product) -> (r: Result<(), Error>)
        ensures
            find_key(product_names(old(self)@), product@.name) == -1 ==> r is Ok && final(self)@
                == old(self)@.push(product@),
            find_key(product_names(old(self)@), product@.name) >= 0 ==> (r matches Err(e)
                && e is LogicError) && final(self)@ == old(self)@,
    {
        proof {
            use_type_invariant(&*self);
        }
        let ghost v0 = self@;
        let mut es: Vec<Product> = Vec::new();
        core::mem::swap(&mut es, &mut self.items);
        let r = match find_product(&es, product.name.as_str()) {
            Some(i) => {
                proof {
                    assert(product_names(v0)[i as int] == v0[i as int].name);
                    assert(forall|j: int| 0 <= j < i ==> product_names(v0)[j] == v0[j].name);
                    lemma_find_key_first(product_names(v0), product@.name, i as int);
                }
                Err(Error::LogicError("product name already taken".to_owned()))
            },
            None => {
                proof {
                    assert(forall|j: int|
                        0 <= j < v0.len() ==> product_names(v0)[j] == v0[j].name);
                    lemma_find_key(product_names(v0), product@.name);
                    crate::keyed::lemma_no_dup_push(product_names(v0), product@.name);
                }
                es.push(product);
                proof {
                    assert(product_views(es@) =~= v0.push(es@.last()@));
                    assert(product_names(product_views(es@)) =~= product_names(v0).push(
                        es@.last()@.name,
                    ));
                }
                Ok(())
            },
        };
        self.items = es;
        r
    }

    /// Every product document, in store order.
    pub fn products(&self) -> (r: Vec<Product>)
        ensures
            product_views(r@) == self@,
    {
        let mut out: Vec<Product> = Vec::new();
        let mut i: usize = 0;
        while i < self.items.len()
            invariant
                i <= self.items.len(),
                out@.len() == i,
                forall|j: int| 0 <= j < i ==> out@[j]@ == self@[j],
            decreases self.items.len() - i,
        {
            out.push(self.items[i].clone());
            i += 1;
        }
        proof {
            assert(product_views(out@) =~= self@);
        }
        out
    }

    /// Looks a product up by name; a missing document is `NotFound`, not an
    /// internal failure.
    pub fn product(&self, name: &str) -> (r: Result<Product, Error>)
        ensures
            product_post(self@, name@, r),
    {
        match find_product(&self.items, name) {
            Some(i) => {
                proof {
                    assert(product_names(self@)[i as int] == self@[i as int].name);
                    assert(forall|j: int| 0 <= j < i ==> product_names(self@)[j] == self@[j].name);
                    lemma_find_key_first(product_names(self@), name@, i as int);
                }
                Ok(self.items[i].clone())
            },
            None => {
                proof {
                    assert(forall|j: int|
                        0 <= j < self@.len() ==> product_names(self@)[j] == self@[j].name);
                    lemma_find_key(product_names(self@), name@);
                }
                Err(Error::NotFound(name.to_owned()))
            },
        }
    }

    /// The configured defaults as one count map: product name to default.
    pub fn defaults(&self) -> (r: Counts)
        ensures
            r@ == catalog_of(self@),
    {
        proof {
            use_type_invariant(&*self);
        }
        let ghost cp = self@.map_values(|p: ProductView| (p.name, p.default));
        let mut out = Counts::new();
        let mut i: usize = 0;
        while i < self.items.len()
            invariant
                i <= self.items.len(),
                cp == self@.map_values(|p: ProductView| (p.name, p.default)),
                product_names(self@).no_duplicates(),
                out@ == crate::keyed::kv_map(cp.take(i as int)),
            decreases self.items.len() - i,
        {
            let ghost k = self@[i as int].name;
            proof {
                assert forall|j: int| 0 <= j < i implies crate::keyed::keys_of(
                    cp.take(i as int),
                )[j] != k by {
                    assert(crate::keyed::keys_of(cp.take(i as int))[j] == cp[j].0);
                    assert(cp[j].0 == product_names(self@)[j]);
                    assert(product_names(self@)[i as int] == k);
                }
                lemma_find_key(crate::keyed::keys_of(cp.take(i as int)), k);
                crate::keyed::lemma_kv_map_push(cp.take(i as int), k, self@[i as int].default);
                assert(cp.take(i as int + 1) =~= cp.take(i as int).push(
                    (k, self@[i as int].default),
                )) by {
                    assert(cp[i as int] == (k, self@[i as int].default));
                }
            }
            out.set(self.items[i].name.clone(), self.items[i].default);
            i += 1;
        }
        proof {
            assert(cp.take(cp.len() as int) =~= cp);
        }
        out
    }
}

/// Locates the first product document stored under `name`.
fn find_product(items: &Vec<Product>, name: &str) -> (r: Option<usize>)
    ensures
        match r {
            Some(i) => i < items@.len() && product_views(items@)[i as int].name == name@ && (
            forall|j: int| 0 <= j < i ==> product_views(items@)[j].name != name@),
            None => forall|j: int|
                0 <= j < items@.len() ==> product_views(items@)[j].name != name@,
        },
{
    let key: String = name.to_owned();
    let mut i: usize = 0;
    while i < items.len()
        invariant
            i <= items.len(),
            key@ == name@,
            forall|j: int| 0 <= j < i ==> product_views(items@)[j].name != name@,
        decreases items.len() - i,
    {
        if items[i].name == key {
            proof {
                assert(product_views(items@)[i as int].name == items@[i as int].name@);
            }
            return Some(i);
        }
        proof {
            assert(product_views(items@)[i as int].name == items@[i as int].name@);
        }
        i += 1;
    }
    None
}

/// The first index the full listing shows for a page, clipped to the store.
pub open spec fn page_start(len: int, offset: Option<usize>) -> int {
    match offset {
        None => 0,
        Some(o) => if o as int <= len {
            o as int
        } else {
            len
        },
    }
}

/// The index one past a page, clipped to the store.
pub open spec fn page_end(len: int, start: int, limit: Option<usize>) -> int {
    match limit {
        None => len,
        Some(l) => if start + l as int <= len {
            start + l as int
        } else {
            len
        },
    }
}

/// Whether every count of every freezer has a configured default.
pub open spec fn all_covered(s: Seq<FreezerView>, cat: Map<Seq<char>, usize>) -> bool {
    forall|i: int| 0 <= i < s.len() ==> dom_covered(s[i].products, cat)
}

/// The batch recompute procedure at the spec level: every count of every
/// freezer is reset to its configured default; names, models and owners are
/// untouched.
pub open spec fn spec_recompute(s: Seq<FreezerView>, cat: Map<Seq<char>, usize>) -> Seq<
    FreezerView,
> {
    Seq::new(s.len(), |i: int| with_products(s[i], map_defaults(s[i].products, cat)))
}

/// Recomputing is idempotent: a second pass over already-recomputed freezers
/// changes nothing, so re-running the procedure after a partial failure
/// converges to the same final state.
pub proof fn lemma_recompute_idempotent(s: Seq<FreezerView>, cat: Map<Seq<char>, usize>)
    ensures
        all_covered(s, cat) ==> all_covered(spec_recompute(s, cat), cat),
        spec_recompute(spec_recompute(s, cat), cat) =~~= spec_recompute(s, cat),
{
    let r1 = spec_recompute(s, cat);
    let r2 = spec_recompute(r1, cat);
    assert forall|i: int| 0 <= i < s.len() implies r2[i] =~~= r1[i] by {
        crate::model::lemma_defaults_idempotent(s[i].products, cat);
    }
    assert(r2 =~~= r1);
    if all_covered(s, cat) {
        assert forall|i: int| 0 <= i < r1.len() implies dom_covered(r1[i].products, cat) by {
            crate::model::lemma_defaults_idempotent(s[i].products, cat);
        }
    }
}


/// What looking a freezer up guarantees.
pub open spec fn lookup_post(s: Seq<FreezerView>, name: Seq<char>, r: Result<Freezer, Error>) -> bool {
    &&& (find_key(freezer_names(s), name) >= 0 ==> (r matches Ok(f) && f@ == s[find_key(
        freezer_names(s),
        name,
    )]))
    &&& (find_key(freezer_names(s), name) == -1 ==> (r matches Err(e) && e is NotFound))
}

/// What looking a product up guarantees.
pub open spec fn product_post(s: Seq<ProductView>, name: Seq<char>, r: Result<Product, Error>) -> bool {
    &&& (find_key(product_names(s), name) >= 0 ==> (r matches Ok(p) && p@ == s[find_key(
        product_names(s),
        name,
    )]))
    &&& (find_key(product_names(s), name) == -1 ==> (r matches Err(e) && e is NotFound))
}

/// What replacing a freezer document guarantees: everything except the
/// primary key is replaced; a missing key changes nothing.
pub open spec fn update_post(
    v0: Seq<FreezerView>,
    name: Seq<char>,
    f: FreezerView,
    r: Result<Freezer, Error>,
    v1: Seq<FreezerView>,
) -> bool {
    let i = find_key(freezer_names(v0), name);
    &&& (i >= 0 ==> (r matches Ok(stored) && stored@ == with_name(f, name)) && v1 == v0.update(
        i,
        with_name(f, name),
    ))
    &&& (i == -1 ==> (r matches Err(e) && e is NotFound) && v1 == v0)
}

/// What deleting a freezer document guarantees.
pub open spec fn remove_post(
    v0: Seq<FreezerView>,
    name: Seq<char>,
    r: Result<(), Error>,
    v1: Seq<FreezerView>,
) -> bool {
    let i = find_key(freezer_names(v0), name);
    &&& (i >= 0 ==> r is Ok && v1 == v0.remove(i))
    &&& (i == -1 ==> (r matches Err(e) && e is NotFound) && v1 == v0)
}

/// What the put-in primitive guarantees: a missing freezer is `NotFound`, an
/// increment that does not fit is rejected by the quantity policy and
/// changes nothing, and otherwise exactly the one document's counts are
/// incremented.
pub open spec fn put_in_post(
    v0: Seq<FreezerView>,
    name: Seq<char>,
    adds: Map<Seq<char>, usize>,
    r: Result<Freezer, Error>,
    v1: Seq<FreezerView>,
) -> bool {
    let i = find_key(freezer_names(v0), name);
    &&& (i == -1 ==> (r matches Err(e) && e is NotFound) && v1 == v0)
    &&& (i >= 0 && add_fits(v0[i].products, adds) ==> (r matches Ok(stored) && stored@
        == with_products(v0[i], map_add(v0[i].products, adds))) && v1 == v0.update(
        i,
        with_products(v0[i], map_add(v0[i].products, adds)),
    ))
    &&& (i >= 0 && !add_fits(v0[i].products, adds) ==> (r matches Err(e) && e is LogicError)
        && v1 == v0)
}

/// What the put-out primitive guarantees, dual to put-in: a decrement past
/// zero is rejected by the quantity policy and changes nothing.
pub open spec fn put_out_post(
    v0: Seq<FreezerView>,
    name: Seq<char>,
    subs: Map<Seq<char>, usize>,
    r: Result<Freezer, Error>,
    v1: Seq<FreezerView>,
) -> bool {
    let i = find_key(freezer_names(v0), name);
    &&& (i == -1 ==> (r matches Err(e) && e is NotFound) && v1 == v0)
    &&& (i >= 0 && sub_ok(v0[i].products, subs) ==> (r matches Ok(stored) && stored@
        == with_products(v0[i], map_sub(v0[i].products, subs))) && v1 == v0.update(
        i,
        with_products(v0[i], map_sub(v0[i].products, subs)),
    ))
    &&& (i >= 0 && !sub_ok(v0[i].products, subs) ==> (r matches Err(e) && e is LogicError) && v1
        == v0)
}

/// What removing one product entry guarantees: a product key absent from the
/// freezer's map is `NotFound` and the document is unchanged.
pub open spec fn remove_product_post(
    v0: Seq<FreezerView>,
    name: Seq<char>,
    product: Seq<char>,
    r: Result<Freezer, Error>,
    v1: Seq<FreezerView>,
) -> bool {
    let i = find_key(freezer_names(v0), name);
    &&& (i == -1 ==> (r matches Err(e) && e is NotFound) && v1 == v0)
    &&& (i >= 0 && !v0[i].products.contains_key(product) ==> (r matches Err(e) && e is NotFound)
        && v1 == v0)
    &&& (i >= 0 && v0[i].products.contains_key(product) ==> (r matches Ok(stored) && stored@
        == with_products(v0[i], v0[i].products.remove(product))) && v1 == v0.update(
        i,
        with_products(v0[i], v0[i].products.remove(product)),
    ))
}

/// What the batch recompute procedure guarantees: on success every count of
/// every document is reset to its default; a missing default reports the
/// product and leaves every document untouched.
pub open spec fn recompute_post(
    v0: Seq<FreezerView>,
    cat: Map<Seq<char>, usize>,
    r: Result<(), Error>,
    v1: Seq<FreezerView>,
) -> bool {
    &&& (all_covered(v0, cat) ==> r is Ok && v1 == spec_recompute(v0, cat))
    &&& (!all_covered(v0, cat) ==> (r matches Err(e) && e is NotFound) && v1 == v0)
}

/// Inverse law at the store: putting `a` of a present product into a freezer
/// and then taking `a` back out succeeds and restores the store exactly.
pub proof fn lemma_put_in_put_out_store(
    v0: Seq<FreezerView>,
    name: Seq<char>,
    p: Seq<char>,
    a: usize,
    r1: Result<Freezer, Error>,
    v1: Seq<FreezerView>,
    r2: Result<Freezer, Error>,
    v2: Seq<FreezerView>,
)
    requires
        find_key(freezer_names(v0), name) >= 0,
        v0[find_key(freezer_names(v0), name)].products.contains_key(p),
        crate::model::cnt(v0[find_key(freezer_names(v0), name)].products, p) + a <= usize::MAX,
        put_in_post(v0, name, crate::model::single(p, a), r1, v1),
        put_out_post(v1, name, crate::model::single(p, a), r2, v2),
    ensures
        r1 is Ok,
        r2 is Ok,
        v2 =~~= v0,
{
    let d = crate::model::single(p, a);
    let i = find_key(freezer_names(v0), name);
    lemma_find_key(freezer_names(v0), name);
    assert(0 <= i < v0.len());
    crate::model::lemma_put_in_put_out_inverse(v0[i].products, p, a);
    let f1 = with_products(v0[i], map_add(v0[i].products, d));
    assert(v1 == v0.update(i, f1));
    assert(freezer_names(v1) =~= freezer_names(v0)) by {
        assert(forall|j: int| 0 <= j < v1.len() ==> freezer_names(v1)[j] == v1[j].name);
        assert(forall|j: int| 0 <= j < v0.len() ==> freezer_names(v0)[j] == v0[j].name);
    }
    assert(find_key(freezer_names(v1), name) == i);
    assert(v1[i] == f1);
    assert(sub_ok(v1[i].products, d));
    let f2 = with_products(v1[i], map_sub(v1[i].products, d));
    assert(v2 == v1.update(i, f2));
    assert(f2.products =~= v0[i].products);
    assert(f2 =~~= v0[i]);
    assert(v2 =~~= v0);
}

/// Serialized put-ins accumulate: when two put-ins against one freezer both
/// fit, both succeed, the document ends up with both deltas applied, and the
/// result is the same whichever of the two ran first — no increment is lost,
/// however concurrent calls are ordered.
pub proof fn lemma_put_in_serializes(
    v0: Seq<FreezerView>,
    name: Seq<char>,
    d1: Map<Seq<char>, usize>,
    d2: Map<Seq<char>, usize>,
    r1: Result<Freezer, Error>,
    v1: Seq<FreezerView>,
    r2: Result<Freezer, Error>,
    v2: Seq<FreezerView>,
)
    requires
        find_key(freezer_names(v0), name) >= 0,
        add_fits(v0[find_key(freezer_names(v0), name)].products, d1),
        add_fits(map_add(v0[find_key(freezer_names(v0), name)].products, d1), d2),
        put_in_post(v0, name, d1, r1, v1),
        put_in_post(v1, name, d2, r2, v2),
    ensures
        r1 is Ok,
        r2 is Ok,
        v2 =~~= v0.update(
            find_key(freezer_names(v0), name),
            with_products(
                v0[find_key(freezer_names(v0), name)],
                map_add(
                    map_add(v0[find_key(freezer_names(v0), name)].products, d1),
                    d2,
                ),
            ),
        ),
        map_add(map_add(v0[find_key(freezer_names(v0), name)].products, d1), d2) =~= map_add(
            map_add(v0[find_key(freezer_names(v0), name)].products, d2),
            d1,
        ),
{
    let i = find_key(freezer_names(v0), name);
    lemma_find_key(freezer_names(v0), name);
    assert(0 <= i < v0.len());
    let m = v0[i].products;
    let f1 = with_products(v0[i], map_add(m, d1));
    assert(v1 == v0.update(i, f1));
    assert(freezer_names(v1) =~= freezer_names(v0)) by {
        assert(forall|j: int| 0 <= j < v1.len() ==> freezer_names(v1)[j] == v1[j].name);
        assert(forall|j: int| 0 <= j < v0.len() ==> freezer_names(v0)[j] == v0[j].name);
    }
    assert(find_key(freezer_names(v1), name) == i);
    assert(v1[i] == f1);
    let f2 = with_products(v1[i], map_add(v1[i].products, d2));
    assert(v2 == v1.update(i, f2));
    assert(f2 =~~= with_products(v0[i], map_add(map_add(m, d1), d2)));
    assert(v2 =~~= v0.update(i, with_products(v0[i], map_add(map_add(m, d1), d2))));
    crate::model::lemma_add_commutes(m, d1, d2);
}

/// The store of freezer documents, keyed by freezer name.  Its exclusive
/// reference serializes all mutation of a document, which is what makes the
/// quantity adjustments below atomic per key.
pub struct FreezersStore {
    items: Vec<Freezer>,
}

impl View for FreezersStore {
    type V = Seq<FreezerView>;

    closed spec fn view(&self) -> Seq<FreezerView> {
        freezer_views(self.items@)
    }
}

/// `find_key` facts for a located freezer.
proof fn lemma_freezer_found_at(s: Seq<FreezerView>, name: Seq<char>, i: int)
    requires
        0 <= i < s.len(),
        s[i].name == name,
        forall|j: int| 0 <= j < i ==> s[j].name != name,
    ensures
        find_key(freezer_names(s), name) == i,
{
    assert(forall|j: int| 0 <= j < s.len() ==> freezer_names(s)[j] == s[j].name);
    lemma_find_key_first(freezer_names(s), name, i);
}

/// `find_key` facts for an absent freezer name.
proof fn lemma_freezer_absent(s: Seq<FreezerView>, name: Seq<char>)
    requires
        forall|j: int| 0 <= j < s.len() ==> s[j].name != name,
    ensures
        find_key(freezer_names(s), name) == -1,
{
    assert(forall|j: int| 0 <= j < s.len() ==> freezer_names(s)[j] == s[j].name);
    lemma_find_key(freezer_names(s), name);
}

impl FreezersStore {
    #[verifier::type_invariant]
    spec fn wf(self) -> bool {
        freezer_names(self@).no_duplicates()
    }

    /// An empty freezer store.
    pub fn new() -> (r: FreezersStore)
        ensures
            r@ == Seq::<FreezerView>::empty(),
    {
        let r = FreezersStore { items: Vec::new() };
        proof {
            assert(r@ =~= Seq::<FreezerView>::empty());
            assert(freezer_names(r@) =~= Seq::<Seq<char>>::empty());
        }
        r
    }

    /// Adds a freezer document; freezer names are primary keys, so a taken
    /// name is rejected.  (Freezers are created out of band, not by the
    /// public endpoints.)
    pub fn insert(&mut self, freezer: Freezer) -> (r: Result<(), Error>)
        ensures
            find_key(freezer_names(old(self)@), freezer@.name) == -1 ==> r is Ok && final(self)@
                == old(self)@.push(freezer@),
            find_key(freezer_names(old(self)@), freezer@.name) >= 0 ==> (r matches Err(e)
                && e is LogicError) && final(self)@ == old(self)@,
    {
        proof {
            use_type_invariant(&*self);
        }
        let ghost v0 = self@;
        let mut es: Vec<Freezer> = Vec::new();
        core::mem::swap(&mut es, &mut self.items);
        let r = match find_freezer(&es, freezer.name.as_str()) {
            Some(i) => {
                proof {
                    lemma_freezer_found_at(v0, freezer@.name, i as int);
                }
                Err(Error::LogicError("freezer name already taken".to_owned()))
            },
            None => {
                proof {
                    lemma_freezer_absent(v0, freezer@.name);
                    assert(forall|j: int|
                        0 <= j < v0.len() ==> freezer_names(v0)[j] == v0[j].name);
                    crate::keyed::lemma_no_dup_push(freezer_names(v0), freezer@.name);
                }
                es.push(freezer);
                proof {
                    assert(freezer_views(es@) =~= v0.push(es@.last()@));
                    assert(freezer_names(freezer_views(es@)) =~= freezer_names(v0).push(
                        es@.last()@.name,
                    ));
                }
                Ok(())
            },
        };
        self.items = es;
        r
    }

    /// Every freezer document, in store order.
    pub fn freezers(&self) -> (r: Vec<Freezer>)
        ensures
            freezer_views(r@) == self@,
    {
        let mut out: Vec<Freezer> = Vec::new();
        let mut i: usize = 0;
        while i < self.items.len()
            invariant
                i <= self.items.len(),
                out@.len() == i,
                forall|j: int| 0 <= j < i ==> out@[j]@ == self@[j],
            decreases self.items.len() - i,
        {
            out.push(self.items[i].clone());
            i += 1;
        }
        proof {
            assert(freezer_views(out@) =~= self@);
        }
        out
    }

    /// Every freezer name, in store order.
    pub fn freezers_list(&self) -> (r: Vec<String>)
        ensures
            r@.map_values(|s: String| s@) == freezer_names(self@),
    {
        let r = self.freezers_list_by(None, None);
        proof {
            assert(freezer_names(self@).subrange(0, freezer_names(self@).len() as int)
                =~= freezer_names(self@));
        }
        r
    }

    /// One page of the freezer listing: the names at ordinal positions
    /// `offset..offset+limit` of the full store-ordered listing, clipped to
    /// the store.
    pub fn freezers_list_by(&self, limit: Option<usize>, offset: Option<usize>) -> (r: Vec<
        String,
    >)
        ensures
            r@.map_values(|s: String| s@) == freezer_names(self@).subrange(
                page_start(self@.len() as int, offset),
                page_end(
                    self@.len() as int,
                    page_start(self@.len() as int, offset),
                    limit,
                ),
            ),
    {
        let len = self.items.len();
        let start: usize = match offset {
            None => 0,
            Some(o) => if o <= len {
                o
            } else {
                len
            },
        };
        let end: usize = match limit {
            None => len,
            Some(l) => if l <= len - start {
                start + l
            } else {
                len
            },
        };
        let mut out: Vec<String> = Vec::new();
        let mut i: usize = start;
        while i < end
            invariant
                start <= i <= end,
                end <= self.items@.len(),
                self@.len() == self.items@.len(),
                out@.len() == i - start,
                forall|j: int| 0 <= j < out@.len() ==> out@[j]@ == self@[start + j].name,
            decreases end - i,
        {
            out.push(self.items[i].name.clone());
            proof {
                assert(out@[(i - start) as int]@ == self@[i as int].name);
            }
            i += 1;
        }
        proof {
            assert(out@.map_values(|s: String| s@) =~= freezer_names(self@).subrange(
                start as int,
                end as int,
            )) by {
                assert(forall|j: int|
                    0 <= j < self@.len() ==> freezer_names(self@)[j] == self@[j].name);
            }
        }
        out
    }

    /// Looks a freezer up by name; a missing document is `NotFound`.
    pub fn freezer(&self, name: &str) -> (r: Result<Freezer, Error>)
        ensures
            lookup_post(self@, name@, r),
    {
        match find_freezer(&self.items, name) {
            Some(i) => {
                proof {
                    lemma_freezer_found_at(self@, name@, i as int);
                }
                Ok(self.items[i].clone())
            },
            None => {
                proof {
                    lemma_freezer_absent(self@, name@);
                }
                Err(Error::NotFound(name.to_owned()))
            },
        }
    }

    /// Whole-document replace of everything except the primary key.  The
    /// stored document keeps the key it was looked up under; a missing key
    /// is `NotFound` and nothing changes.
    pub fn update(&mut self, name: &str, freezer: Freezer) -> (r: Result<Freezer, Error>)
        ensures
            update_post(old(self)@, name@, freezer@, r, final(self)@),
    {
        proof {
            use_type_invariant(&*self);
        }
        let ghost v0 = self@;
        let mut es: Vec<Freezer> = Vec::new();
        core::mem::swap(&mut es, &mut self.items);
        let r = match find_freezer(&es, name) {
            Some(i) => {
                proof {
                    lemma_freezer_found_at(v0, name@, i as int);
                }
                let mut nf = freezer;
                nf.name = es[i].name.clone();
                let stored = nf.clone();
                let ghost nfv = nf@;
                es[i] = nf;
                proof {
                    assert(nfv =~= with_name(stored@, name@));
                    assert(freezer_views(es@) =~= v0.update(i as int, nfv));
                    assert(freezer_names(freezer_views(es@)) =~= freezer_names(v0));
                }
                Ok(stored)
            },
            None => {
                proof {
                    lemma_freezer_absent(v0, name@);
                }
                Err(Error::NotFound(name.to_owned()))
            },
        };
        self.items = es;
        r
    }

    /// Deletes a freezer document; a missing key is `NotFound` and nothing
    /// changes.
    pub fn remove(&mut self, name: &str) -> (r: Result<(), Error>)
        ensures
            remove_post(old(self)@, name@, r, final(self)@),
    {
        proof {
            use_type_invariant(&*self);
        }
        let ghost v0 = self@;
        let mut es: Vec<Freezer> = Vec::new();
        core::mem::swap(&mut es, &mut self.items);
        let r = match find_freezer(&es, name) {
            Some(i) => {
                proof {
                    lemma_freezer_found_at(v0, name@, i as int);
                    assert(forall|j: int|
                        0 <= j < v0.len() ==> freezer_names(v0)[j] == v0[j].name);
                    crate::keyed::lemma_no_dup_remove(freezer_names(v0), i as int);
                }
                let _ = es.remove(i);
                proof {
                    assert(freezer_views(es@) =~= v0.remove(i as int));
                    assert(freezer_names(freezer_views(es@)) =~= freezer_names(v0).remove(
                        i as int,
                    ));
                }
                Ok(())
            },
            None => {
                proof {
                    lemma_freezer_absent(v0, name@);
                }
                Err(Error::NotFound(name.to_owned()))
            },
        };
        self.items = es;
        r
    }

    /// The put-in primitive: atomically increments the named freezer's
    /// counts by `adds`, creating entries for new product names.  A missing
    /// freezer is `NotFound`; an increment that would not fit is rejected by
    /// the quantity policy.  On any failure nothing changes.
    pub fn put_in(&mut self, name: &str, adds: &Counts) -> (r: Result<Freezer, Error>)
        ensures
            put_in_post(old(self)@, name@, adds@, r, final(self)@),
    {
        proof {
            use_type_invariant(&*self);
        }
        let ghost v0 = self@;
        let mut es: Vec<Freezer> = Vec::new();
        core::mem::swap(&mut es, &mut self.items);
        let r = match find_freezer(&es, name) {
            Some(i) => {
                proof {
                    lemma_freezer_found_at(v0, name@, i as int);
                }
                let mut f = es[i].clone();
                match f.products.add_all(adds) {
                    Ok(_) => {
                        let stored = f.clone();
                        let ghost nfv = f@;
                        es[i] = f;
                        proof {
                            assert(nfv =~= with_products(v0[i as int], map_add(
                                v0[i as int].products,
                                adds@,
                            )));
                            assert(freezer_views(es@) =~= v0.update(i as int, nfv));
                            assert(freezer_names(freezer_views(es@)) =~= freezer_names(v0));
                        }
                        Ok(stored)
                    },
                    Err(e) => Err(e),
                }
            },
            None => {
                proof {
                    lemma_freezer_absent(v0, name@);
                }
                Err(Error::NotFound(name.to_owned()))
            },
        };
        self.items = es;
        r
    }

    /// The put-out primitive: atomically decrements the named freezer's
    /// counts by `subs`; a subtracted product that the freezer does not hold
    /// is left alone.  A missing freezer is `NotFound`; a decrement below
    /// zero is rejected by the quantity policy.  On any failure nothing
    /// changes.
    pub fn put_out(&mut self, name: &str, subs: &Counts) -> (r: Result<Freezer, Error>)
        ensures
            put_out_post(old(self)@, name@, subs@, r, final(self)@),
    {
        proof {
            use_type_invariant(&*self);
        }
        let ghost v0 = self@;
        let mut es: Vec<Freezer> = Vec::new();
        core::mem::swap(&mut es, &mut self.items);
        let r = match find_freezer(&es, name) {
            Some(i) => {
                proof {
                    lemma_freezer_found_at(v0, name@, i as int);
                }
                let mut f = es[i].clone();
                match f.products.sub_all(subs) {
                    Ok(_) => {
                        let stored = f.clone();
                        let ghost nfv = f@;
                        es[i] = f;
                        proof {
                            assert(nfv =~= with_products(v0[i as int], map_sub(
                                v0[i as int].products,
                                subs@,
                            )));
                            assert(freezer_views(es@) =~= v0.update(i as int, nfv));
                            assert(freezer_names(freezer_views(es@)) =~= freezer_names(v0));
                        }
                        Ok(stored)
                    },
                    Err(e) => Err(e),
                }
            },
            None => {
                proof {
                    lemma_freezer_absent(v0, name@);
                }
                Err(Error::NotFound(name.to_owned()))
            },
        };
        self.items = es;
        r
    }

    /// Removes one product entry from the named freezer's counts.  A missing
    /// freezer, or a product key absent from the freezer's map, is
    /// `NotFound` and leaves the document unchanged.
    pub fn remove_product(&mut self, name: &str, product: &str) -> (r: Result<Freezer, Error>)
        ensures
            remove_product_post(old(self)@, name@, product@, r, final(self)@),
    {
        proof {
            use_type_invariant(&*self);
        }
        let ghost v0 = self@;
        let mut es: Vec<Freezer> = Vec::new();
        core::mem::swap(&mut es, &mut self.items);
        let r = match find_freezer(&es, name) {
            Some(i) => {
                proof {
                    lemma_freezer_found_at(v0, name@, i as int);
                }
                let mut f = es[i].clone();
                match f.products.remove(product) {
                    Some(_) => {
                        let stored = f.clone();
                        let ghost nfv = f@;
                        es[i] = f;
                        proof {
                            assert(nfv =~= with_products(v0[i as int], v0[
                                i as int
                            ].products.remove(product@)));
                            assert(freezer_views(es@) =~= v0.update(i as int, nfv));
                            assert(freezer_names(freezer_views(es@)) =~= freezer_names(v0));
                        }
                        Ok(stored)
                    },
                    None => Err(Error::NotFound(product.to_owned())),
                }
            },
            None => {
                proof {
                    lemma_freezer_absent(v0, name@);
                }
                Err(Error::NotFound(name.to_owned()))
            },
        };
        self.items = es;
        r
    }

    /// The batch recompute procedure: resets every count of every freezer to
    /// that product's configured default.  All documents are read and
    /// recomputed before any is written, so a product without a default is
    /// `NotFound` and the store is untouched; on success every document is
    /// replaced.
    pub fn recompute(&mut self, products: &ProductsStore) -> (r: Result<(), Error>)
        ensures
            recompute_post(old(self)@, catalog_of(products@), r, final(self)@),
    {
        proof {
            use_type_invariant(&*self);
        }
        let ghost v0 = self@;
        let defaults = products.defaults();
        let mut pack: Vec<Freezer> = Vec::new();
        let mut i: usize = 0;
        while i < self.items.len()
            invariant
                i <= self.items.len(),
                self@ == v0,
                self@.len() == self.items@.len(),
                defaults@ == catalog_of(products@),
                pack@.len() == i,
                forall|j: int| 0 <= j < i ==> dom_covered(v0[j].products, defaults@),
                forall|j: int|
                    0 <= j < i ==> pack@[j]@ == with_products(v0[j], map_defaults(
                        v0[j].products,
                        defaults@,
                    )),
            decreases self.items.len() - i,
        {
            let f = &self.items[i];
            match f.products.apply_defaults(&defaults) {
                Err(e) => {
                    proof {
                        assert(!dom_covered(v0[i as int].products, defaults@));
                    }
                    return Err(e);
                },
                Ok(c) => {
                    pack.push(
                        Freezer {
                            name: f.name.clone(),
                            model: f.model.clone(),
                            owner: match &f.owner {
                                Some(o) => Some(o.clone()),
                                None => None,
                            },
                            products: c,
                        },
                    );
                    proof {
                        assert(pack@[i as int]@ =~= with_products(v0[i as int], map_defaults(
                            v0[i as int].products,
                            defaults@,
                        )));
                    }
                },
            }
            i += 1;
        }
        proof {
            assert(freezer_views(pack@) =~= spec_recompute(v0, defaults@));
            assert(freezer_names(freezer_views(pack@)) =~= freezer_names(v0));
        }
        self.items = pack;
        Ok(())
    }
}

/// Locates the first freezer document stored under `name`.
fn find_freezer(items: &Vec<Freezer>, name: &str) -> (r: Option<usize>)
    ensures
        match r {
            Some(i) => i < items@.len() && freezer_views(items@)[i as int].name == name@ && (
            forall|j: int| 0 <= j < i ==> freezer_views(items@)[j].name != name@),
            None => forall|j: int|
                0 <= j < items@.len() ==> freezer_views(items@)[j].name != name@,
        },
{
    let key: String = name.to_owned();
    let mut i: usize = 0;
    while i < items.len()
        invariant
            i <= items.len(),
            key@ == name@,
            forall|j: int| 0 <= j < i ==> freezer_views(items@)[j].name != name@,
        decreases items.len() - i,
    {
        if items[i].name == key {
            proof {
                assert(freezer_views(items@)[i as int].name == items@[i as int].name@);
            }
            return Some(i);
        }
        proof {
            assert(freezer_views(items@)[i as int].name == items@[i as int].name@);
        }
        i += 1;
    }
    None
}

/// Maps a freezer lookup result to the freezer's primary key.
pub fn into_id(freezer: Result<Freezer, Error>) -> (r: Result<String, Error>)
    ensures
        match freezer {
            Ok(f) => r matches Ok(s) && s@ == f@.name,
            Err(e) => r == Err::<String, Error>(e),
        },
{
    match freezer {
        Ok(f) => Ok(f.name),
        Err(e) => Err(e),
    }
}

} // verus!
