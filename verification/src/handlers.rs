//! The endpoint cores behind the HTTP surface.
//!
//! Each protected operation declares its required-role set and runs the
//! authorization guard before anything else: a caller whose roles (produced
//! by the extractor) meet the set reaches the store operation, every other
//! caller gets the same Unauthorized denial and the stores are untouched.
//! Listing and reading run unconditionally.  There is no second check inside
//! any operation.

use crate::auth::{has_any_role, spec_any_role, Role};
use crate::errors::Error;
use crate::model::{Counts, Freezer, Product};
use crate::service::inventory::{
    catalog_of, freezer_names, lookup_post, page_end, page_start, product_post, product_views,
    put_in_post, put_out_post, recompute_post, remove_post, remove_product_post, update_post,
};
use crate::service::{FreezersStore, ImageStore, ProductsStore};
use vstd::prelude::*;
use vstd::string::StringSliceAdditionalSpecFns;

verus! {

/// Pagination query parameters.
#[derive(Debug)]
pub struct LimitQuery {
    pub limit: Option<usize>,
    pub offset: Option<usize>,
}

/// The roles that may adjust inventory: moderators and administrators.
pub open spec fn modify_roles() -> Seq<Role> {
    seq![Role::Moder, Role::Admin]
}

/// The roles that may delete containers, replace images or run the batch
/// procedure: administrators alone.
pub open spec fn admin_roles() -> Seq<Role> {
    seq![Role::Admin]
}

/// The moderator-or-administrator required set.
fn moder_admin() -> (r: Vec<Role>)
    ensures
        r@ == modify_roles(),
{
    let mut v: Vec<Role> = Vec::new();
    v.push(Role::Moder);
    v.push(Role::Admin);
    proof {
        assert(v@ =~= modify_roles());
    }
    v
}

/// The administrator-only required set.
fn admin_only() -> (r: Vec<Role>)
    ensures
        r@ == admin_roles(),
{
    let mut v: Vec<Role> = Vec::new();
    v.push(Role::Admin);
    proof {
        assert(v@ =~= admin_roles());
    }
    v
}

/// The one denial every failed guard surfaces: it does not say whether no
/// identity was held or the role was wrong.
fn denied() -> (r: Error)
    ensures
        r is Unauth,
{
    Error::Unauth("access denied".to_owned())
}

/// Lists every product.  Unprotected; the query is accepted and ignored, the
/// full catalog is returned.
pub fn get_products(_query: LimitQuery, store: &ProductsStore) -> (r: Vec<Product>)
    ensures
        product_views(r@) == store@,
{
    store.products()
}

/// Reads one product by name.  Unprotected.
pub fn one_product(product: &str, store: &ProductsStore) -> (r: Result<Product, Error>)
    ensures
        product_post(store@, product@, r),
{
    store.product(product)
}

/// Puts products into a freezer: requires Moderator or Admin, then delegates
/// to the store's atomic increment.
pub fn put_in(roles: &[Role], freezer: &str, prods: &Counts, store: &mut FreezersStore) -> (r:
    Result<Freezer, Error>)
    ensures
        !spec_any_role(roles@, modify_roles()) ==> (r matches Err(e) && e is Unauth) && final(store)@ == old(store)@,
        spec_any_role(roles@, modify_roles()) ==> put_in_post(
            old(store)@,
            freezer@,
            prods@,
            r,
            final(store)@,
        ),
{
    let required = moder_admin();
    if !has_any_role(roles, required.as_slice()) {
        return Err(denied());
    }
    store.put_in(freezer, prods)
}

/// Takes products out of a freezer: requires Moderator or Admin, then
/// delegates to the store's atomic decrement.
pub fn put_out(roles: &[Role], freezer: &str, prods: &Counts, store: &mut FreezersStore) -> (r:
    Result<Freezer, Error>)
    ensures
        !spec_any_role(roles@, modify_roles()) ==> (r matches Err(e) && e is Unauth) && final(store)@ == old(store)@,
        spec_any_role(roles@, modify_roles()) ==> put_out_post(
            old(store)@,
            freezer@,
            prods@,
            r,
            final(store)@,
        ),
{
    let required = moder_admin();
    if !has_any_role(roles, required.as_slice()) {
        return Err(denied());
    }
    store.put_out(freezer, prods)
}

/// Removes one product entry from a freezer: requires Moderator or Admin.
pub fn remove_product(
    roles: &[Role],
    freezer: &str,
    product: &str,
    store: &mut FreezersStore,
) -> (r: Result<Freezer, Error>)
    ensures
        !spec_any_role(roles@, modify_roles()) ==> (r matches Err(e) && e is Unauth) && final(store)@ == old(store)@,
        spec_any_role(roles@, modify_roles()) ==> remove_product_post(
            old(store)@,
            freezer@,
            product@,
            r,
            final(store)@,
        ),
{
    let required = moder_admin();
    if !has_any_role(roles, required.as_slice()) {
        return Err(denied());
    }
    store.remove_product(freezer, product)
}

/// Lists freezer names, one page: exactly the names at ordinal positions
/// `offset..offset+limit` of the full store-ordered listing.  Unprotected.
pub fn get_freezers(query: LimitQuery, store: &FreezersStore) -> (r: Vec<String>)
    ensures
        r@.map_values(|s: String| s@) == freezer_names(store@).subrange(
            page_start(store@.len() as int, query.offset),
            page_end(store@.len() as int, page_start(store@.len() as int, query.offset), query.limit),
        ),
{
    store.freezers_list_by(query.limit, query.offset)
}

/// Reads one freezer by name.  Unprotected.
pub fn one_freezer(freezer: &str, store: &FreezersStore) -> (r: Result<Freezer, Error>)
    ensures
        lookup_post(store@, freezer@, r),
{
    store.freezer(freezer)
}

/// Replaces a freezer document under its own name: requires Moderator or
/// Admin.
pub fn update_freezer(roles: &[Role], freezer: Freezer, store: &mut FreezersStore) -> (r: Result<
    Freezer,
    Error,
>)
    ensures
        !spec_any_role(roles@, modify_roles()) ==> (r matches Err(e) && e is Unauth) && final(store)@ == old(store)@,
        spec_any_role(roles@, modify_roles()) ==> update_post(
            old(store)@,
            freezer@.name,
            freezer@,
            r,
            final(store)@,
        ),
{
    let required = moder_admin();
    if !has_any_role(roles, required.as_slice()) {
        return Err(denied());
    }
    let name = freezer.name.clone();
    store.update(name.as_str(), freezer)
}

/// Deletes a freezer document: requires Admin.
pub fn remove_freezer(roles: &[Role], freezer: &str, store: &mut FreezersStore) -> (r: Result<
    (),
    Error,
>)
    ensures
        !spec_any_role(roles@, admin_roles()) ==> (r matches Err(e) && e is Unauth) && final(store)@ == old(store)@,
        spec_any_role(roles@, admin_roles()) ==> remove_post(
            old(store)@,
            freezer@,
            r,
            final(store)@,
        ),
{
    let required = admin_only();
    if !has_any_role(roles, required.as_slice()) {
        return Err(denied());
    }
    store.remove(freezer)
}

/// Serves a freezer's image: the cached bytes, or the caller's fallback
/// asset on a miss.  Unprotected, and never a failure.
pub fn image(freezer: &str, store: &ImageStore, fallback: Vec<u8>) -> (r: Vec<u8>)
    ensures
        store@.contains_key(freezer.spec_bytes()) ==> r@ == store@[freezer.spec_bytes()],
        !store@.contains_key(freezer.spec_bytes()) ==> r@ == fallback@,
{
    match store.image(freezer.as_bytes()) {
        Some(bytes) => bytes,
        None => fallback,
    }
}

/// Stores a freezer's image: requires Admin.
pub fn post_image(roles: &[Role], freezer: &str, img: &[u8], store: &mut ImageStore) -> (r:
    Result<(), Error>)
    ensures
        !spec_any_role(roles@, admin_roles()) ==> (r matches Err(e) && e is Unauth) && final(store)@ == old(store)@,
        spec_any_role(roles@, admin_roles()) ==> r is Ok && final(store)@ == old(store)@.insert(
            freezer.spec_bytes(),
            img@,
        ),
{
    let required = admin_only();
    if !has_any_role(roles, required.as_slice()) {
        return Err(denied());
    }
    store.load(freezer.as_bytes(), img);
    Ok(())
}

/// Drops a freezer's image: requires Moderator or Admin.
pub fn remove_image(roles: &[Role], freezer: &str, store: &mut ImageStore) -> (r: Result<
    (),
    Error,
>)
    ensures
        !spec_any_role(roles@, modify_roles()) ==> (r matches Err(e) && e is Unauth) && final(store)@ == old(store)@,
        spec_any_role(roles@, modify_roles()) ==> r is Ok && final(store)@ == old(store)@.remove(freezer.spec_bytes()),
{
    let required = moder_admin();
    if !has_any_role(roles, required.as_slice()) {
        return Err(denied());
    }
    store.remove(freezer.as_bytes());
    Ok(())
}

/// Runs the batch recompute procedure over every freezer: requires Admin.
pub fn stored_procedure(
    roles: &[Role],
    store: &mut FreezersStore,
    products: &ProductsStore,
) -> (r: Result<(), Error>)
    ensures
        !spec_any_role(roles@, admin_roles()) ==> (r matches Err(e) && e is Unauth) && final(store)@ == old(store)@,
        spec_any_role(roles@, admin_roles()) ==> recompute_post(
            old(store)@,
            catalog_of(products@),
            r,
            final(store)@,
        ),
{
    let required = admin_only();
    if !has_any_role(roles, required.as_slice()) {
        return Err(denied());
    }
    store.recompute(products)
}

} // verus!
