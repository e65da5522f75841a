use freezer::auth::Role;
use freezer::errors::Error;
use freezer::handlers::{
    get_freezers, get_products, one_freezer, one_product, put_in, put_out, remove_freezer,
    remove_product, stored_procedure, update_freezer, LimitQuery,
};
use freezer::model::{Counts, Freezer, Model, Product};
use freezer::service::inventory::into_id;
use freezer::service::{FreezersStore, ProductsStore};

fn counts(pairs: &[(&str, usize)]) -> Counts {
    let mut c = Counts::new();
    for (name, value) in pairs {
        c.set(name.to_string(), *value);
    }
    c
}

fn fz(name: &str, pairs: &[(&str, usize)]) -> Freezer {
    Freezer {
        name: name.to_string(),
        model: Model { name: "arctic".to_string(), year: 2021 },
        owner: None,
        products: counts(pairs),
    }
}

fn store_with(freezers: Vec<Freezer>) -> FreezersStore {
    let mut store = FreezersStore::new();
    for f in freezers {
        store.insert(f).unwrap();
    }
    store
}

#[test]
fn test_put_in_put_out_scenario() {
    let moder = vec![Role::Moder];
    let mut store = store_with(vec![fz("fz1", &[("milk", 5)])]);

    let after_in = put_in(&moder, "fz1", &counts(&[("milk", 3)]), &mut store).unwrap();
    assert_eq!(after_in.products.get("milk"), Some(8));

    let after_out = put_out(&moder, "fz1", &counts(&[("milk", 2)]), &mut store).unwrap();
    assert_eq!(after_out.products.get("milk"), Some(6));

    match remove_product(&moder, "fz1", "sugar", &mut store) {
        Err(e) => assert_eq!(e.status_code(), 404),
        Ok(_) => panic!("removing an absent product key must fail"),
    }
    let unchanged = one_freezer("fz1", &store).unwrap();
    assert_eq!(unchanged.products.get("milk"), Some(6));
}

#[test]
fn test_remove_product_present() {
    let moder = vec![Role::Moder];
    let mut store = store_with(vec![fz("fz1", &[("milk", 5), ("beer", 2)])]);
    let after = remove_product(&moder, "fz1", "beer", &mut store).unwrap();
    assert_eq!(after.products.get("beer"), None);
    assert_eq!(after.products.get("milk"), Some(5));
}

#[test]
fn test_put_in_then_put_out_restores() {
    let moder = vec![Role::Moder];
    let mut store = store_with(vec![fz("fz1", &[("milk", 5)])]);
    let _ = put_in(&moder, "fz1", &counts(&[("milk", 7)]), &mut store).unwrap();
    let restored = put_out(&moder, "fz1", &counts(&[("milk", 7)]), &mut store).unwrap();
    assert_eq!(restored.products.get("milk"), Some(5));
}

#[test]
fn test_serialized_increments_sum() {
    let moder = vec![Role::Moder];
    let mut store = store_with(vec![fz("fz1", &[("milk", 0)])]);
    let delta = counts(&[("milk", 3)]);
    for _ in 0..10 {
        put_in(&moder, "fz1", &delta, &mut store).unwrap();
    }
    let f = one_freezer("fz1", &store).unwrap();
    assert_eq!(f.products.get("milk"), Some(30));
}

#[test]
fn test_put_in_creates_entry() {
    let moder = vec![Role::Admin];
    let mut store = store_with(vec![fz("fz1", &[("milk", 1)])]);
    let after = put_in(&moder, "fz1", &counts(&[("beer", 4)]), &mut store).unwrap();
    assert_eq!(after.products.get("beer"), Some(4));
    assert_eq!(after.products.get("milk"), Some(1));
}

#[test]
fn test_put_out_underflow_rejected() {
    let moder = vec![Role::Moder];
    let mut store = store_with(vec![fz("fz1", &[("milk", 2)])]);
    match put_out(&moder, "fz1", &counts(&[("milk", 3)]), &mut store) {
        Err(e) => assert_eq!(e.status_code(), 422),
        Ok(_) => panic!("an underflow must be rejected"),
    }
    let unchanged = one_freezer("fz1", &store).unwrap();
    assert_eq!(unchanged.products.get("milk"), Some(2));
}

#[test]
fn test_put_out_absent_key_untouched() {
    let moder = vec![Role::Moder];
    let mut store = store_with(vec![fz("fz1", &[("milk", 2)])]);
    let after = put_out(&moder, "fz1", &counts(&[("beer", 9)]), &mut store).unwrap();
    assert_eq!(after.products.get("beer"), None);
    assert_eq!(after.products.get("milk"), Some(2));
}

#[test]
fn test_put_in_overflow_rejected() {
    let moder = vec![Role::Moder];
    let mut store = store_with(vec![fz("fz1", &[("milk", usize::MAX - 1)])]);
    match put_in(&moder, "fz1", &counts(&[("milk", 2)]), &mut store) {
        Err(e) => assert_eq!(e.status_code(), 422),
        Ok(_) => panic!("an overflowing increment must be rejected"),
    }
    let unchanged = one_freezer("fz1", &store).unwrap();
    assert_eq!(unchanged.products.get("milk"), Some(usize::MAX - 1));
}

#[test]
fn test_guard_denies_without_role() {
    let nobody: Vec<Role> = vec![];
    let user = vec![Role::User];
    let mut store = store_with(vec![fz("fz1", &[("milk", 5)])]);

    for roles in [&nobody, &user] {
        match put_in(roles, "fz1", &counts(&[("milk", 3)]), &mut store) {
            Err(e) => assert_eq!(e.status_code(), 401),
            Ok(_) => panic!("denial expected"),
        }
    }
    let unchanged = one_freezer("fz1", &store).unwrap();
    assert_eq!(unchanged.products.get("milk"), Some(5));

    // Deleting a freezer needs Admin: a moderator is denied the same way.
    let moder = vec![Role::Moder];
    match remove_freezer(&moder, "fz1", &mut store) {
        Err(e) => assert_eq!(e.status_code(), 401),
        Ok(_) => panic!("remove_freezer must require Admin"),
    }
}

#[test]
fn test_put_in_missing_freezer() {
    let moder = vec![Role::Moder];
    let mut store = store_with(vec![fz("fz1", &[])]);
    match put_in(&moder, "fz9", &counts(&[("milk", 1)]), &mut store) {
        Err(e) => assert_eq!(e.status_code(), 404),
        Ok(_) => panic!("a missing freezer must be NotFound"),
    }
}

#[test]
fn test_pagination_window() {
    let store = store_with(vec![
        fz("alpha", &[]),
        fz("beta", &[]),
        fz("gamma", &[]),
        fz("delta", &[]),
    ]);
    let page = get_freezers(
        LimitQuery { limit: Some(2), offset: Some(1) },
        &store,
    );
    assert_eq!(page, vec!["beta".to_string(), "gamma".to_string()]);
}

#[test]
fn test_pagination_clipping() {
    let store = store_with(vec![fz("alpha", &[]), fz("beta", &[])]);
    let all = get_freezers(LimitQuery { limit: None, offset: None }, &store);
    assert_eq!(all, vec!["alpha".to_string(), "beta".to_string()]);

    let tail = get_freezers(LimitQuery { limit: Some(5), offset: Some(1) }, &store);
    assert_eq!(tail, vec!["beta".to_string()]);

    let past = get_freezers(LimitQuery { limit: Some(2), offset: Some(9) }, &store);
    assert!(past.is_empty());

    let none = get_freezers(LimitQuery { limit: Some(0), offset: None }, &store);
    assert!(none.is_empty());
}

#[test]
fn test_update_freezer_replaces_document() {
    let moder = vec![Role::Moder];
    let mut store = store_with(vec![fz("fz1", &[("milk", 5)])]);
    let replacement = Freezer {
        name: "fz1".to_string(),
        model: Model { name: "polar".to_string(), year: 2024 },
        owner: Some("erin".to_string()),
        products: counts(&[("beer", 1)]),
    };
    let stored = update_freezer(&moder, replacement, &mut store).unwrap();
    assert_eq!(stored.model.name, "polar".to_string());
    assert_eq!(stored.model.year, 2024);
    assert_eq!(stored.owner, Some("erin".to_string()));
    assert_eq!(stored.products.get("milk"), None);
    assert_eq!(stored.products.get("beer"), Some(1));

    let read_back = one_freezer("fz1", &store).unwrap();
    assert_eq!(read_back.model.year, 2024);
}

#[test]
fn test_update_missing_freezer() {
    let moder = vec![Role::Moder];
    let mut store = store_with(vec![]);
    match update_freezer(&moder, fz("ghost", &[]), &mut store) {
        Err(e) => assert_eq!(e.status_code(), 404),
        Ok(_) => panic!("replacing a missing document must be NotFound"),
    }
}

#[test]
fn test_remove_freezer_admin() {
    let admin = vec![Role::Admin];
    let mut store = store_with(vec![fz("fz1", &[]), fz("fz2", &[])]);
    remove_freezer(&admin, "fz1", &mut store).unwrap();
    assert!(one_freezer("fz1", &store).is_err());
    assert!(one_freezer("fz2", &store).is_ok());
    match remove_freezer(&admin, "fz1", &mut store) {
        Err(e) => assert_eq!(e.status_code(), 404),
        Ok(_) => panic!("removing a missing document must be NotFound"),
    }
}

#[test]
fn test_products_listing_and_lookup() {
    let mut products = ProductsStore::new();
    products.insert(Product { name: "milk".to_string(), default: 10 }).unwrap();
    products.insert(Product { name: "beer".to_string(), default: 2 }).unwrap();

    let all = get_products(LimitQuery { limit: None, offset: None }, &products);
    assert_eq!(all.len(), 2);
    assert_eq!(all[0].name, "milk".to_string());
    assert_eq!(all[0].default, 10);
    assert_eq!(all[1].name, "beer".to_string());

    let one = one_product("beer", &products).unwrap();
    assert_eq!(one.default, 2);
    match one_product("wine", &products) {
        Err(e) => assert_eq!(e.status_code(), 404),
        Ok(_) => panic!("a missing product must be NotFound"),
    }

    match products.insert(Product { name: "milk".to_string(), default: 1 }) {
        Err(e) => assert_eq!(e.status_code(), 422),
        Ok(_) => panic!("a taken product name must be rejected"),
    }
}

#[test]
fn test_stored_procedure_resets_counts() {
    let admin = vec![Role::Admin];
    let mut products = ProductsStore::new();
    products.insert(Product { name: "milk".to_string(), default: 10 }).unwrap();
    products.insert(Product { name: "beer".to_string(), default: 2 }).unwrap();

    let mut store = store_with(vec![
        fz("fz1", &[("milk", 5), ("beer", 7)]),
        fz("fz2", &[("beer", 0)]),
        fz("fz3", &[]),
    ]);
    stored_procedure(&admin, &mut store, &products).unwrap();

    let f1 = one_freezer("fz1", &store).unwrap();
    assert_eq!(f1.products.get("milk"), Some(10));
    assert_eq!(f1.products.get("beer"), Some(2));
    let f2 = one_freezer("fz2", &store).unwrap();
    assert_eq!(f2.products.get("beer"), Some(2));
    assert_eq!(f2.products.get("milk"), None);

    // Running the procedure a second time converges to the same state.
    stored_procedure(&admin, &mut store, &products).unwrap();
    let again = one_freezer("fz1", &store).unwrap();
    assert_eq!(again.products.get("milk"), Some(10));
    assert_eq!(again.products.get("beer"), Some(2));
}

#[test]
fn test_stored_procedure_missing_default() {
    let admin = vec![Role::Admin];
    let mut products = ProductsStore::new();
    products.insert(Product { name: "milk".to_string(), default: 10 }).unwrap();

    let mut store = store_with(vec![fz("fz1", &[("milk", 5), ("mystery", 1)])]);
    match stored_procedure(&admin, &mut store, &products) {
        Err(e) => assert_eq!(e.status_code(), 404),
        Ok(_) => panic!("a product without a default must be NotFound"),
    }
    // The failure happened before any write: the store is untouched.
    let f1 = one_freezer("fz1", &store).unwrap();
    assert_eq!(f1.products.get("milk"), Some(5));
    assert_eq!(f1.products.get("mystery"), Some(1));
}

#[test]
fn test_stored_procedure_requires_admin() {
    let moder = vec![Role::Moder];
    let mut store = store_with(vec![fz("fz1", &[("milk", 5)])]);
    let products = ProductsStore::new();
    match stored_procedure(&moder, &mut store, &products) {
        Err(e) => assert_eq!(e.status_code(), 401),
        Ok(_) => panic!("the procedure must require Admin"),
    }
    let f1 = one_freezer("fz1", &store).unwrap();
    assert_eq!(f1.products.get("milk"), Some(5));
}

#[test]
fn test_into_id() {
    let ok = into_id(Ok(fz("fz1", &[]))).unwrap();
    assert_eq!(ok, "fz1".to_string());
    let err = into_id(Err(Error::NotFound("fz9".to_string())));
    match err {
        Err(e) => assert_eq!(e.status_code(), 404),
        Ok(_) => panic!("an error must pass through"),
    }
}

#[test]
fn test_error_status_codes() {
    assert_eq!(Error::NotFound("x".to_string()).status_code(), 404);
    assert_eq!(Error::Unauth("x".to_string()).status_code(), 401);
    assert_eq!(Error::LogicError("x".to_string()).status_code(), 422);
    assert_eq!(Error::TooManyRequests { actual: 9, permitted: 5 }.status_code(), 429);
    assert_eq!(Error::Internal("x".to_string()).status_code(), 500);
}

#[test]
fn test_freezer_listing_order() {
    let store = store_with(vec![fz("zeta", &[]), fz("alpha", &[])]);
    let names = store.freezers_list();
    assert_eq!(names, vec!["zeta".to_string(), "alpha".to_string()]);
    let docs = store.freezers();
    assert_eq!(docs.len(), 2);
    assert_eq!(docs[0].name, "zeta".to_string());

    let mut dup = store_with(vec![fz("zeta", &[])]);
    match dup.insert(fz("zeta", &[])) {
        Err(e) => assert_eq!(e.status_code(), 422),
        Ok(_) => panic!("a taken freezer name must be rejected"),
    }
}
