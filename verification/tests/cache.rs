use freezer::auth::Role;
use freezer::handlers::{image, post_image, remove_image};
use freezer::service::{ImageStore, RoleStore};

#[test]
fn test_image_fallback_on_miss() {
    let store = ImageStore::new();
    let fallback = vec![0xffu8, 0xd8, 0xff];
    let served = image("fz1", &store, fallback.clone());
    assert_eq!(served, fallback);
}

#[test]
fn test_image_store_and_serve() {
    let admin = vec![Role::Admin];
    let mut store = ImageStore::new();
    let picture = vec![1u8, 2, 3, 4];
    post_image(&admin, "fz1", &picture, &mut store).unwrap();

    let served = image("fz1", &store, vec![9u8]);
    assert_eq!(served, picture);

    // Another id still misses and gets the fallback.
    let other = image("fz2", &store, vec![9u8]);
    assert_eq!(other, vec![9u8]);

    // Replacing the image serves the new bytes.
    post_image(&admin, "fz1", &[5u8, 6], &mut store).unwrap();
    assert_eq!(image("fz1", &store, vec![9u8]), vec![5u8, 6]);
}

#[test]
fn test_image_remove() {
    let admin = vec![Role::Admin];
    let moder = vec![Role::Moder];
    let mut store = ImageStore::new();
    post_image(&admin, "fz1", &[7u8], &mut store).unwrap();

    remove_image(&moder, "fz1", &mut store).unwrap();
    assert_eq!(image("fz1", &store, vec![0u8]), vec![0u8]);

    // Dropping a missing image is a no-op.
    remove_image(&moder, "fz1", &mut store).unwrap();
}

#[test]
fn test_post_image_requires_admin() {
    let moder = vec![Role::Moder];
    let mut store = ImageStore::new();
    match post_image(&moder, "fz1", &[1u8], &mut store) {
        Err(e) => assert_eq!(e.status_code(), 401),
        Ok(_) => panic!("storing an image must require Admin"),
    }
    assert_eq!(image("fz1", &store, vec![0u8]), vec![0u8]);

    let nobody: Vec<Role> = vec![];
    match remove_image(&nobody, "fz1", &mut store) {
        Err(e) => assert_eq!(e.status_code(), 401),
        Ok(_) => panic!("dropping an image must require a role"),
    }
}

#[test]
fn test_role_store_bindings() {
    let mut store = RoleStore::new();
    assert_eq!(store.role("alice"), None);
    assert_eq!(store.set_role("alice", Role::Moder), None);
    assert_eq!(store.role("alice"), Some(Role::Moder));
    assert_eq!(store.set_role("alice", Role::Admin), Some(Role::Moder));
    assert_eq!(store.role("alice"), Some(Role::Admin));
    assert_eq!(store.role("bob"), None);
}
