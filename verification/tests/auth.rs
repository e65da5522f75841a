use freezer::auth::{
    authorize, extractor, has_any_role, login, logout, me, role_of_login, AuthData, LoggedUser,
    Role, Session,
};

#[test]
fn test_index_get() {
    let mut session = Session::new();

    // you need to login before `get` yourself
    match me(&session) {
        Err(e) => {
            let code = e.status_code();
            assert!(400 <= code && code < 500);
        },
        Ok(_) => panic!("reading the identity from a fresh session must fail"),
    }

    // admin is a reserved login
    let established = login(
        &mut session,
        AuthData { login: "Admin".to_string() },
    );
    assert_eq!(established.login, "Admin".to_string());

    let user: LoggedUser = me(&session).unwrap();
    // is a reserved result for `Admin` login
    assert_eq!(
        user,
        LoggedUser { login: "Admin".to_string(), role: Role::Admin }
    );
}

#[test]
fn test_login_role_derivation() {
    assert_eq!(role_of_login("Admin"), Role::Admin);
    assert_eq!(role_of_login("Moder"), Role::Moder);
    assert_eq!(role_of_login("alice"), Role::User);
    assert_eq!(role_of_login(""), Role::User);
    assert_eq!(role_of_login("admin"), Role::User);

    let mut session = Session::new();
    let user = login(&mut session, AuthData { login: "bob".to_string() });
    assert_eq!(user, LoggedUser { login: "bob".to_string(), role: Role::User });
    let read_back = me(&session).unwrap();
    assert_eq!(read_back, user);
}

#[test]
fn test_me_after_logout_unauthorized() {
    let mut session = Session::new();
    let _ = login(&mut session, AuthData { login: "Moder".to_string() });
    assert!(me(&session).is_ok());

    logout(&mut session);
    match me(&session) {
        Err(e) => assert_eq!(e.status_code(), 401),
        Ok(_) => panic!("identity must be gone after logout"),
    }
    assert!(extractor(&session).is_empty());
}

#[test]
fn test_extractor_roles() {
    let mut session = Session::new();
    assert!(extractor(&session).is_empty());

    let _ = login(&mut session, AuthData { login: "Admin".to_string() });
    assert_eq!(extractor(&session), vec![Role::Admin]);

    let _ = login(&mut session, AuthData { login: "carol".to_string() });
    assert_eq!(extractor(&session), vec![Role::User]);
}

#[test]
fn test_guard_fail_closed() {
    let required = vec![Role::Moder, Role::Admin];
    assert!(!authorize(None, &required));
    let user = LoggedUser { login: "dave".to_string(), role: Role::User };
    assert!(!authorize(Some(&user), &required));
    let moder = LoggedUser { login: "Moder".to_string(), role: Role::Moder };
    assert!(authorize(Some(&moder), &required));

    assert!(!has_any_role(&[], &required));
    assert!(has_any_role(&[Role::Admin], &required));
    assert!(!has_any_role(&[Role::User], &required));
}

#[test]
fn test_role_index_roundtrip() {
    assert_eq!(Role::Admin.to_index(), 0);
    assert_eq!(Role::Moder.to_index(), 1);
    assert_eq!(Role::User.to_index(), 2);
    assert_eq!(Role::from_index(0), Some(Role::Admin));
    assert_eq!(Role::from_index(1), Some(Role::Moder));
    assert_eq!(Role::from_index(2), Some(Role::User));
    assert_eq!(Role::from_index(3), None);
    assert_eq!(Role::from_index(usize::MAX), None);
}
