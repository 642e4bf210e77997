use iactive::auth::ActivationDetails;
use iactive::content::ContentStore;
use iactive::db::LicenseStore;
use iactive::errors::LicenseError;
use iactive::users::add_user;
use iactive::users::delete_user;
use iactive::users::get_users;
use iactive::users::update_user;
use iactive::users::User;

fn user(name: &str, password: &str, role: &str) -> User {
    User {
        id: None,
        username: name.to_string(),
        password: password.to_string(),
        role: role.to_string(),
    }
}

#[test]
fn users_are_added_with_fresh_ids() {
    let mut store = LicenseStore::new();
    let a = add_user(&mut store, user("alice", "pw1", "admin")).unwrap();
    let b = add_user(&mut store, user("bob", "pw2", "viewer")).unwrap();
    assert!(a < b);
    let users = get_users(&store);
    assert_eq!(users.len(), 2);
    assert_eq!(users[0].username, "alice");
    assert_eq!(users[0].id, Some(a));
    assert_eq!(users[1].role, "viewer");
}

#[test]
fn duplicate_usernames_are_refused() {
    let mut store = LicenseStore::new();
    add_user(&mut store, user("alice", "pw1", "admin")).unwrap();
    let r = add_user(&mut store, user("alice", "other", "viewer"));
    match r.unwrap_err() {
        LicenseError::StoreWriteError(_) => {},
        other => panic!("unexpected error: {:?}", other),
    }
    assert_eq!(get_users(&store).len(), 1);
}

#[test]
fn update_user_rewrites_one_row() {
    let mut store = LicenseStore::new();
    let a = add_user(&mut store, user("alice", "pw1", "admin")).unwrap();
    add_user(&mut store, user("bob", "pw2", "viewer")).unwrap();
    let mut changed = user("alice2", "pw9", "admin");
    changed.id = Some(a);
    update_user(&mut store, changed).unwrap();
    let users = get_users(&store);
    assert_eq!(users[0].username, "alice2");
    assert_eq!(users[0].password, "pw9");
    assert_eq!(users[1].username, "bob");
}

#[test]
fn update_user_needs_an_existing_id() {
    let mut store = LicenseStore::new();
    add_user(&mut store, user("alice", "pw1", "admin")).unwrap();
    let mut missing = user("x", "y", "z");
    missing.id = Some(999);
    assert!(update_user(&mut store, missing).is_err());
    let mut unstored = user("x", "y", "z");
    unstored.id = None;
    assert!(update_user(&mut store, unstored).is_err());
    let mut taken = user("alice", "y", "z");
    taken.id = Some(2);
    add_user(&mut store, user("bob", "pw2", "viewer")).unwrap();
    assert!(update_user(&mut store, taken).is_err());
}

#[test]
fn delete_user_removes_the_row() {
    let mut store = LicenseStore::new();
    let a = add_user(&mut store, user("alice", "pw1", "admin")).unwrap();
    add_user(&mut store, user("bob", "pw2", "viewer")).unwrap();
    delete_user(&mut store, a).unwrap();
    let users = get_users(&store);
    assert_eq!(users.len(), 1);
    assert_eq!(users[0].username, "bob");
    assert!(delete_user(&mut store, a).is_err());
}

#[test]
fn load_rows_replay_persisted_state() {
    let mut store = LicenseStore::new();
    store
        .load_activation_row(ActivationDetails {
            id: 3,
            email: "admin@x".to_string(),
            organization_name: "Org".to_string(),
            serial_mac_id: "AA:BB:CC:DD:EE:FF".to_string(),
            activation_code: "PK-1".to_string(),
            start_date: Some("2024-05-01 10:00:00".to_string()),
            end_date: Some("2099-01-01 00:00:00".to_string()),
        })
        .unwrap();
    assert!(store.has_activation());
    let (start, end) = store.latest_activation_window().unwrap();
    assert_eq!(start, "2024-05-01 10:00:00");
    assert_eq!(end, "2099-01-01 00:00:00");
    let out_of_order = store.load_activation_row(ActivationDetails {
        id: 2,
        email: "e".to_string(),
        organization_name: "o".to_string(),
        serial_mac_id: "m".to_string(),
        activation_code: "PK-2".to_string(),
        start_date: Some("2024-05-01 10:00:00".to_string()),
        end_date: Some("2099-01-01 00:00:00".to_string()),
    });
    assert!(out_of_order.is_err());
    let mut row = user("seed", "pw", "admin");
    row.id = Some(7);
    store.load_user_row(row).unwrap();
    assert_eq!(get_users(&store)[0].id, Some(7));
}

#[test]
fn a_corrupt_stored_date_surfaces_a_store_error() {
    let mut store = LicenseStore::new();
    store
        .load_activation_row(ActivationDetails {
            id: 1,
            email: "e".to_string(),
            organization_name: "o".to_string(),
            serial_mac_id: "m".to_string(),
            activation_code: "PK-1".to_string(),
            start_date: Some("2024-05-01 10:00:00".to_string()),
            end_date: Some("not a timestamp".to_string()),
        })
        .unwrap();
    let now = iactive::datetime::DateTime { year: 2024, month: 6, day: 1, hour: 0, minute: 0, second: 0 };
    match iactive::auth::check_activation_expiry(&store, &now).unwrap_err() {
        LicenseError::StoreOpenError(_) => {},
        other => panic!("unexpected error: {:?}", other),
    }
}

#[test]
fn find_credential_is_exact() {
    let mut store = LicenseStore::new();
    add_user(&mut store, user("alice", "pw1", "admin")).unwrap();
    let (pw, role) = store.find_credential("alice").unwrap();
    assert_eq!(pw, "pw1");
    assert_eq!(role, "admin");
    assert!(store.find_credential("Alice").is_none());
    assert!(store.find_credential("").is_none());
}

#[test]
fn content_paths_keep_one_active() {
    let mut c = ContentStore::new();
    assert!(!c.has_active_content_path());
    assert_eq!(c.get_active_content_path(), None);
    c.add_and_set_active_content_path("/media/a".to_string()).unwrap();
    c.add_and_set_active_content_path("/media/b".to_string()).unwrap();
    assert!(c.has_active_content_path());
    assert_eq!(c.get_active_content_path().unwrap(), "/media/b");
    let rows = c.get_content_paths();
    assert_eq!(rows.len(), 2);
    assert!(!rows[0].is_active);
    assert!(rows[1].is_active);
}

#[test]
fn re_adding_a_path_replaces_its_row() {
    let mut c = ContentStore::new();
    c.add_and_set_active_content_path("/media/a".to_string()).unwrap();
    c.add_and_set_active_content_path("/media/b".to_string()).unwrap();
    c.add_and_set_active_content_path("/media/a".to_string()).unwrap();
    let rows = c.get_content_paths();
    assert_eq!(rows.len(), 2);
    assert_eq!(rows[0].path, "/media/b");
    assert!(!rows[0].is_active);
    assert_eq!(rows[1].path, "/media/a");
    assert!(rows[1].is_active);
    assert!(rows[1].id > rows[0].id);
}

#[test]
fn set_active_switches_rows() {
    let mut c = ContentStore::new();
    c.add_and_set_active_content_path("/media/a".to_string()).unwrap();
    c.add_and_set_active_content_path("/media/b".to_string()).unwrap();
    let rows = c.get_content_paths();
    let first_id = rows[0].id as i32;
    c.set_active_content_path(first_id).unwrap();
    assert_eq!(c.get_active_content_path().unwrap(), "/media/a");
    let missing = c.set_active_content_path(999);
    assert!(missing.is_err());
    assert_eq!(c.get_active_content_path().unwrap(), "/media/a");
}

#[test]
fn the_active_path_cannot_be_deleted() {
    let mut c = ContentStore::new();
    c.add_and_set_active_content_path("/media/a".to_string()).unwrap();
    c.add_and_set_active_content_path("/media/b".to_string()).unwrap();
    let rows = c.get_content_paths();
    let inactive_id = rows[0].id as i32;
    let active_id = rows[1].id as i32;
    assert!(c.delete_content_path(active_id).is_err());
    assert!(c.delete_content_path(999).is_err());
    c.delete_content_path(inactive_id).unwrap();
    assert_eq!(c.get_content_paths().len(), 1);
}
