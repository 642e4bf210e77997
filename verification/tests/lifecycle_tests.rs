use iactive::auth::build_onboard_request;
use iactive::auth::build_reactivation_request;
use iactive::auth::check_activation_expiry;
use iactive::auth::decode_new_activation_response;
use iactive::auth::decode_reactivation_response;
use iactive::auth::perform_login;
use iactive::auth::perform_new_activation;
use iactive::auth::perform_reactivation;
use iactive::auth::LoginCredentials;
use iactive::auth::NewActivationData;
use iactive::datetime::DateTime;
use iactive::db::LicenseStore;
use iactive::errors::LicenseError;

const MAC: &str = "AA:BB:CC:DD:EE:FF";

fn dt(year: u32, month: u32, day: u32, hour: u32, minute: u32, second: u32) -> DateTime {
    DateTime { year, month, day, hour, minute, second }
}

fn form() -> NewActivationData {
    NewActivationData {
        institution_name: "Some School".to_string(),
        head_of_institution: "Head".to_string(),
        mobile_no: "5550100".to_string(),
        serial_number: "SN-9".to_string(),
        product_key: "PK-1".to_string(),
    }
}

fn grant_body() -> String {
    r#"{"message":"Device activated","productKey":{"expiry_date":"2099-01-01T00:00:00Z"},"credentials":{"username":"admin@x","password":"s3cret"}}"#
        .to_string()
}

fn activated_store() -> LicenseStore {
    let mut store = LicenseStore::new();
    let now = dt(2024, 5, 1, 10, 0, 0);
    let r = perform_new_activation(&mut store, &form(), MAC, 200, &grant_body(), &now);
    assert_eq!(r.unwrap(), "Device activated");
    store
}

#[test]
fn scenario_unactivated() {
    let store = LicenseStore::new();
    let now = dt(2024, 5, 1, 10, 0, 0);
    assert_eq!(check_activation_expiry(&store, &now), Ok(true));
    let login = perform_login(
        &store,
        LoginCredentials { email: "a".to_string(), password: "b".to_string() },
    );
    assert_eq!(login.unwrap_err(), LicenseError::InvalidCredentials);
}

#[test]
fn scenario_new_activation() {
    let store = activated_store();
    assert!(store.has_activation());
    let now = dt(2024, 5, 1, 10, 0, 0);
    assert_eq!(check_activation_expiry(&store, &now), Ok(false));
    let resp = perform_login(
        &store,
        LoginCredentials { email: "admin@x".to_string(), password: "s3cret".to_string() },
    )
    .unwrap();
    assert_eq!(resp.username, "admin@x");
    assert_eq!(resp.role, "admin");
    let (start, end) = store.latest_activation_window().unwrap();
    assert_eq!(start, "2024-05-01 10:00:00");
    assert_eq!(end, "2099-01-01 00:00:00");
}

#[test]
fn scenario_reactivation_wrong_device() {
    let mut store = activated_store();
    let before = store.latest_activation_window().unwrap();
    let body = r#"{"message":"Extended","productKey":{"expiry_date":"2030-06-01T00:00:00Z"}}"#;
    let now = dt(2024, 6, 1, 0, 0, 0);
    let r = perform_reactivation(&mut store, "PK-1", "00:00:00:00:00:00", 200, body, &now);
    assert_eq!(r.unwrap_err(), LicenseError::ReactivationNotReconciled);
    assert_eq!(store.latest_activation_window().unwrap(), before);
}

#[test]
fn scenario_reactivation_matching_device() {
    let mut store = activated_store();
    let body = r#"{"message":"Extended","productKey":{"expiry_date":"2030-06-01T00:00:00Z"}}"#;
    let now = dt(2024, 6, 1, 12, 0, 0);
    let r = perform_reactivation(&mut store, "PK-1", MAC, 200, body, &now);
    assert_eq!(r.unwrap(), "Extended");
    let (start, end) = store.latest_activation_window().unwrap();
    assert_eq!(start, "2024-06-01 12:00:00");
    assert_eq!(end, "2030-06-01 00:00:00");
    let later = dt(2031, 1, 1, 0, 0, 0);
    assert_eq!(check_activation_expiry(&store, &later), Ok(true));
}

#[test]
fn reactivation_without_any_local_record_is_not_reconciled() {
    let mut store = LicenseStore::new();
    let body = r#"{"message":"Extended","productKey":{"expiry_date":"2030-06-01T00:00:00Z"}}"#;
    let now = dt(2024, 6, 1, 0, 0, 0);
    let r = perform_reactivation(&mut store, "PK-1", MAC, 200, body, &now);
    assert_eq!(r.unwrap_err(), LicenseError::ReactivationNotReconciled);
    assert!(!store.has_activation());
}

#[test]
fn reactivating_an_older_record_leaves_the_latest_window() {
    let mut store = LicenseStore::new();
    store
        .load_activation_row(iactive::auth::ActivationDetails {
            id: 1,
            email: "a@x".to_string(),
            organization_name: "Org".to_string(),
            serial_mac_id: MAC.to_string(),
            activation_code: "PK-OLD".to_string(),
            start_date: Some("2020-01-01 00:00:00".to_string()),
            end_date: Some("2021-01-01 00:00:00".to_string()),
        })
        .unwrap();
    store
        .load_activation_row(iactive::auth::ActivationDetails {
            id: 2,
            email: "a@x".to_string(),
            organization_name: "Org".to_string(),
            serial_mac_id: MAC.to_string(),
            activation_code: "PK-NEW".to_string(),
            start_date: Some("2024-01-01 00:00:00".to_string()),
            end_date: Some("2025-01-01 00:00:00".to_string()),
        })
        .unwrap();
    let body = r#"{"message":"Extended","productKey":{"expiry_date":"2030-06-01T00:00:00Z"}}"#;
    let now = dt(2024, 6, 1, 0, 0, 0);
    let r = perform_reactivation(&mut store, "PK-OLD", MAC, 200, body, &now);
    assert_eq!(r.unwrap(), "Extended");
    // The older record got the new window, but the authoritative
    // (highest-id) record still decides the expiry check.
    let (_, end) = store.latest_activation_window().unwrap();
    assert_eq!(end, "2025-01-01 00:00:00");
}

#[test]
fn expiry_is_strictly_after_the_window_end() {
    let store = activated_store();
    let at_end = dt(2099, 1, 1, 0, 0, 0);
    assert_eq!(check_activation_expiry(&store, &at_end), Ok(false));
    let just_after = dt(2099, 1, 1, 0, 0, 1);
    assert_eq!(check_activation_expiry(&store, &just_after), Ok(true));
    let before = dt(2098, 12, 31, 23, 59, 59);
    assert_eq!(check_activation_expiry(&store, &before), Ok(false));
}

#[test]
fn expiry_check_is_idempotent() {
    let store = activated_store();
    let now = dt(2024, 5, 2, 0, 0, 0);
    let first = check_activation_expiry(&store, &now);
    let second = check_activation_expiry(&store, &now);
    assert_eq!(first, second);
}

#[test]
fn login_needs_exact_pair() {
    let store = activated_store();
    let wrong_password = perform_login(
        &store,
        LoginCredentials { email: "admin@x".to_string(), password: "nope".to_string() },
    );
    assert_eq!(wrong_password.unwrap_err(), LicenseError::InvalidCredentials);
    let unknown_user = perform_login(
        &store,
        LoginCredentials { email: "ghost".to_string(), password: "s3cret".to_string() },
    );
    assert_eq!(unknown_user.unwrap_err(), LicenseError::InvalidCredentials);
}

#[test]
fn duplicate_activation_rolls_back() {
    let mut store = activated_store();
    let users_before = iactive::users::get_users(&store).len();
    let now = dt(2024, 5, 3, 0, 0, 0);
    let r = perform_new_activation(&mut store, &form(), MAC, 200, &grant_body(), &now);
    match r.unwrap_err() {
        LicenseError::StoreWriteError(_) => {},
        other => panic!("unexpected error: {:?}", other),
    }
    assert_eq!(iactive::users::get_users(&store).len(), users_before);
    assert_eq!(
        store.latest_activation_window().unwrap().1,
        "2099-01-01 00:00:00"
    );
}

#[test]
fn rejection_uses_the_body_message() {
    let r = decode_new_activation_response(404, r#"{"message":"Device not found"}"#);
    match r.unwrap_err() {
        LicenseError::RemoteRejected(m) => assert_eq!(m, "Device not found"),
        other => panic!("unexpected error: {:?}", other),
    }
}

#[test]
fn rejection_falls_back_to_the_status() {
    let r = decode_reactivation_response(500, "gateway exploded");
    match r.unwrap_err() {
        LicenseError::RemoteRejected(m) => assert_eq!(m, "API returned error status: 500"),
        other => panic!("unexpected error: {:?}", other),
    }
}

#[test]
fn malformed_success_body_is_reported() {
    let r = decode_new_activation_response(200, r#"{"message":"ok"}"#);
    match r.unwrap_err() {
        LicenseError::RemoteResponseMalformed(_) => {},
        other => panic!("unexpected error: {:?}", other),
    }
    let bad_date = r#"{"message":"ok","productKey":{"expiry_date":"tomorrow"},"credentials":{"username":"u","password":"p"}}"#;
    let mut store = LicenseStore::new();
    let now = dt(2024, 5, 1, 0, 0, 0);
    let r2 = perform_new_activation(&mut store, &form(), MAC, 200, bad_date, &now);
    match r2.unwrap_err() {
        LicenseError::RemoteResponseMalformed(_) => {},
        other => panic!("unexpected error: {:?}", other),
    }
    assert!(!store.has_activation());
}

#[test]
fn request_bodies_have_the_wire_shape() {
    let body = build_onboard_request(&form(), MAC);
    assert_eq!(
        body,
        r#"{"institution":"Some School","head_of_institution":"Head","phone_number":"5550100","serial_key":"SN-9","product_key":"PK-1","mac_id":"AA:BB:CC:DD:EE:FF","device_id":"AA:BB:CC:DD:EE:FF"}"#
    );
    let re = build_reactivation_request("PK-1", MAC);
    assert_eq!(
        re,
        r#"{"activation_key":"PK-1","mac_id":"AA:BB:CC:DD:EE:FF"}"#
    );
}

#[test]
fn error_messages_read_as_expected() {
    assert_eq!(
        LicenseError::InvalidCredentials.message(),
        "Invalid username or password"
    );
    assert_eq!(
        LicenseError::ReactivationNotReconciled.message(),
        "Reactivation succeeded on backend, but failed to update local record."
    );
}
