//! Activation lifecycle and local authentication.
//!
//! The remote authority is the sole source of truth for entitlement: the
//! functions here build the request bodies it receives, decode the grants
//! it answers with, and apply a confirmed grant to the local license store.
//! The expiry check and the login never touch the network; they work from
//! the persisted state and a caller-supplied clock alone.

use vstd::prelude::*;

use crate::datetime::parse_rfc3339;
use crate::datetime::parse_rfc3339_text;
use crate::datetime::parse_store_text;
use crate::datetime::format_store;
use crate::datetime::store_text_of;
use crate::datetime::DateTime;
use crate::db::inserted_activation;
use crate::db::inserted_user;
use crate::db::rec_matches;
use crate::db::window_updated;
use crate::db::LicenseStore;
use crate::errors::LicenseError;
use crate::json::doc_lookup;
use crate::json::doc_get;
use crate::json::obj_get;
use crate::json::obj_lookup;
use crate::json::parse_doc_text;
use crate::json::parse_json;
use crate::json::ser_doc;
use crate::json::to_json;
use crate::json::JsonDoc;
use crate::json::JsonValue;
use crate::json::JsonValueV;
use crate::strutil::dec_digits;
use crate::strutil::str_eq;
use crate::strutil::u32_to_string;

verus! {

/// One persisted activation record.
#[derive(Debug, Clone)]
pub struct ActivationDetails {
    pub id: i64,
    pub email: String,
    pub organization_name: String,
    pub serial_mac_id: String,
    pub activation_code: String,
    pub start_date: Option<String>,
    pub end_date: Option<String>,
}

/// The form fields of a new-activation request.
#[derive(Debug, Clone)]
pub struct NewActivationData {
    pub institution_name: String,
    pub head_of_institution: String,
    pub mobile_no: String,
    pub serial_number: String,
    pub product_key: String,
}

/// A username/password pair as entered at the login screen.  The field is
/// called `email` because the seeded account name is the licensed address.
#[derive(Debug, Clone)]
pub struct LoginCredentials {
    pub email: String,
    pub password: String,
}

/// What a successful login returns: the echoed username and the stored
/// role, an opaque capability tag.
#[derive(Debug, Clone)]
pub struct LoginResponse {
    pub username: String,
    pub role: String,
}

/// What a successful new activation returns from the remote authority.
#[derive(Debug, Clone)]
pub struct ActivationGrant {
    pub message: String,
    pub expiry_date: String,
    pub username: String,
    pub password: String,
}

/// What a successful reactivation returns from the remote authority.
#[derive(Debug, Clone)]
pub struct ReactivationGrant {
    pub message: String,
    pub expiry_date: String,
}

/// HTTP statuses the client treats as success.
pub open spec fn is_success_status(status: u16) -> bool {
    200 <= status < 300
}

/// The string value bound to `key` at the top level, if any.
pub open spec fn doc_str(d: Seq<(Seq<char>, JsonValueV)>, key: Seq<char>) -> Option<Seq<char>> {
    match doc_lookup(d, key) {
        Some(JsonValueV::Str(t)) => Some(t),
        _ => None,
    }
}

/// The string value bound to `inner` within the object bound to `outer`.
pub open spec fn doc_obj_str(
    d: Seq<(Seq<char>, JsonValueV)>,
    outer: Seq<char>,
    inner: Seq<char>,
) -> Option<Seq<char>> {
    match doc_lookup(d, outer) {
        Some(JsonValueV::Obj(m)) => obj_lookup(m, inner),
        _ => None,
    }
}

/// The pieces of a well-shaped new-activation grant body:
/// `(message, expiry_date, username, password)`.
pub open spec fn grant_of_body(body: Seq<char>) -> Option<
    (Seq<char>, Seq<char>, Seq<char>, Seq<char>),
> {
    match parse_doc_text(body) {
        None => None,
        Some(d) => {
            let m = doc_str(d, "message"@);
            let e = doc_obj_str(d, "productKey"@, "expiry_date"@);
            let u = doc_obj_str(d, "credentials"@, "username"@);
            let p = doc_obj_str(d, "credentials"@, "password"@);
            if m is Some && e is Some && u is Some && p is Some {
                Some((m->0, e->0, u->0, p->0))
            } else {
                None
            }
        },
    }
}

/// The pieces of a well-shaped reactivation grant body:
/// `(message, expiry_date)`.
pub open spec fn regrant_of_body(body: Seq<char>) -> Option<(Seq<char>, Seq<char>)> {
    match parse_doc_text(body) {
        None => None,
        Some(d) => {
            let m = doc_str(d, "message"@);
            let e = doc_obj_str(d, "productKey"@, "expiry_date"@);
            if m is Some && e is Some {
                Some((m->0, e->0))
            } else {
                None
            }
        },
    }
}

/// The generic rejection text used when a non-success body offers no
/// `message` field of its own.
pub open spec fn status_fallback(status: u16) -> Seq<char> {
    "API returned error status: "@ + dec_digits(status as int)
}

/// The rejection text extracted from a non-success response: its `message`
/// field when the body parses and has one, the generic text otherwise.
pub open spec fn error_message_of_body(body: Seq<char>, status: u16) -> Seq<char> {
    match parse_doc_text(body) {
        Some(d) => match doc_str(d, "message"@) {
            Some(m) => m,
            None => status_fallback(status),
        },
        None => status_fallback(status),
    }
}

/// Builds the generic rejection text for a status.
fn status_fallback_string(status: u16) -> (r: String)
    ensures
        r@ == status_fallback(status),
{
    "API returned error status: ".to_owned().concat(u32_to_string(status as u32).as_str())
}

/// The rejection text for a non-success answer: the parsed body's
/// `message` string when it has one, the generic text otherwise.
fn rejection_message(parsed: &Option<JsonDoc>, status: u16) -> (r: String)
    ensures
        r@ == match parsed {
            Some(d) => match doc_lookup(d@, "message"@) {
                Some(JsonValueV::Str(m)) => m,
                _ => status_fallback(status),
            },
            None => status_fallback(status),
        },
{
    match parsed {
        Some(d) => match doc_get(d, "message") {
            Some(v) => match v {
                JsonValue::Str(m) => m.clone(),
                _ => status_fallback_string(status),
            },
            None => status_fallback_string(status),
        },
        None => status_fallback_string(status),
    }
}

/// The malformed-response error with its fixed text.
fn malformed_response() -> (r: LicenseError)
    ensures
        r matches LicenseError::RemoteResponseMalformed(m) && m@
            == "response body does not match the expected shape"@,
{
    LicenseError::RemoteResponseMalformed(
        "response body does not match the expected shape".to_owned(),
    )
}

/// Decodes the onboarding endpoint's answer: on a non-success status the
/// extracted (or generic) rejection text, on success the grant, or the
/// malformed-response error when the body lacks the expected shape.
pub fn decode_new_activation_response(status: u16, body: &str) -> (r: Result<
    ActivationGrant,
    LicenseError,
>)
    ensures
        !is_success_status(status) ==> (r matches Err(LicenseError::RemoteRejected(m))
            && m@ == error_message_of_body(body@, status)),
        is_success_status(status) ==> match grant_of_body(body@) {
            Some(g) => r matches Ok(gr) && gr.message@ == g.0 && gr.expiry_date@ == g.1
                && gr.username@ == g.2 && gr.password@ == g.3,
            None => r matches Err(LicenseError::RemoteResponseMalformed(_)),
        },
{
    let success = 200 <= status && status < 300;
    let parsed = parse_json(body);
    if !success {
        return Err(LicenseError::RemoteRejected(rejection_message(&parsed, status)));
    }
    let d = match parsed {
        Some(d) => d,
        None => {
            return Err(malformed_response());
        },
    };
    let message: String = match doc_get(&d, "message") {
        Some(v) => match v {
            JsonValue::Str(m) => m.clone(),
            _ => {
                return Err(malformed_response());
            },
        },
        None => {
            return Err(malformed_response());
        },
    };
    let expiry_date: String = match doc_get(&d, "productKey") {
        Some(v) => match v {
            JsonValue::Obj(m) => match obj_get(m, "expiry_date") {
                Some(e) => e,
                None => {
                    return Err(malformed_response());
                },
            },
            _ => {
                return Err(malformed_response());
            },
        },
        None => {
            return Err(malformed_response());
        },
    };
    let (username, password) = match doc_get(&d, "credentials") {
        Some(v) => match v {
            JsonValue::Obj(m) => {
                let u = match obj_get(m, "username") {
                    Some(x) => x,
                    None => {
                        return Err(malformed_response());
                    },
                };
                let p = match obj_get(m, "password") {
                    Some(x) => x,
                    None => {
                        return Err(malformed_response());
                    },
                };
                (u, p)
            },
            _ => {
                return Err(malformed_response());
            },
        },
        None => {
            return Err(malformed_response());
        },
    };
    Ok(ActivationGrant { message, expiry_date, username, password })
}

/// Decodes the reactivation endpoint's answer, as
/// [`decode_new_activation_response`] does for onboarding.
pub fn decode_reactivation_response(status: u16, body: &str) -> (r: Result<
    ReactivationGrant,
    LicenseError,
>)
    ensures
        !is_success_status(status) ==> (r matches Err(LicenseError::RemoteRejected(m))
            && m@ == error_message_of_body(body@, status)),
        is_success_status(status) ==> match regrant_of_body(body@) {
            Some(g) => r matches Ok(gr) && gr.message@ == g.0 && gr.expiry_date@ == g.1,
            None => r matches Err(LicenseError::RemoteResponseMalformed(_)),
        },
{
    let success = 200 <= status && status < 300;
    let parsed = parse_json(body);
    if !success {
        return Err(LicenseError::RemoteRejected(rejection_message(&parsed, status)));
    }
    let d = match parsed {
        Some(d) => d,
        None => {
            return Err(malformed_response());
        },
    };
    let message: String = match doc_get(&d, "message") {
        Some(v) => match v {
            JsonValue::Str(m) => m.clone(),
            _ => {
                return Err(malformed_response());
            },
        },
        None => {
            return Err(malformed_response());
        },
    };
    let expiry_date: String = match doc_get(&d, "productKey") {
        Some(v) => match v {
            JsonValue::Obj(m) => match obj_get(m, "expiry_date") {
                Some(e) => e,
                None => {
                    return Err(malformed_response());
                },
            },
            _ => {
                return Err(malformed_response());
            },
        },
        None => {
            return Err(malformed_response());
        },
    };
    Ok(ReactivationGrant { message, expiry_date })
}

/// The body the onboarding endpoint receives.
pub open spec fn onboard_request_doc(form: NewActivationData, mac: Seq<char>) -> Seq<
    (Seq<char>, JsonValueV),
> {
    seq![
        ("institution"@, JsonValueV::Str(form.institution_name@)),
        ("head_of_institution"@, JsonValueV::Str(form.head_of_institution@)),
        ("phone_number"@, JsonValueV::Str(form.mobile_no@)),
        ("serial_key"@, JsonValueV::Str(form.serial_number@)),
        ("product_key"@, JsonValueV::Str(form.product_key@)),
        ("mac_id"@, JsonValueV::Str(mac)),
        ("device_id"@, JsonValueV::Str(mac)),
    ]
}

/// The body the reactivation endpoint receives.
pub open spec fn reactivation_request_doc(key: Seq<char>, mac: Seq<char>) -> Seq<
    (Seq<char>, JsonValueV),
> {
    seq![
        ("activation_key"@, JsonValueV::Str(key)),
        ("mac_id"@, JsonValueV::Str(mac)),
    ]
}

/// Serializes the onboarding request body for the given form fields and
/// device identifier.
pub fn build_onboard_request(form: &NewActivationData, mac_id: &str) -> (r: String)
    ensures
        r@ == ser_doc(onboard_request_doc(*form, mac_id@)),
{
    let mut doc = JsonDoc::new();
    doc.push_str_field("institution", form.institution_name.as_str());
    doc.push_str_field("head_of_institution", form.head_of_institution.as_str());
    doc.push_str_field("phone_number", form.mobile_no.as_str());
    doc.push_str_field("serial_key", form.serial_number.as_str());
    doc.push_str_field("product_key", form.product_key.as_str());
    doc.push_str_field("mac_id", mac_id);
    doc.push_str_field("device_id", mac_id);
    proof {
        assert(doc@ =~= onboard_request_doc(*form, mac_id@));
    }
    to_json(&doc)
}

/// Serializes the reactivation request body.
pub fn build_reactivation_request(activation_key: &str, mac_id: &str) -> (r: String)
    ensures
        r@ == ser_doc(reactivation_request_doc(activation_key@, mac_id@)),
{
    let mut doc = JsonDoc::new();
    doc.push_str_field("activation_key", activation_key);
    doc.push_str_field("mac_id", mac_id);
    proof {
        assert(doc@ =~= reactivation_request_doc(activation_key@, mac_id@));
    }
    to_json(&doc)
}

/// Relies on `mac_address::get_mac_address` for the primary hardware
/// network identifier, and on `MacAddress`'s display form: six zero-padded
/// upper-case hex octets separated by colons, 17 characters.  Which
/// adapter answers depends on the machine, so nothing more is stated.
#[verifier::external_body]
fn fetch_hardware_address() -> (r: Result<Option<String>, String>)
    ensures
        r matches Ok(Some(s)) ==> s@.len() == 17,
{
    match mac_address::get_mac_address() {
        Ok(Some(ma)) => Ok(Some(ma.to_string())),
        Ok(None) => Ok(None),
        Err(e) => Err(e.to_string()),
    }
}

/// Resolves the device identifier the license is bound to: the primary
/// hardware network address as a canonical 17-character string.
pub fn get_mac_address() -> (r: Result<String, LicenseError>)
    ensures
        r matches Ok(s) ==> s@.len() == 17,
        r is Err ==> (r matches Err(LicenseError::IdentityUnavailable) || r matches Err(
            LicenseError::IdentityResolutionError(_),
        )),
{
    match fetch_hardware_address() {
        Ok(Some(s)) => Ok(s),
        Ok(None) => Err(LicenseError::IdentityUnavailable),
        Err(e) => Err(LicenseError::IdentityResolutionError(e)),
    }
}

/// The store after a committed new activation: the grant's record and the
/// seed credential appended, nothing else touched.
pub open spec fn new_activation_applied(
    olds: LicenseStore,
    news: LicenseStore,
    form: NewActivationData,
    mac: Seq<char>,
    g: (Seq<char>, Seq<char>, Seq<char>, Seq<char>),
    end: DateTime,
    now: DateTime,
) -> bool {
    &&& news.activations@ == olds.activations@.push(news.activations@.last())
    &&& inserted_activation(
        news.activations@.last(),
        olds.next_activation_id,
        g.2,
        form.institution_name@,
        mac,
        form.product_key@,
        store_text_of(now),
        store_text_of(end),
    )
    &&& news.users@ == olds.users@.push(news.users@.last())
    &&& inserted_user(news.users@.last(), olds.next_user_id, g.2, g.3, "admin"@)
}

/// Applies the onboarding endpoint's answer to the local store.  The
/// network exchange has already happened: `status` and `body` are what the
/// authority answered, `now` is the single time source of the call.  The
/// store is only written after a successful, well-shaped grant, and the
/// activation record and seed credential commit together or not at all.
pub fn perform_new_activation(
    store: &mut LicenseStore,
    form: &NewActivationData,
    mac_id: &str,
    status: u16,
    body: &str,
    now: &DateTime,
) -> (r: Result<String, LicenseError>)
    requires
        old(store).wf(),
        now.valid(),
    ensures
        final(store).wf(),
        r is Err ==> *final(store) == *old(store),
        !is_success_status(status) ==> (r matches Err(LicenseError::RemoteRejected(m)) && m@
            == error_message_of_body(body@, status)),
        is_success_status(status) ==> match grant_of_body(body@) {
            None => r matches Err(LicenseError::RemoteResponseMalformed(_)),
            Some(g) => match parse_rfc3339_text(g.1) {
                None => r matches Err(LicenseError::RemoteResponseMalformed(_)),
                Some(end) => {
                    if old(store).can_insert(form.product_key@, g.2) {
                        &&& r matches Ok(m) && m@ == g.0
                        &&& new_activation_applied(
                            *old(store),
                            *final(store),
                            *form,
                            mac_id@,
                            g,
                            end,
                            *now,
                        )
                    } else {
                        r matches Err(LicenseError::StoreWriteError(_))
                    }
                },
            },
        },
{
    let grant = match decode_new_activation_response(status, body) {
        Err(e) => {
            return Err(e);
        },
        Ok(g) => g,
    };
    let end = match parse_rfc3339(grant.expiry_date.as_str()) {
        None => {
            return Err(malformed_response());
        },
        Some(d) => d,
    };
    proof {
        crate::datetime::lemma_parse_rfc3339_valid(grant.expiry_date@);
    }
    let end_str = format_store(&end);
    let start_str = format_store(now);
    match store.insert_activation(
        grant.username.as_str(),
        form.institution_name.as_str(),
        mac_id,
        form.product_key.as_str(),
        start_str.as_str(),
        end_str.as_str(),
        grant.username.as_str(),
        grant.password.as_str(),
        "admin",
    ) {
        Err(e) => Err(e),
        Ok(_) => Ok(grant.message),
    }
}

/// The store after a committed reactivation: the matching record's window
/// replaced, nothing else touched.
pub open spec fn reactivation_applied(
    olds: LicenseStore,
    news: LicenseStore,
    key: Seq<char>,
    mac: Seq<char>,
    end: DateTime,
    now: DateTime,
) -> bool {
    &&& news.users@ == olds.users@
    &&& news.activations@.len() == olds.activations@.len()
    &&& forall|i: int|
        #![trigger news.activations@[i]]
        0 <= i < olds.activations@.len() ==> if rec_matches(olds.activations@[i], key, mac) {
            window_updated(
                olds.activations@[i],
                news.activations@[i],
                store_text_of(now),
                store_text_of(end),
            )
        } else {
            news.activations@[i] == olds.activations@[i]
        }
}

/// Applies the reactivation endpoint's answer to the local store: the
/// record matching the `(activation_code, device_identifier)` pair gets
/// the freshly granted window.  When the authority granted but no local
/// record matches, the store is left as it was and the reconciliation
/// failure is surfaced.
pub fn perform_reactivation(
    store: &mut LicenseStore,
    activation_key: &str,
    mac_id: &str,
    status: u16,
    body: &str,
    now: &DateTime,
) -> (r: Result<String, LicenseError>)
    requires
        old(store).wf(),
        now.valid(),
    ensures
        final(store).wf(),
        r is Err ==> final(store).activations@ == old(store).activations@ && final(store).users@
            == old(store).users@,
        !is_success_status(status) ==> (r matches Err(LicenseError::RemoteRejected(m)) && m@
            == error_message_of_body(body@, status)),
        is_success_status(status) ==> match regrant_of_body(body@) {
            None => r matches Err(LicenseError::RemoteResponseMalformed(_)),
            Some(g) => match parse_rfc3339_text(g.1) {
                None => r matches Err(LicenseError::RemoteResponseMalformed(_)),
                Some(end) => {
                    if old(store).has_window_for(activation_key@, mac_id@) {
                        &&& r matches Ok(m) && m@ == g.0
                        &&& reactivation_applied(
                            *old(store),
                            *final(store),
                            activation_key@,
                            mac_id@,
                            end,
                            *now,
                        )
                    } else {
                        &&& r matches Err(LicenseError::ReactivationNotReconciled)
                    }
                },
            },
        },
{
    let grant = match decode_reactivation_response(status, body) {
        Err(e) => {
            return Err(e);
        },
        Ok(g) => g,
    };
    let end = match parse_rfc3339(grant.expiry_date.as_str()) {
        None => {
            return Err(malformed_response());
        },
        Some(d) => d,
    };
    proof {
        crate::datetime::lemma_parse_rfc3339_valid(grant.expiry_date@);
    }
    let end_str = format_store(&end);
    let start_str = format_store(now);
    let updated = store.update_activation_window(
        activation_key,
        mac_id,
        start_str.as_str(),
        end_str.as_str(),
    );
    if updated == 0 {
        proof {
            assert(final(store).activations@ =~= old(store).activations@);
        }
        Err(LicenseError::ReactivationNotReconciled)
    } else {
        Ok(grant.message)
    }
}

/// What the expiry evaluator decides from the persisted state and a clock
/// reading: expired when no activation exists or the clock passed the end
/// of the window, not yet expired up to and including the very end; no
/// decision when the persisted bound does not read back.
pub open spec fn expiry_decision(s: LicenseStore, now: DateTime) -> Option<bool> {
    if s.activations@.len() == 0 {
        Some(true)
    } else {
        match s.activations@.last().end_date {
            Some(e) => match parse_store_text(e@) {
                Some(dt) => Some(dt.before(now)),
                None => None,
            },
            None => None,
        }
    }
}

/// Evaluates the validity window against the caller's clock, offline: true
/// exactly when no activation exists or `now` lies strictly after the
/// persisted end of the window.  A request at exactly the end of the
/// window is still valid.
pub fn check_activation_expiry(store: &LicenseStore, now: &DateTime) -> (r: Result<
    bool,
    LicenseError,
>)
    requires
        store.wf(),
    ensures
        expiry_post(*store, *now, r),
{
    if !store.has_activation() {
        return Ok(true);
    }
    match store.latest_activation_window() {
        None => Err(LicenseError::StoreOpenError("activation row went missing".to_owned())),
        Some((_start, end)) => match crate::datetime::parse_store(end.as_str()) {
            None => Err(
                LicenseError::StoreOpenError(
                    "stored end date does not parse".to_owned(),
                ),
            ),
            Some(dt) => Ok(dt.is_before(now)),
        },
    }
}

/// Everything [`check_activation_expiry`] promises of its result: the
/// decision when the stored bound reads back, a store error otherwise.
pub open spec fn expiry_post(s: LicenseStore, now: DateTime, r: Result<bool, LicenseError>) -> bool {
    &&& (expiry_decision(s, now) matches Some(b) ==> r == Ok::<bool, LicenseError>(b))
    &&& (expiry_decision(s, now) is None ==> r matches Err(LicenseError::StoreOpenError(_)))
}

/// For every clock reading `t`, whenever the persisted bound reads back as
/// `end`, the expiry decision is `true` exactly when no activation exists
/// or `t` lies strictly after `end`, and it is `false` both at `t == end`
/// and before it.
pub proof fn lemma_expired_iff(s: LicenseStore, t: DateTime, end: DateTime)
    requires
        s.activations@.len() > 0 ==> (s.activations@.last().end_date matches Some(e)
            && parse_store_text(e@) == Some(end)),
    ensures
        s.activations@.len() == 0 ==> expiry_decision(s, t) == Some(true),
        s.activations@.len() > 0 ==> expiry_decision(s, t) == Some(end.before(t)),
        s.activations@.len() > 0 && (t == end || t.before(end)) ==> expiry_decision(s, t)
            == Some(false),
{
}

/// Two expiry checks with no write in between read the same store with the
/// same clock, so they answer alike: the outcome is a function of the
/// persisted state and the clock reading alone.
pub proof fn lemma_expiry_check_idempotent(
    s: LicenseStore,
    now: DateTime,
    r1: Result<bool, LicenseError>,
    r2: Result<bool, LicenseError>,
)
    requires
        expiry_post(s, now, r1),
        expiry_post(s, now, r2),
    ensures
        (r1 is Ok) == (r2 is Ok),
        r1 is Ok ==> r1 == r2,
{
}

/// After a committed new activation: an activation exists, the latest
/// window is the store spelling of the decoded grant expiry (and reads
/// back as that very instant), and exactly one credential row was added,
/// under the granted username, with the earlier rows untouched.
pub proof fn lemma_new_activation_effects(
    olds: LicenseStore,
    news: LicenseStore,
    form: NewActivationData,
    mac: Seq<char>,
    g: (Seq<char>, Seq<char>, Seq<char>, Seq<char>),
    end: DateTime,
    now: DateTime,
)
    requires
        now.valid(),
        end.valid(),
        new_activation_applied(olds, news, form, mac, g, end, now),
    ensures
        news.activations@.len() == olds.activations@.len() + 1,
        news.activations@.last().start_date matches Some(st) && st@ == store_text_of(now),
        news.activations@.last().end_date matches Some(en) && en@ == store_text_of(end)
            && parse_store_text(en@) == Some(end),
        news.users@.len() == olds.users@.len() + 1,
        news.users@.last().username@ == g.2,
        forall|i: int| 0 <= i < olds.users@.len() ==> news.users@[i] == olds.users@[i],
        olds.username_free(g.2) ==> forall|i: int|
            0 <= i < olds.users@.len() ==> (#[trigger] news.users@[i]).username@ != g.2,
{
    crate::datetime::lemma_store_round_trip(end);
    assert(news.activations@.len() == olds.activations@.len() + 1);
    assert forall|i: int| 0 <= i < olds.users@.len() implies news.users@[i] == olds.users@[i] by {
        assert(news.users@ == olds.users@.push(news.users@.last()));
        assert(news.users@[i] == olds.users@.push(news.users@.last())[i]);
    }
}

/// The supplied pair matches a stored credential row exactly.
pub open spec fn login_ok(s: LicenseStore, c: LoginCredentials) -> bool {
    exists|i: int|
        0 <= i < s.users@.len() && (#[trigger] s.users@[i]).username@ == c.email@
            && s.users@[i].password@ == c.password@
}

/// Validates a username/password pair against the store.  Success echoes
/// the username and returns the stored role; an unknown user and a wrong
/// password are deliberately answered with the same error.
pub fn perform_login(store: &LicenseStore, credentials: LoginCredentials) -> (r: Result<
    LoginResponse,
    LicenseError,
>)
    requires
        store.wf(),
    ensures
        (r is Ok) == login_ok(*store, credentials),
        r matches Ok(resp) ==> resp.username@ == credentials.email@ && exists|i: int|
            {
                &&& 0 <= i < store.users@.len()
                &&& (#[trigger] store.users@[i]).username@ == credentials.email@
                &&& store.users@[i].password@ == credentials.password@
                &&& resp.role@ == store.users@[i].role@
            },
        r is Err ==> r matches Err(LicenseError::InvalidCredentials),
{
    match store.find_credential(credentials.email.as_str()) {
        None => Err(LicenseError::InvalidCredentials),
        Some((stored_password, role)) => {
            if str_eq(stored_password.as_str(), credentials.password.as_str()) {
                Ok(LoginResponse { username: credentials.email, role })
            } else {
                Err(LicenseError::InvalidCredentials)
            }
        },
    }
}

/// The lifecycle state of an installation, re-derived from the persisted
/// store and a clock reading on every check and never cached.
#[derive(Debug, Clone, Copy, PartialEq, Eq, Structural)]
pub enum ActivationState {
    /// No activation record exists.
    Unactivated,
    /// A record exists and the clock has not passed the end of its window.
    Active,
    /// A record exists and the clock lies strictly after the window's end.
    Expired,
}

/// The state the store and clock denote; none when the persisted bound
/// does not read back.
pub open spec fn activation_state(s: LicenseStore, now: DateTime) -> Option<ActivationState> {
    if s.activations@.len() == 0 {
        Some(ActivationState::Unactivated)
    } else {
        match s.activations@.last().end_date {
            Some(e) => match parse_store_text(e@) {
                Some(dt) => Some(
                    if dt.before(now) {
                        ActivationState::Expired
                    } else {
                        ActivationState::Active
                    },
                ),
                None => None,
            },
            None => None,
        }
    }
}

/// The expiry evaluator answers exactly by the state: expired in the
/// `Unactivated` and `Expired` states, not expired in `Active`, and
/// undecided exactly when the state is.
pub proof fn lemma_expiry_matches_state(s: LicenseStore, now: DateTime)
    ensures
        (activation_state(s, now) is Some) == (expiry_decision(s, now) is Some),
        activation_state(s, now) == Some(ActivationState::Active) <==> expiry_decision(s, now)
            == Some(false),
        activation_state(s, now) matches Some(st) ==> ((st is Unactivated || st is Expired)
            <==> expiry_decision(s, now) == Some(true)),
{
}

/// A committed new activation puts the installation in the `Active` state
/// for every clock reading up to and including the granted expiry (and in
/// `Expired` beyond it).
pub proof fn lemma_state_after_new_activation(
    olds: LicenseStore,
    news: LicenseStore,
    form: NewActivationData,
    mac: Seq<char>,
    g: (Seq<char>, Seq<char>, Seq<char>, Seq<char>),
    end: DateTime,
    now: DateTime,
    t: DateTime,
)
    requires
        now.valid(),
        end.valid(),
        new_activation_applied(olds, news, form, mac, g, end, now),
    ensures
        activation_state(news, t) == Some(
            if end.before(t) {
                ActivationState::Expired
            } else {
                ActivationState::Active
            },
        ),
{
    crate::datetime::lemma_store_round_trip(end);
}

/// A committed reactivation of the authoritative record puts the
/// installation in the `Active` state up to and including the freshly
/// granted expiry, whatever state it was in before.
pub proof fn lemma_state_after_reactivation(
    olds: LicenseStore,
    news: LicenseStore,
    key: Seq<char>,
    mac: Seq<char>,
    end: DateTime,
    now: DateTime,
    t: DateTime,
)
    requires
        now.valid(),
        end.valid(),
        reactivation_applied(olds, news, key, mac, end, now),
        olds.activations@.len() > 0,
        rec_matches(olds.activations@.last(), key, mac),
    ensures
        activation_state(news, t) == Some(
            if end.before(t) {
                ActivationState::Expired
            } else {
                ActivationState::Active
            },
        ),
{
    crate::datetime::lemma_store_round_trip(end);
    let n = olds.activations@.len() as int;
    assert(window_updated(
        olds.activations@[n - 1],
        news.activations@[n - 1],
        store_text_of(now),
        store_text_of(end),
    ));
}

} // verus!
