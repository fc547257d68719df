use deribit::{Auth, AuthResponse, ParamValue, Scope, Session};

fn auth_with(token: &str, refresh: &str, expires_in: i64, now: u64) -> Auth {
    let resp = AuthResponse {
        access_token: token.to_string(),
        enabled_features: Vec::new(),
        expires_in,
        google_login: false,
        mandatory_tfa_status: String::new(),
        refresh_token: refresh.to_string(),
        scope: Scope::default(),
        sid: None,
        token_type: "bearer".to_string(),
    };
    resp.parse(now)
}

#[test]
fn credential_expires_after_expires_in_seconds() {
    let auth = auth_with("abc", "r1", 100, 1000);
    assert_eq!(auth.expires_at, 1100);
    assert!(!auth.expired(1000));
    assert!(!auth.expired(1099));
    assert!(auth.expired(1100));
    assert!(auth.expired(2000));
}

#[test]
fn zero_expiry_triggers_exactly_one_refresh() {
    let now: u64 = 500;
    let mut session = Session::new(auth_with("T1", "R1", 0, now));
    let mut refreshes = 0;

    // what an authenticated call does: refresh first if and only if expired
    if session.needs_refresh(now) {
        let p = session.refresh_params();
        let entries = p.entries();
        assert_eq!(entries[0].0, "grant_type");
        assert_eq!(entries[0].1, ParamValue::Str("refresh_token".to_string()));
        assert_eq!(entries[1].0, "refresh_token");
        assert_eq!(entries[1].1, ParamValue::Str("R1".to_string()));
        // the server answers with a fresh credential
        session.apply_refresh(
            AuthResponse {
                access_token: "T2".to_string(),
                enabled_features: Vec::new(),
                expires_in: 900,
                google_login: false,
                mandatory_tfa_status: String::new(),
                refresh_token: "R2".to_string(),
                scope: Scope::default(),
                sid: None,
                token_type: "bearer".to_string(),
            },
            now,
        );
        refreshes += 1;
    }
    // no second refresh: the new credential is not expired
    if session.needs_refresh(now) {
        refreshes += 1;
    }
    assert_eq!(refreshes, 1);

    // the method is then sent under the refreshed token
    let injected = session.inject_token(deribit::Params::new());
    let entries = injected.entries();
    let last = &entries[entries.len() - 1];
    assert_eq!(last.0, "access_token");
    assert_eq!(last.1, ParamValue::Str("T2".to_string()));
}

#[test]
fn failed_refresh_leaves_the_credential_in_place() {
    let now: u64 = 500;
    let mut session = Session::new(auth_with("T1", "R1", 0, now));
    if session.needs_refresh(now) {
        let _ = session.refresh_params();
        // the server rejected the refresh: nothing is applied
    }
    assert_eq!(session.auth.response.access_token, "T1");
    assert!(session.needs_refresh(now));
}

#[test]
fn deriving_a_subaccount_session_leaves_the_parent_alone() {
    let now: u64 = 0;
    let parent = Session::new(auth_with("T1", "R1", 900, now));
    let p = parent.exchange_params(12345, None);
    let entries = p.entries();
    assert_eq!(entries[0].0, "refresh_token");
    assert_eq!(entries[0].1, ParamValue::Str("R1".to_string()));
    assert_eq!(entries[1].0, "subject_id");
    assert_eq!(entries[1].1, ParamValue::Int(12345));

    let child = parent.derive(auth_with("T2", "R2", 900, now));
    assert_eq!(child.auth.response.access_token, "T2");
    assert_ne!(child.auth.response.access_token, parent.auth.response.access_token);
    assert_eq!(parent.auth.response.access_token, "T1");
}

#[test]
fn exchange_with_scope_appends_the_encoded_scope() {
    let parent = Session::new(auth_with("T1", "R1", 900, 0));
    let scope = Scope::named("sub");
    let p = parent.exchange_params(7, Some(&scope));
    let entries = p.entries();
    assert_eq!(entries.len(), 3);
    assert_eq!(entries[2].0, "scope");
    assert_eq!(entries[2].1, ParamValue::Str("session:sub".to_string()));
}

#[test]
fn fork_params_name_the_new_session() {
    let parent = Session::new(auth_with("T1", "R1", 900, 0));
    let p = parent.fork_params("worker");
    let entries = p.entries();
    assert_eq!(entries[0].1, ParamValue::Str("R1".to_string()));
    assert_eq!(entries[1].0, "session_name");
    assert_eq!(entries[1].1, ParamValue::Str("worker".to_string()));
}

#[test]
fn logout_uses_the_sentinel_id_and_current_token() {
    let parent = Session::new(auth_with("T1", "R1", 900, 0));
    let p = parent.logout_params(true);
    let entries = p.entries();
    assert_eq!(entries[0].0, "invalidate_token");
    assert_eq!(entries[0].1, ParamValue::Bool(true));
    assert_eq!(entries[1].0, "access_token");
    assert_eq!(entries[1].1, ParamValue::Str("T1".to_string()));
    assert_eq!(deribit::session::LOGOUT_ID, 0);
}

#[test]
fn auth_params_carry_the_encoded_scope() {
    let p = Session::auth_params("id", "secret", &Scope::named("s1"));
    let entries = p.entries();
    assert_eq!(entries[0].0, "grant_type");
    assert_eq!(entries[0].1, ParamValue::Str("client_credentials".to_string()));
    assert_eq!(entries[3].0, "scope");
    assert_eq!(entries[3].1, ParamValue::Str("session:s1".to_string()));
}
