//! The credential a successful authentication yields, and its expiry
//! arithmetic. Time is carried as a plain reading of a monotonic clock in
//! whole seconds; the caller supplies the current reading.

use vstd::prelude::*;
use crate::model::{field, rep, str_items, strings_of, Json, JsonV};
use crate::scope::{parse_spec, Scope, ScopeV};
use crate::strutil::{int_of, parse_i64};

verus! {

/// The body of a successful authentication response.
#[derive(Debug, Clone, PartialEq)]
pub struct AuthResponse {
    pub access_token: String,
    pub enabled_features: Vec<String>,
    pub expires_in: i64,
    pub google_login: bool,
    pub mandatory_tfa_status: String,
    pub refresh_token: String,
    pub scope: Scope,
    pub sid: Option<String>,
    pub token_type: String,
}

/// A credential: the response that granted it plus the clock reading at
/// which it expires.
#[derive(Debug, Clone, PartialEq)]
pub struct Auth {
    pub response: AuthResponse,
    pub expires_at: u64,
}

impl AuthResponse {
    /// Stamps the response into a credential: it expires `expires_in`
    /// seconds after the given clock reading.
    pub fn parse(self, now: u64) -> (a: Auth)
        requires
            now + (self.expires_in as u64) <= u64::MAX,
        ensures
            a.expires_at == now + (self.expires_in as u64),
            a.response == self,
    {
        let expires_at = now + (self.expires_in as u64);
        Auth { response: self, expires_at }
    }
}

impl Auth {
    /// Whether the credential has expired at the given clock reading.
    pub fn expired(&self, now: u64) -> (r: bool)
        ensures
            r == (self.expires_at <= now),
    {
        self.expires_at <= now
    }
}


/// The mathematical shape of an authentication response body.
#[verifier::ext_equal]
pub struct AuthV {
    pub access_token: Seq<char>,
    pub enabled_features: Seq<Seq<char>>,
    pub expires_in: i64,
    pub google_login: bool,
    pub mandatory_tfa_status: Seq<char>,
    pub refresh_token: Seq<char>,
    pub scope: ScopeV,
    pub sid: Option<Seq<char>>,
    pub token_type: Seq<char>,
}

impl View for AuthResponse {
    type V = AuthV;

    open spec fn view(&self) -> AuthV {
        AuthV {
            access_token: self.access_token@,
            enabled_features: self.enabled_features@.map_values(|s: String| s@),
            expires_in: self.expires_in,
            google_login: self.google_login,
            mandatory_tfa_status: self.mandatory_tfa_status@,
            refresh_token: self.refresh_token@,
            scope: self.scope@,
            sid: match self.sid {
                Some(s) => Some(s@),
                None => None,
            },
            token_type: self.token_type@,
        }
    }
}

/// The feature list of an auth body: absent means empty, an array of
/// strings means those, anything else is ill-shaped.
pub open spec fn features_field(m: JsonV) -> Option<Seq<Seq<char>>> {
    match field(m, "enabled_features"@) {
        None => Some(Seq::empty()),
        Some(JsonV::Arr(items)) => str_items(items),
        Some(_) => None,
    }
}

/// The login flag of an auth body: absent means false, a boolean means
/// itself, anything else is ill-shaped.
pub open spec fn login_field(m: JsonV) -> Option<bool> {
    match field(m, "google_login"@) {
        None => Some(false),
        Some(JsonV::Bool(b)) => Some(b),
        Some(_) => None,
    }
}

/// The two-factor status of an auth body: its string when it is one, empty
/// otherwise.
pub open spec fn tfa_field(m: JsonV) -> Seq<char> {
    match field(m, "mandatory_tfa_status"@) {
        Some(JsonV::Str(s)) => s,
        _ => Seq::empty(),
    }
}

/// The session id of an auth body: its string when it is one, nothing
/// otherwise.
pub open spec fn sid_field(m: JsonV) -> Option<Seq<char>> {
    match field(m, "sid"@) {
        Some(JsonV::Str(s)) => Some(s),
        _ => None,
    }
}

/// What an authentication result body holds: the token pair, expiry, scope
/// and token type must be present with the right shapes; the informational
/// fields fall back to their defaults when absent. Anything else yields
/// nothing. The scope string is decoded by the library's own codec.
pub open spec fn auth_fields(m: JsonV) -> Option<AuthV> {
    match field(m, "access_token"@) {
        Some(JsonV::Str(at)) => match field(m, "refresh_token"@) {
            Some(JsonV::Str(rt)) => match field(m, "expires_in"@) {
                Some(JsonV::Num(et)) => match int_of(et) {
                    Some(ei) => match field(m, "scope"@) {
                        Some(JsonV::Str(st)) => match field(m, "token_type"@) {
                            Some(JsonV::Str(tt)) => match features_field(m) {
                                Some(feats) => match login_field(m) {
                                    Some(gl) => Some(
                                        AuthV {
                                            access_token: at,
                                            enabled_features: feats,
                                            expires_in: ei,
                                            google_login: gl,
                                            mandatory_tfa_status: tfa_field(m),
                                            refresh_token: rt,
                                            scope: parse_spec(st),
                                            sid: sid_field(m),
                                            token_type: tt,
                                        },
                                    ),
                                    None => None,
                                },
                                None => None,
                            },
                            _ => None,
                        },
                        _ => None,
                    },
                    None => None,
                },
                _ => None,
            },
            _ => None,
        },
        _ => None,
    }
}

/// Reads the body of an authentication result out of a parsed tree, exactly
/// as `auth_fields` has it.
pub fn auth_response_of(j: &Json) -> (r: Option<AuthResponse>)
    ensures
        r matches Some(a) ==> auth_fields(rep(*j)) == Some(a@),
        r is None ==> auth_fields(rep(*j)) is None,
{
    let access_token = match j.get("access_token") {
        Some(t) => match t {
            Json::Str(s) => s.clone(),
            _ => {
                return None;
            },
        },
        None => {
            return None;
        },
    };
    let refresh_token = match j.get("refresh_token") {
        Some(t) => match t {
            Json::Str(s) => s.clone(),
            _ => {
                return None;
            },
        },
        None => {
            return None;
        },
    };
    let expires_in = match j.get("expires_in") {
        Some(t) => match t {
            Json::Num(et) => match parse_i64(et.as_str()) {
                Some(n) => n,
                None => {
                    return None;
                },
            },
            _ => {
                return None;
            },
        },
        None => {
            return None;
        },
    };
    let scope = match j.get("scope") {
        Some(t) => match t {
            Json::Str(st) => Scope::parse(st.as_str()),
            _ => {
                return None;
            },
        },
        None => {
            return None;
        },
    };
    let token_type = match j.get("token_type") {
        Some(t) => match t {
            Json::Str(s) => s.clone(),
            _ => {
                return None;
            },
        },
        None => {
            return None;
        },
    };
    let enabled_features = match j.get("enabled_features") {
        None => Vec::new(),
        Some(t) => match t {
            Json::Arr(items) => match strings_of(items) {
                Some(v) => v,
                None => {
                    return None;
                },
            },
            _ => {
                return None;
            },
        },
    };
    let google_login = match j.get("google_login") {
        None => false,
        Some(t) => match t {
            Json::Bool(b) => *b,
            _ => {
                return None;
            },
        },
    };
    let mandatory_tfa_status = match j.get("mandatory_tfa_status") {
        Some(t) => match t {
            Json::Str(s) => s.clone(),
            _ => String::new(),
        },
        None => String::new(),
    };
    let sid = match j.get("sid") {
        Some(t) => match t {
            Json::Str(s) => Some(s.clone()),
            _ => None,
        },
        None => None,
    };
    let a = AuthResponse {
        access_token,
        enabled_features,
        expires_in,
        google_login,
        mandatory_tfa_status,
        refresh_token,
        scope,
        sid,
        token_type,
    };
    proof {
        assert(auth_fields(rep(*j)) matches Some(av) && av =~= a@);
    }
    Some(a)
}

/// Stamps a parsed authentication result into a credential at the given
/// clock reading: a credential comes out exactly when the body is
/// well-shaped and the expiry fits the clock, and it carries the body's own
/// tokens, scope and expiry.
pub fn credential_of(j: &Json, now: u64) -> (r: Option<Auth>)
    ensures
        match auth_fields(rep(*j)) {
            Some(av) => if now + (av.expires_in as u64) <= u64::MAX {
                (r matches Some(a) && a.response@ == av && a.expires_at == now + (
                av.expires_in as u64))
            } else {
                r is None
            },
            None => r is None,
        },
{
    let resp = match auth_response_of(j) {
        Some(x) => x,
        None => {
            return None;
        },
    };
    let secs = resp.expires_in as u64;
    if secs <= u64::MAX - now {
        Some(resp.parse(now))
    } else {
        None
    }
}

} // verus!
