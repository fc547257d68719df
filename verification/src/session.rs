//! The authenticated-session lifecycle: a credential owned by one session,
//! refresh-before-use when it has expired, token injection into outbound
//! parameters, and derivation of sibling sessions (subaccount exchange,
//! named forks) that share the transport but own an independent credential.
//!
//! The session is the deciding half of the lifecycle: it builds the exact
//! parameter lists the protocol calls take and absorbs their responses. The
//! transport half (sending, awaiting) lives with the runtime outside the
//! library and hands plain values back in.

use vstd::prelude::*;
use crate::auth::{Auth, AuthResponse};
use crate::params::{lookup, ParamV, ParamValue, Params};
use crate::scope::{encode_spec, Scope};

verus! {

/// Whether a credential demands a refresh before the next authenticated
/// call at the given clock reading.
pub open spec fn needs_refresh_spec(a: Auth, now: u64) -> bool {
    a.expires_at <= now
}

/// The credential a refresh response yields at the given clock reading.
pub open spec fn refreshed_auth(r: AuthResponse, now: u64) -> Auth {
    Auth { response: r, expires_at: (now + (r.expires_in as u64)) as u64 }
}

/// Outbound parameters with the session's access token injected.
pub open spec fn injected(base: Seq<(Seq<char>, ParamV)>, token: Seq<char>) -> Seq<
    (Seq<char>, ParamV),
> {
    base.push(("access_token"@, ParamV::Str(token)))
}

/// The session a credential derivation wraps: a function of the exchanged
/// credential alone, never of the parent that requested it.
pub open spec fn derived(a: Auth) -> Session {
    Session { auth: a }
}

/// An authenticated session: one credential, replaced whole on refresh and
/// on subaccount switch, never mutated in place.
#[derive(Debug, Clone)]
pub struct Session {
    pub auth: Auth,
}

impl Session {
    /// Wraps a credential as a session.
    pub fn new(auth: Auth) -> (s: Session)
        ensures
            s.auth == auth,
    {
        Session { auth }
    }

    /// Whether the next authenticated call must refresh first.
    pub fn needs_refresh(&self, now: u64) -> (r: bool)
        ensures
            r == needs_refresh_spec(self.auth, now),
    {
        self.auth.expired(now)
    }

    /// The parameters of the initial authentication call.
    pub fn auth_params(client_id: &str, client_secret: &str, scope: &Scope) -> (p: Params)
        ensures
            p@ == seq![
                ("grant_type"@, ParamV::Str("client_credentials"@)),
                ("client_id"@, ParamV::Str(client_id@)),
                ("client_secret"@, ParamV::Str(client_secret@)),
                ("scope"@, ParamV::Str(encode_spec(scope@))),
            ],
    {
        let mut p = Params::new();
        p.push("grant_type", ParamValue::Str(String::from_str("client_credentials")));
        p.push("client_id", ParamValue::Str(String::from_str(client_id)));
        p.push("client_secret", ParamValue::Str(String::from_str(client_secret)));
        p.push("scope", ParamValue::Str(scope.dump()));
        proof {
            assert(p@ =~= seq![
                ("grant_type"@, ParamV::Str("client_credentials"@)),
                ("client_id"@, ParamV::Str(client_id@)),
                ("client_secret"@, ParamV::Str(client_secret@)),
                ("scope"@, ParamV::Str(encode_spec(scope@))),
            ]);
        }
        p
    }

    /// The parameters of a refresh call, built from the stored refresh
    /// token.
    pub fn refresh_params(&self) -> (p: Params)
        ensures
            p@ == seq![
                ("grant_type"@, ParamV::Str("refresh_token"@)),
                ("refresh_token"@, ParamV::Str(self.auth.response.refresh_token@)),
            ],
    {
        let mut p = Params::new();
        p.push("grant_type", ParamValue::Str(String::from_str("refresh_token")));
        p.push("refresh_token", ParamValue::Str(self.auth.response.refresh_token.clone()));
        proof {
            assert(p@ =~= seq![
                ("grant_type"@, ParamV::Str("refresh_token"@)),
                ("refresh_token"@, ParamV::Str(self.auth.response.refresh_token@)),
            ]);
        }
        p
    }

    /// Injects the current access token into outbound parameters: the one
    /// place the session layer touches a call's parameters.
    pub fn inject_token(&self, params: Params) -> (r: Params)
        ensures
            r@ == injected(params@, self.auth.response.access_token@),
            lookup(r@, "access_token"@) == Some(
                ParamV::Str(self.auth.response.access_token@),
            ),
    {
        let mut p = params;
        p.push("access_token", ParamValue::Str(self.auth.response.access_token.clone()));
        p
    }

    /// Replaces the session's credential whole with the one a successful
    /// re-authentication returned. On failure nothing calls this, so the
    /// prior credential stays in place.
    pub fn apply_refresh(&mut self, resp: AuthResponse, now: u64)
        requires
            now + (resp.expires_in as u64) <= u64::MAX,
        ensures
            final(self).auth == refreshed_auth(resp, now),
            final(self).auth.response == resp,
            final(self).auth.expires_at == now + (resp.expires_in as u64),
    {
        self.auth = resp.parse(now);
    }

    /// The parameters of a subaccount token exchange; the caller's own
    /// credential plays no part beyond supplying the refresh token.
    pub fn exchange_params(&self, subject_id: i64, scope: Option<&Scope>) -> (p: Params)
        ensures
            scope is None ==> p@ == seq![
                ("refresh_token"@, ParamV::Str(self.auth.response.refresh_token@)),
                ("subject_id"@, ParamV::Int(subject_id)),
            ],
            scope matches Some(sc) ==> p@ == seq![
                ("refresh_token"@, ParamV::Str(self.auth.response.refresh_token@)),
                ("subject_id"@, ParamV::Int(subject_id)),
                ("scope"@, ParamV::Str(encode_spec(sc@))),
            ],
    {
        let mut p = Params::new();
        p.push("refresh_token", ParamValue::Str(self.auth.response.refresh_token.clone()));
        p.push("subject_id", ParamValue::Int(subject_id));
        match scope {
            Some(sc) => {
                p.push("scope", ParamValue::Str(sc.dump()));
                proof {
                    assert(p@ =~= seq![
                        ("refresh_token"@, ParamV::Str(self.auth.response.refresh_token@)),
                        ("subject_id"@, ParamV::Int(subject_id)),
                        ("scope"@, ParamV::Str(encode_spec(sc@))),
                    ]);
                }
            },
            None => {
                proof {
                    assert(p@ =~= seq![
                        ("refresh_token"@, ParamV::Str(self.auth.response.refresh_token@)),
                        ("subject_id"@, ParamV::Int(subject_id)),
                    ]);
                }
            },
        }
        p
    }

    /// The parameters of a named session fork.
    pub fn fork_params(&self, session_name: &str) -> (p: Params)
        ensures
            p@ == seq![
                ("refresh_token"@, ParamV::Str(self.auth.response.refresh_token@)),
                ("session_name"@, ParamV::Str(session_name@)),
            ],
    {
        let mut p = Params::new();
        p.push("refresh_token", ParamValue::Str(self.auth.response.refresh_token.clone()));
        p.push("session_name", ParamValue::Str(String::from_str(session_name)));
        proof {
            assert(p@ =~= seq![
                ("refresh_token"@, ParamV::Str(self.auth.response.refresh_token@)),
                ("session_name"@, ParamV::Str(session_name@)),
            ]);
        }
        p
    }

    /// The parameters of the fire-and-forget logout; it is sent under the
    /// sentinel id and allocates no pending entry, since the server does not
    /// reply to it.
    pub fn logout_params(&self, invalidate_token: bool) -> (p: Params)
        ensures
            p@ == seq![
                ("invalidate_token"@, ParamV::Bool(invalidate_token)),
                ("access_token"@, ParamV::Str(self.auth.response.access_token@)),
            ],
    {
        let mut p = Params::new();
        p.push("invalidate_token", ParamValue::Bool(invalidate_token));
        p.push("access_token", ParamValue::Str(self.auth.response.access_token.clone()));
        proof {
            assert(p@ =~= seq![
                ("invalidate_token"@, ParamV::Bool(invalidate_token)),
                ("access_token"@, ParamV::Str(self.auth.response.access_token@)),
            ]);
        }
        p
    }

    /// Wraps an exchanged or forked credential as a sibling session. The
    /// parent is only read: its credential cannot change here, and the child
    /// owns its credential alone.
    pub fn derive(&self, auth: Auth) -> (s: Session)
        ensures
            s == derived(auth),
            s.auth == auth,
    {
        Session { auth }
    }
}

/// The correlation id the fire-and-forget logout is sent under: the server
/// does not reply, so no pending entry is made for it and no allocated id is
/// spent on it. Allocated ids start at one, so this never collides.
pub const LOGOUT_ID: u64 = 0;

/// An authenticated call under an expired credential refreshes first,
/// exactly once: the expired credential demands the refresh, the call then
/// carries the refreshed access token, and the refreshed credential demands
/// no second refresh while it is unexpired.
pub proof fn lemma_refresh_before_use(
    a: Auth,
    fresh: AuthResponse,
    now: u64,
    base: Seq<(Seq<char>, ParamV)>,
)
    requires
        a.expires_at <= now,
        now + (fresh.expires_in as u64) <= u64::MAX,
    ensures
        needs_refresh_spec(a, now),
        lookup(
            injected(base, refreshed_auth(fresh, now).response.access_token@),
            "access_token"@,
        ) == Some(ParamV::Str(fresh.access_token@)),
        fresh.expires_in > 0 ==> !needs_refresh_spec(refreshed_auth(fresh, now), now),
{
    let t = injected(base, fresh.access_token@);
    assert(t.last() == ("access_token"@, ParamV::Str(fresh.access_token@)));
    if fresh.expires_in > 0 {
        assert((fresh.expires_in as u64) > 0);
    }
}

/// The session a derivation yields is determined by the exchanged
/// credential alone: the child carries exactly that credential, and nothing
/// of the parent, whose own credential no derivation can touch.
pub proof fn lemma_derive_independent(a: Auth)
    ensures
        derived(a).auth == a,
{
}

} // verus!
