//! Operator login and logout.
//!
//! Login is unauthenticated (it's the entry point); logout is bearer-gated and revokes
//! the caller's own session token.

use super::Reply;
use crate::json::{self, Json, JsonView};
use crate::operators::{Operator, SESSION_TTL_S};
use crate::text;
use vstd::prelude::*;

verus! {

broadcast use vstd::string::group_string_axioms;

/// What the login endpoint was told after a step outside.
pub enum LoginEvent {
    /// The credentials were checked: the operator that they open, if any.
    Verified(Option<Operator>),
    /// The tenants in which the operator has roles were loaded.
    Tenants(Vec<i64>),
    /// The session token was minted: the id of its row, and the token.
    Minted { token_id: i64, token: String },
    /// The roles of the operator were loaded.
    Roles(Vec<i64>),
    /// The roles were bound to the session token.
    Bound,
    /// The step failed.
    Failed,
}

/// How far a login has come.
pub enum LoginState {
    /// The credentials are checked.
    Verifying,
    /// The operator is known; its tenants are loaded.
    Placing { operator: Operator },
    /// The session token is minted.
    Minting { operator: Operator, expires_at: i64, now: i64 },
    /// The roles of the operator are loaded.
    Loading { operator: Operator, expires_at: i64, now: i64, token_id: i64, token: String },
    /// They are bound to the session token.
    Binding { operator: Operator, expires_at: i64, now: i64, token: String },
    /// It has been answered.
    Over,
}

/// What the login endpoint does next.
pub enum LoginAction {
    /// Load the tenants in which the operator has roles.
    LoadTenants { operator_id: i64 },
    /// Mint a session token.
    MintSession {
        name: String,
        tenant_id: i64,
        expires_at: i64,
        created_by: String,
        operator_id: i64,
    },
    /// Load the roles of the operator.
    LoadRoles { operator_id: i64 },
    /// Bind roles to the session token.
    BindRoles { token_id: i64, role_ids: Vec<i64> },
    /// Note the time of the login, which may fail, and answer.
    Welcome { operator_id: i64, now: i64, reply: Reply },
    /// Answer.
    Answer(Reply),
}

/// The tenant that a session operates in where the operator has no roles.
pub const DEFAULT_TENANT: i64 = 1;

/// The tenant that a session operates in: the one in which the operator has roles, or the
/// default one. Where there are several, none.
pub open spec fn session_tenant(ids: Seq<i64>) -> Option<i64> {
    if ids.len() == 0 {
        Some(DEFAULT_TENANT)
    } else if ids.len() == 1 {
        Some(ids[0])
    } else {
        None
    }
}

/// The body of the answer to a login that succeeded.
pub open spec fn login_body(token: Seq<char>, expires_at: i64, username: Seq<char>) -> Seq<char> {
    json::printed_members(
        seq![
            ("token"@, JsonView::Str(token)),
            ("expires_at"@, json::integer_json(expires_at as int)),
            ("username"@, JsonView::Str(username)),
        ],
    )
}

/// Whether the action is to answer with an error.
pub open spec fn refuses(a: LoginAction, status: u16, message: Seq<char>) -> bool {
    a matches LoginAction::Answer(r) && super::replies(r, status, super::error_body(message))
}

/// Whether a login that has come so far goes on like this, when it is told the event.
///
/// Unknown user, bad password and disabled account get one generic answer, to avoid user
/// enumeration. The session token takes a snapshot of the operator's current roles.
pub open spec fn goes_on(
    before: LoginState,
    event: LoginEvent,
    now: i64,
    after: LoginState,
    action: LoginAction,
) -> bool {
    match (before, event) {
        (LoginState::Verifying, LoginEvent::Verified(Some(op))) => {
            &&& after == (LoginState::Placing { operator: op })
            &&& action == (LoginAction::LoadTenants { operator_id: op.id })
        },
        (LoginState::Verifying, LoginEvent::Verified(None)) => {
            &&& after is Over
            &&& refuses(action, super::UNAUTHORIZED, "invalid credentials"@)
        },
        (LoginState::Placing { operator: op }, LoginEvent::Tenants(ids)) => match session_tenant(
            ids@,
        ) {
            Some(tenant) => {
                let ends = (now + SESSION_TTL_S) as i64;
                &&& after == (LoginState::Minting { operator: op, expires_at: ends, now })
                &&& action matches LoginAction::MintSession {
                    name,
                    tenant_id,
                    expires_at,
                    created_by,
                    operator_id,
                }
                &&& name@ == "session:"@ + op.username@ + ":"@ + text::decimal_int(now as int)
                &&& tenant_id == tenant
                &&& expires_at == ends
                &&& created_by@ == "login:"@ + op.username@
                &&& operator_id == op.id
            },
            None => {
                &&& after is Over
                &&& refuses(
                    action,
                    super::CONFLICT,
                    "operator has role bindings in multiple tenants; tenant selection on login is not yet implemented"@,
                )
            },
        },
        (
            LoginState::Minting { operator, expires_at, now: at },
            LoginEvent::Minted { token_id, token },
        ) => {
            &&& after == (LoginState::Loading { operator, expires_at, now: at, token_id, token })
            &&& action == (LoginAction::LoadRoles { operator_id: operator.id })
        },
        (
            LoginState::Loading { operator, expires_at, now: at, token_id, token },
            LoginEvent::Roles(role_ids),
        ) => {
            &&& after == (LoginState::Binding { operator, expires_at, now: at, token })
            &&& action == (LoginAction::BindRoles { token_id, role_ids })
        },
        (LoginState::Binding { operator, expires_at, now: at, token }, LoginEvent::Bound) => {
            &&& after is Over
            &&& action matches LoginAction::Welcome { operator_id, now: noted, reply }
            &&& operator_id == operator.id
            &&& noted == at
            &&& super::replies(
                reply,
                super::OK,
                login_body(token@, expires_at, operator.username@),
            )
        },
        (LoginState::Verifying, _) | (LoginState::Placing { .. }, _) => {
            &&& after is Over
            &&& refuses(action, super::INTERNAL_ERROR, "auth backend error"@)
        },
        (_, _) => {
            &&& after is Over
            &&& refuses(action, super::INTERNAL_ERROR, "session mint failed"@)
        },
    }
}

/// Takes a login one step further. The caller performs the action and tells what came of
/// it.
pub fn login_step(state: LoginState, event: LoginEvent, now: i64) -> (r: (LoginState, LoginAction))
    requires
        now + SESSION_TTL_S <= i64::MAX,
    ensures
        goes_on(state, event, now, r.0, r.1),
{
    match (state, event) {
        (LoginState::Verifying, LoginEvent::Verified(Some(operator))) => {
            let operator_id: i64 = operator.id;
            (LoginState::Placing { operator }, LoginAction::LoadTenants { operator_id })
        },
        (LoginState::Verifying, LoginEvent::Verified(None)) => fail(
            super::UNAUTHORIZED,
            "invalid credentials",
        ),
        (LoginState::Placing { operator }, LoginEvent::Tenants(ids)) => {
            let tenant_id: i64 = if ids.len() == 0 {
                DEFAULT_TENANT
            } else if ids.len() == 1 {
                ids[0]
            } else {
                return fail(
                    super::CONFLICT,
                    "operator has role bindings in multiple tenants; tenant selection on login is not yet implemented",
                );
            };
            let expires_at: i64 = now + SESSION_TTL_S;
            // Token name must be unique; include a unix-ts suffix so the same
            // operator can hold multiple concurrent sessions (laptop + workstation).
            let name = text::concat4(
                "session:",
                operator.username.as_str(),
                ":",
                text::i64_text(now).as_str(),
            );
            let created_by = text::concat2("login:", operator.username.as_str());
            let operator_id: i64 = operator.id;
            (
                LoginState::Minting { operator, expires_at, now },
                LoginAction::MintSession { name, tenant_id, expires_at, created_by, operator_id },
            )
        },
        (
            LoginState::Minting { operator, expires_at, now: at },
            LoginEvent::Minted { token_id, token },
        ) => {
            let operator_id: i64 = operator.id;
            (
                LoginState::Loading { operator, expires_at, now: at, token_id, token },
                LoginAction::LoadRoles { operator_id },
            )
        },
        (
            LoginState::Loading { operator, expires_at, now: at, token_id, token },
            LoginEvent::Roles(role_ids),
        ) => (
            LoginState::Binding { operator, expires_at, now: at, token },
            LoginAction::BindRoles { token_id, role_ids },
        ),
        (LoginState::Binding { operator, expires_at, now: at, token }, LoginEvent::Bound) => {
            let operator_id: i64 = operator.id;
            let reply = login_reply(token, expires_at, operator.username);
            (LoginState::Over, LoginAction::Welcome { operator_id, now: at, reply })
        },
        (LoginState::Verifying, _) => fail(super::INTERNAL_ERROR, "auth backend error"),
        (LoginState::Placing { .. }, _) => fail(super::INTERNAL_ERROR, "auth backend error"),
        (_, _) => fail(super::INTERNAL_ERROR, "session mint failed"),
    }
}

/// Ends a login with an error.
fn fail(status: u16, message: &str) -> (r: (LoginState, LoginAction))
    ensures
        r.0 is Over,
        refuses(r.1, status, message@),
{
    (LoginState::Over, LoginAction::Answer(super::error_reply(status, message)))
}

/// The answer to a login that succeeded.
fn login_reply(token: String, expires_at: i64, username: String) -> (r: Reply)
    ensures
        super::replies(r, super::OK, login_body(token@, expires_at, username@)),
{
    let members: Vec<(String, Json)> = vec![
        ("token".to_string(), Json::Str(token)),
        ("expires_at".to_string(), json::integer(expires_at)),
        ("username".to_string(), Json::Str(username)),
    ];
    proof {
        reveal_strlit("token");
        reveal_strlit("expires_at");
        reveal_strlit("username");
        assert("token"@.len() == 5 && "expires_at"@.len() == 10 && "username"@.len() == 8);
        assert(json::in_turn(members@) =~= seq![
            ("token"@, JsonView::Str(token@)),
            ("expires_at"@, json::integer_json(expires_at as int)),
            ("username"@, JsonView::Str(username@)),
        ]);
    }
    Reply { status: super::OK, body: json::print_in_turn(members) }
}

/// The token in an `Authorization` header: what follows `Bearer` or `bearer` and a blank,
/// without the white space around it.
pub open spec fn bearer(header: Seq<char>) -> Option<Seq<char>> {
    if text::occurs_at(header, "Bearer "@, 0) || text::occurs_at(header, "bearer "@, 0) {
        Some(text::trim(header.skip(7)))
    } else {
        None
    }
}

/// The token in an `Authorization` header.
pub fn bearer_token(header: &str) -> (r: Option<String>)
    ensures
        text::opt_text(r) == bearer(header@),
{
    let chars = text::chars_of(header);
    let upper = text::chars_of("Bearer ");
    let lower = text::chars_of("bearer ");
    proof {
        reveal_strlit("Bearer ");
        reveal_strlit("bearer ");
    }
    if text::matches_at(&chars, &upper, 0) || text::matches_at(&chars, &lower, 0) {
        let rest = text::slice(&chars, 7, chars.len());
        assert(rest@ =~= header@.skip(7));
        Some(text::string_of(&text::trimmed(&rest)))
    } else {
        None
    }
}

/// What revoking the caller's token came to.
pub enum Revocation {
    /// There was no token in the request.
    NoToken,
    /// Whether a token was revoked.
    Done(bool),
    /// It could not be done.
    Failed,
}

/// The answer to a logout.
pub fn logout_reply(revocation: Revocation) -> (r: Reply)
    ensures
        match revocation {
            Revocation::NoToken => super::replies(
                r,
                super::OK,
                json::printed_json(super::one_member("revoked"@, JsonView::Bool(false))),
            ),
            Revocation::Done(b) => super::replies(
                r,
                super::OK,
                json::printed_json(super::one_member("revoked"@, JsonView::Bool(b))),
            ),
            Revocation::Failed => super::replies(
                r,
                super::INTERNAL_ERROR,
                super::error_body("logout failed"@),
            ),
        },
{
    match revocation {
        Revocation::NoToken => Reply {
            status: super::OK,
            body: json::print(super::object_of("revoked", Json::Bool(false))),
        },
        Revocation::Done(b) => Reply {
            status: super::OK,
            body: json::print(super::object_of("revoked", Json::Bool(b))),
        },
        Revocation::Failed => super::error_reply(super::INTERNAL_ERROR, "logout failed"),
    }
}

/// Whoever fails to log in learns nothing of why: whether the user is unknown, the
/// password bad or the account disabled, the answer is one and the same.
pub proof fn failures_look_alike(
    now: i64,
    later: i64,
    after: (LoginState, LoginAction),
    other: (LoginState, LoginAction),
)
    requires
        goes_on(LoginState::Verifying, LoginEvent::Verified(None), now, after.0, after.1),
        goes_on(LoginState::Verifying, LoginEvent::Verified(None), later, other.0, other.1),
    ensures
        after.1 matches LoginAction::Answer(a) && (other.1 matches LoginAction::Answer(b)
            && a.status == b.status && a.body@ == b.body@),
{
}

} // verus!
