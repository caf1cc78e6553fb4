//! What a login comes to, from its first step to its last, and what a bearer token is.

use super::login::{self, LoginAction, LoginEvent, LoginState};
use crate::json::{self, JsonView};
use crate::operators::Operator;
use crate::text;
use vstd::prelude::*;

verus! {

/// A login that succeeds mints a session for the operator whose credentials were checked,
/// in the only tenant in which that operator has roles, or in the first one without any,
/// for twelve hours from then on. The roles of this operator, as they were loaded, are bound
/// to the token that was minted, and this token is what the caller is handed.
pub proof fn login_opens_a_session_of_the_operator(
    op: Operator,
    ids: Vec<i64>,
    now: i64,
    token_id: i64,
    token: String,
    roles: Vec<i64>,
    times: (i64, i64, i64, i64),
    s1: LoginState,
    s2: LoginState,
    s3: LoginState,
    s4: LoginState,
    s5: LoginState,
    a1: LoginAction,
    a2: LoginAction,
    a3: LoginAction,
    a4: LoginAction,
    a5: LoginAction,
)
    requires
        login::goes_on(LoginState::Verifying, LoginEvent::Verified(Some(op)), times.0, s1, a1),
        login::goes_on(s1, LoginEvent::Tenants(ids), now, s2, a2),
        login::goes_on(s2, LoginEvent::Minted { token_id, token }, times.1, s3, a3),
        login::goes_on(s3, LoginEvent::Roles(roles), times.2, s4, a4),
        login::goes_on(s4, LoginEvent::Bound, times.3, s5, a5),
        ids@.len() <= 1,
        now + 12 * 3600 <= i64::MAX,
    ensures
        a1 == (LoginAction::LoadTenants { operator_id: op.id }),
        a2 matches LoginAction::MintSession { tenant_id, expires_at, operator_id, .. } && {
            &&& operator_id == op.id
            &&& tenant_id == (if ids@.len() == 1 {
                ids@[0]
            } else {
                1
            })
            &&& expires_at == now + 12 * 3600
        },
        a3 == (LoginAction::LoadRoles { operator_id: op.id }),
        a4 == (LoginAction::BindRoles { token_id, role_ids: roles }),
        a5 matches LoginAction::Welcome { operator_id, now: noted, reply } && {
            &&& operator_id == op.id
            &&& noted == now
            &&& reply.status == 200
            &&& reply.body@ == json::printed_members(
                seq![
                    ("token"@, JsonView::Str(token@)),
                    ("expires_at"@, json::integer_json(now + 12 * 3600)),
                    ("username"@, JsonView::Str(op.username@)),
                ],
            )
        },
        s5 is Over,
{
}

/// A login of which a step fails is answered with an error at once: the caller is handed no
/// token, and nothing more is done.
pub proof fn failed_step_ends_the_login(
    before: LoginState,
    now: i64,
    after: LoginState,
    action: LoginAction,
)
    requires
        login::goes_on(before, LoginEvent::Failed, now, after, action),
    ensures
        after is Over,
        action matches LoginAction::Answer(r) && r.status == 500,
{
}

/// An operator with roles in several tenants is not logged in, since nobody says in which.
pub proof fn several_tenants_are_refused(
    op: Operator,
    ids: Vec<i64>,
    now: i64,
    after: LoginState,
    action: LoginAction,
)
    requires
        login::goes_on(
            LoginState::Placing { operator: op },
            LoginEvent::Tenants(ids),
            now,
            after,
            action,
        ),
        ids@.len() > 1,
    ensures
        after is Over,
        action matches LoginAction::Answer(r) && r.status == 409,
{
}

/// Credentials that open no account are answered as unauthorized, and nothing is minted.
pub proof fn bad_credentials_are_unauthorized(now: i64, after: LoginState, action: LoginAction)
    requires
        login::goes_on(
            LoginState::Verifying,
            LoginEvent::Verified(None),
            now,
            after,
            action,
        ),
    ensures
        after is Over,
        action matches LoginAction::Answer(r) && r.status == 401,
{
}

/// Whatever follows `Bearer` or `bearer` and a blank is the token, without the white space
/// around it; a header that begins with neither has none.
pub proof fn bearer_is_what_follows(t: Seq<char>, header: Seq<char>)
    ensures
        login::bearer("Bearer "@ + t) == Some(text::trim(t)),
        login::bearer("bearer "@ + t) == Some(text::trim(t)),
        login::bearer(header) is Some ==> header.len() >= 7 && (header.take(7) == "Bearer "@
            || header.take(7) == "bearer "@),
{
    reveal_strlit("Bearer ");
    reveal_strlit("bearer ");
    let upper = "Bearer "@ + t;
    let lower = "bearer "@ + t;
    assert(upper.subrange(0, 7) =~= "Bearer "@);
    assert(lower.subrange(0, 7) =~= "bearer "@);
    assert(upper.skip(7) =~= t);
    assert(lower.skip(7) =~= t);
    if login::bearer(header) is Some {
        assert(header.take(7) =~= header.subrange(0, 7));
    }
}

} // verus!
