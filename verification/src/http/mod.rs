//! The decisions of the HTTP API: what its handlers answer, what its WebSocket streams
//! send, and in what shape.

pub mod alerts;
pub mod events;
pub mod laws;
pub mod login;
pub mod login_laws;
pub mod metrics;
pub mod query_laws;
pub mod streams;

use crate::json::{self, Json, JsonView};
use vstd::prelude::*;

verus! {

broadcast use vstd::string::group_string_axioms;

/// The status and the body of an answer.
pub struct Reply {
    pub status: u16,
    pub body: String,
}

/// A request that was served.
pub const OK: u16 = 200;

/// A request that makes no sense.
pub const BAD_REQUEST: u16 = 400;

/// A caller that is not known.
pub const UNAUTHORIZED: u16 = 401;

/// Something that is not there.
pub const NOT_FOUND: u16 = 404;

/// A request that is at odds with what is on record.
pub const CONFLICT: u16 = 409;

/// A fault on this side.
pub const INTERNAL_ERROR: u16 = 500;

/// Whether an answer has this status and this body.
pub open spec fn replies(r: Reply, status: u16, body: Seq<char>) -> bool {
    r.status == status && r.body@ == body
}

/// The JSON object with one member.
pub open spec fn one_member(name: Seq<char>, value: JsonView) -> JsonView {
    JsonView::Object(Map::<Seq<char>, JsonView>::empty().insert(name, value))
}

/// The body that tells of an error.
pub open spec fn error_body(message: Seq<char>) -> Seq<char> {
    json::printed_json(one_member("error"@, JsonView::Str(message)))
}

/// The JSON object with one member.
pub(crate) fn object_of(name: &str, value: Json) -> (j: Json)
    requires
        value.wf(),
    ensures
        j@ == one_member(name@, value@),
        j.wf(),
{
    let mut members: Vec<(String, Json)> = Vec::new();
    proof {
        json::lemma_no_members();
        assert(members@ =~= Seq::<(String, Json)>::empty());
    }
    json::put(&mut members, name, value);
    proof {
        json::lemma_object_view(members);
    }
    Json::Object(members)
}

/// The answer that tells of an error.
pub(crate) fn error_reply(status: u16, message: &str) -> (r: Reply)
    ensures
        replies(r, status, error_body(message@)),
{
    Reply { status, body: json::print(object_of("error", Json::Str(message.to_string()))) }
}

/// The answer of a controller that is up.
pub fn health() -> (r: Reply)
    ensures
        replies(r, OK, json::printed_json(one_member("status"@, JsonView::Str("ok"@)))),
{
    Reply { status: OK, body: json::print(object_of("status", Json::Str("ok".to_string()))) }
}

/// A limit on the number of rows: what was asked for, or the default, but at least one and
/// at most ten thousand.
pub fn clamp_limit(asked: Option<i64>, default: i64) -> (n: i64)
    ensures
        ({
            let wanted = match asked {
                Some(n) => n,
                None => default,
            };
            n == (if wanted < 1 {
                1
            } else if wanted > 10_000 {
                10_000
            } else {
                wanted as int
            })
        }),
{
    let wanted: i64 = match asked {
        Some(n) => n,
        None => default,
    };
    if wanted < 1 {
        1
    } else if wanted > 10_000 {
        10_000
    } else {
        wanted
    }
}

} // verus!
