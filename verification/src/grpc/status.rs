//! What a call is answered when it is refused.

use vstd::prelude::*;

verus! {

/// The kind of a refusal.
#[derive(Clone, Copy, Debug, PartialEq, Eq, Structural)]
pub enum RpcCode {
    InvalidArgument,
    NotFound,
    PermissionDenied,
    Unauthenticated,
    Internal,
}

/// A refusal.
pub struct RpcStatus {
    pub code: RpcCode,
    pub message: String,
}

impl RpcStatus {
    /// A refusal of that kind, in these words.
    pub fn new(code: RpcCode, message: String) -> (s: Self)
        ensures
            s.code == code,
            s.message == message,
    {
        RpcStatus { code, message }
    }
}

} // verus!
