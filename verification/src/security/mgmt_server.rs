//! Whom the management port trusts.

use super::server_cert::{self, certificates_of};
use super::x509;
use crate::text;
use vstd::prelude::*;

verus! {

broadcast use vstd::string::group_string_axioms;

/// Why a PEM text gives no trust anchors.
#[derive(Debug)]
pub enum AnchorError {
    Certificate(String),
    Empty,
}

impl AnchorError {
    /// The text of the error.
    pub open spec fn message(self) -> Seq<char> {
        match self {
            AnchorError::Certificate(e) => "Failed to parse CA cert PEM for client verifier: "@
                + e@,
            AnchorError::Empty =>
                "CA PEM contained no certificates — refusing to start management server with an empty client-cert trust store"@,
        }
    }

    /// The text of the error.
    pub fn to_text(&self) -> (s: String)
        ensures
            s@ == self.message(),
    {
        match self {
            AnchorError::Certificate(e) => text::concat2(
                "Failed to parse CA cert PEM for client verifier: ",
                e.as_str(),
            ),
            AnchorError::Empty =>
                "CA PEM contained no certificates — refusing to start management server with an empty client-cert trust store".to_string(),
        }
    }
}

/// The certificates against which those of clients are verified: all in the PEM text,
/// every one of which has to be readable. A server without any would trust nobody, so
/// there has to be one.
pub fn trust_anchors(ca_cert_pem: &str) -> (r: Result<Vec<Vec<u8>>, AnchorError>)
    ensures
        match server_cert::all_ders(x509::pem_certificates(ca_cert_pem@)) {
            Ok(ders) => if ders.len() == 0 {
                r matches Err(AnchorError::Empty)
            } else {
                r matches Ok(v) && crate::store::byte_views(v@) == ders
            },
            Err(e) => r matches Err(AnchorError::Certificate(t)) && t@ == e,
        },
{
    match certificates_of(ca_cert_pem) {
        Ok(v) => if v.len() == 0 {
            Err(AnchorError::Empty)
        } else {
            Ok(v)
        },
        Err(e) => Err(AnchorError::Certificate(e)),
    }
}

} // verus!
