//! The request of an agent for a new certificate.

use super::status::{RpcCode, RpcStatus};
use crate::node_registry::{self, NodeRegistry, RegistryError, RenewedCert};
use crate::security::ca::CertificateAuthority;
use crate::security::x509::{self, CsrPemView, CsrView, X509View};
use crate::store::ControllerStore;
use crate::text;
use crate::timestamp::Timestamp;
use vstd::prelude::*;

verus! {

broadcast use vstd::string::group_string_axioms;

/// What a connection shows of the agent at its other end.
pub enum PeerLeaf {
    /// The connection is not encrypted.
    NoTls,
    /// The agent presented no certificate.
    NoCertificate,
    /// The agent presented a chain without certificates.
    EmptyChain,
    /// The certificate of the agent.
    Leaf(Vec<u8>),
}

/// The common name of the certificate in some bytes, or why there is none.
pub open spec fn cn_of(der: Seq<u8>) -> Result<Seq<char>, Seq<char>> {
    match x509::x509_reading(der) {
        X509View::Read { common_name: Some(cn), .. } => Ok(cn),
        X509View::Read { common_name: None, .. } => Err("no CN in subject"@),
        X509View::Refused(e) => Err("x509 parse: "@ + e),
    }
}

/// The common name of a certificate.
pub fn extract_cn(cert_der: &[u8]) -> (r: Result<String, String>)
    ensures
        match r {
            Ok(cn) => cn_of(cert_der@) == Ok::<Seq<char>, Seq<char>>(cn@),
            Err(e) => cn_of(cert_der@) == Err::<Seq<char>, Seq<char>>(e@),
        },
{
    match x509::read_x509(cert_der) {
        Ok(f) => match f.common_name {
            Some(cn) => Ok(cn),
            None => Err("no CN in subject".to_string()),
        },
        Err(e) => Err(text::concat2("x509 parse: ", e.as_str())),
    }
}

/// The common name in the signing request in a PEM text, or why there is none.
pub open spec fn csr_cn_of(pem: Seq<char>) -> Result<Seq<char>, Seq<char>> {
    match x509::csr_section(pem) {
        CsrPemView::Refused(e) => Err("PEM decode: "@ + e),
        CsrPemView::Missing => Err("PEM contained no CSR"@),
        CsrPemView::Der(der) => match x509::csr_reading(der) {
            CsrView::Refused(e) => Err("CSR parse: "@ + e),
            CsrView::Read(None) => Err("no CN in CSR subject"@),
            CsrView::Read(Some(cn)) => Ok(cn),
        },
    }
}

/// The common name in a signing request.
pub fn csr_subject_cn(csr_pem: &str) -> (r: Result<String, String>)
    ensures
        match r {
            Ok(cn) => csr_cn_of(csr_pem@) == Ok::<Seq<char>, Seq<char>>(cn@),
            Err(e) => csr_cn_of(csr_pem@) == Err::<Seq<char>, Seq<char>>(e@),
        },
{
    let der = match x509::read_csr_section(csr_pem) {
        Ok(Some(der)) => der,
        Ok(None) => {
            return Err("PEM contained no CSR".to_string());
        },
        Err(e) => {
            return Err(text::concat2("PEM decode: ", e.as_str()));
        },
    };
    match x509::read_csr(der.as_slice()) {
        Ok(Some(cn)) => Ok(cn),
        Ok(None) => Err("no CN in CSR subject".to_string()),
        Err(e) => Err(text::concat2("CSR parse: ", e.as_str())),
    }
}

/// What is known of who asks and for what, before the registry is asked: the id of the
/// node and the text of its signing request, or why the request is refused.
pub open spec fn screened(
    peer: PeerLeaf,
    csr: Seq<u8>,
    r: Result<(String, String), RpcStatus>,
) -> bool {
    match peer {
        PeerLeaf::NoTls => refused(
            r,
            RpcCode::Unauthenticated,
            "RenewClientCert requires an mTLS connection"@,
        ),
        PeerLeaf::NoCertificate => refused(
            r,
            RpcCode::Unauthenticated,
            "No peer certificate presented"@,
        ),
        PeerLeaf::EmptyChain => refused(r, RpcCode::Unauthenticated, "Empty peer cert chain"@),
        PeerLeaf::Leaf(der) => match cn_of(der@) {
            Err(e) => refused(
                r,
                RpcCode::Unauthenticated,
                "Could not extract CN from peer cert: "@ + e,
            ),
            Ok(peer_id) => if !vstd::utf8::valid_utf8(csr) {
                refused(r, RpcCode::InvalidArgument, "csr_pem must be UTF-8"@)
            } else {
                let pem = vstd::utf8::decode_utf8(csr);
                match csr_cn_of(pem) {
                    Err(e) => refused(r, RpcCode::InvalidArgument, "Could not parse CSR: "@ + e),
                    Ok(cn) => if cn != peer_id {
                        refused(
                            r,
                            RpcCode::PermissionDenied,
                            "CSR subject CN does not match authenticated node_id"@,
                        )
                    } else {
                        r matches Ok((id, text)) && id@ == peer_id && text@ == pem
                    },
                }
            },
        },
    }
}

/// Whether a request was refused in these words.
pub open spec fn refused(
    r: Result<(String, String), RpcStatus>,
    code: RpcCode,
    message: Seq<char>,
) -> bool {
    r matches Err(s) && s.code == code && s.message@ == message
}

/// Looks at who asks and for what: the common name in the signing request must be that
/// of the certificate with which the agent authenticated itself.
pub fn screen_renewal(peer: &PeerLeaf, csr_pem: &[u8]) -> (r: Result<(String, String), RpcStatus>)
    ensures
        screened(*peer, csr_pem@, r),
{
    let leaf = match peer {
        PeerLeaf::NoTls => {
            return Err(
                RpcStatus::new(
                    RpcCode::Unauthenticated,
                    "RenewClientCert requires an mTLS connection".to_string(),
                ),
            );
        },
        PeerLeaf::NoCertificate => {
            return Err(
                RpcStatus::new(
                    RpcCode::Unauthenticated,
                    "No peer certificate presented".to_string(),
                ),
            );
        },
        PeerLeaf::EmptyChain => {
            return Err(
                RpcStatus::new(RpcCode::Unauthenticated, "Empty peer cert chain".to_string()),
            );
        },
        PeerLeaf::Leaf(der) => der,
    };
    let peer_node_id = match extract_cn(leaf.as_slice()) {
        Ok(cn) => cn,
        Err(e) => {
            return Err(
                RpcStatus::new(
                    RpcCode::Unauthenticated,
                    text::concat2("Could not extract CN from peer cert: ", e.as_str()),
                ),
            );
        },
    };
    let pem = match text::from_utf8(csr_pem) {
        Some(t) => t,
        None => {
            return Err(
                RpcStatus::new(RpcCode::InvalidArgument, "csr_pem must be UTF-8".to_string()),
            );
        },
    };
    // The registry will read the CSR again to verify its signature when it signs; it is
    // read here only for its CN.
    let csr_cn = match csr_subject_cn(pem.as_str()) {
        Ok(cn) => cn,
        Err(e) => {
            return Err(
                RpcStatus::new(
                    RpcCode::InvalidArgument,
                    text::concat2("Could not parse CSR: ", e.as_str()),
                ),
            );
        },
    };
    if !text::same(csr_cn.as_str(), peer_node_id.as_str()) {
        return Err(
            RpcStatus::new(
                RpcCode::PermissionDenied,
                "CSR subject CN does not match authenticated node_id".to_string(),
            ),
        );
    }
    Ok((peer_node_id, pem))
}

/// The code for an error of the registry. A node that is not active, or whose
/// certificate is revoked, is told that it may not, so that its agent does not try
/// again and again.
pub open spec fn renewal_code(message: Seq<char>) -> RpcCode {
    if text::occurs(message, "not active"@) || text::occurs(message, "revoked"@) {
        RpcCode::PermissionDenied
    } else {
        RpcCode::Internal
    }
}

/// Whether a text stands within another.
fn holds_text(hay: &str, needle: &str) -> (r: bool)
    ensures
        r == text::occurs(hay@, needle@),
{
    text::find_text(&text::chars_of(hay), &text::chars_of(needle)).is_some()
}

/// What an error of the registry is answered.
pub fn renewal_status(e: &RegistryError) -> (s: RpcStatus)
    ensures
        s.message@ == e.message(),
        s.code == renewal_code(e.message()),
{
    let message = e.to_text();
    let denied = holds_text(message.as_str(), "not active") || holds_text(
        message.as_str(),
        "revoked",
    );
    let code: RpcCode = if denied {
        RpcCode::PermissionDenied
    } else {
        RpcCode::Internal
    };
    RpcStatus::new(code, message)
}

/// Whether that is the answer to a renewal.
pub open spec fn answered(
    renewed: Result<RenewedCert, RegistryError>,
    r: Result<RenewedCert, RpcStatus>,
) -> bool {
    match renewed {
        Ok(c) => r == Ok::<RenewedCert, RpcStatus>(c),
        Err(e) => r matches Err(s) && s.message@ == e.message() && s.code == renewal_code(
            e.message(),
        ),
    }
}

/// What becomes of a request for a new certificate that was not screened out: the node
/// renews, or is answered with the error of the registry.
pub fn answer_renewal(renewed: Result<RenewedCert, RegistryError>) -> (r: Result<
    RenewedCert,
    RpcStatus,
>)
    ensures
        answered(renewed, r),
{
    match renewed {
        Ok(c) => Ok(c),
        Err(e) => Err(renewal_status(&e)),
    }
}

/// Pulls the authenticated `node_id` from the peer cert's CN, verifies the
/// CSR's subject CN matches, and delegates to [`NodeRegistry::renew_cert`].
///
/// The connection's certificate was checked during the handshake, trust chain and
/// revocation both, so its CN is trusted here.
pub fn renew_client_cert<S: ControllerStore, C: CertificateAuthority>(
    registry: &mut NodeRegistry<C>,
    store: &mut S,
    peer: &PeerLeaf,
    csr_pem: &[u8],
    now: Timestamp,
) -> (r: Result<RenewedCert, RpcStatus>)
    requires
        old(registry).can_date(now),
    ensures
        final(store).dependable() == old(store).dependable(),
        final(registry).authority() == old(registry).authority(),
        final(registry).ttl() == old(registry).ttl(),
        exists|screening: Result<(String, String), RpcStatus>| #[trigger]
            screened(*peer, csr_pem@, screening) && match screening {
                Err(s) => r == Err::<RenewedCert, RpcStatus>(s) && final(store).model() == old(
                    store,
                ).model() && final(registry).mirror() == old(registry).mirror(),
                Ok((id, pem)) => exists|renewed: Result<RenewedCert, RegistryError>| #[trigger]
                    answered(renewed, r) && node_registry::renews(
                        old(registry).authority(),
                        old(registry).ttl(),
                        old(store).model(),
                        final(store).model(),
                        old(registry).mirror(),
                        final(registry).mirror(),
                        old(store).dependable(),
                        id@,
                        pem@,
                        now,
                        renewed,
                    ),
            },
{
    let screening = screen_renewal(peer, csr_pem);
    assert(screened(*peer, csr_pem@, screening));
    match screening {
        Err(s) => Err(s),
        Ok((node_id, pem)) => {
            let renewed = registry.renew_cert(store, node_id.as_str(), pem.as_str(), now);
            answer_renewal(renewed)
        },
    }
}

} // verus!
