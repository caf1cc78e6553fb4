//! The requests of agents that are not enrolled yet.

use super::greeting::{self, non_empty};
use super::status::{RpcCode, RpcStatus};
use crate::node_registry::{self, NodeRegistry, RegistryError};
use crate::proto::{BootstrapToken, EnrollRequest, EnrollmentResponse, EnrollmentStatus, EnrollmentStatusResponse};
use crate::security::ca::CertificateAuthority;
use crate::store::records;
use crate::store::{ControllerStore, NodeStatus, StoreError};
use crate::text;
use crate::timestamp::Timestamp;
use vstd::prelude::*;

verus! {

broadcast use vstd::string::group_string_axioms;

/// The answer to an enrollment request that was taken in: it is approved where
/// credentials were issued with it, else it waits.
pub fn enrollment_response(
    enrollment_id: String,
    auto_approved_cert: Option<String>,
    ca_cert_pem: String,
) -> (r: EnrollmentResponse)
    ensures
        r.enrollment_id == enrollment_id,
        r.ca_cert_pem@ == vstd::utf8::encode_utf8(ca_cert_pem@),
        match auto_approved_cert {
            Some(blob) => r.status == EnrollmentStatus::Approved && r.client_cert_pem@
                == vstd::utf8::encode_utf8(blob@),
            None => r.status == EnrollmentStatus::Pending && r.client_cert_pem@.len() == 0,
        },
{
    let ca_cert = records::copy_bytes(ca_cert_pem.as_str().as_bytes());
    match auto_approved_cert {
        Some(blob) => EnrollmentResponse {
            enrollment_id,
            status: EnrollmentStatus::Approved,
            ca_cert_pem: ca_cert,
            client_cert_pem: records::copy_bytes(blob.as_str().as_bytes()),
        },
        None => EnrollmentResponse {
            enrollment_id,
            status: EnrollmentStatus::Pending,
            ca_cert_pem: ca_cert,
            client_cert_pem: Vec::new(),
        },
    }
}

/// The request that an agent makes of the registry. What the agent leaves empty it does
/// not have.
pub open spec fn asks(req: EnrollRequest, asked: node_registry::EnrollmentRequest) -> bool {
    &&& asked.public_key_der == req.public_key_der
    &&& text::opt_text(asked.dmi_uuid) == greeting::given(req.dmi_uuid@)
    &&& asked.csr_pem == req.csr_pem
    &&& asked.signature == req.signature
    &&& text::opt_text(asked.agent_version) == greeting::given(req.agent_version@)
    &&& asked.tpm_backed == req.tpm_backed
    &&& text::opt_text(asked.hostname) == greeting::given(req.hostname@)
}

/// The token that a request carries.
pub open spec fn token_of(t: Option<BootstrapToken>) -> Option<(Seq<char>, Seq<u8>)> {
    match t {
        Some(t) => Some((t.token_id@, t.token@)),
        None => None,
    }
}

/// Takes in an enrollment request, and approves it where it carries a valid token.
pub fn request_enrollment<S: ControllerStore, C: CertificateAuthority>(
    registry: &NodeRegistry<C>,
    store: &mut S,
    req: EnrollRequest,
    now: Timestamp,
) -> (r: Result<EnrollmentResponse, RpcStatus>)
    requires
        registry.can_date(now),
    ensures
        final(store).dependable() == old(store).dependable(),
        exists|
            asked: node_registry::EnrollmentRequest,
            enrolled: Result<(String, Option<String>), RegistryError>,
        |
            {
                &&& asks(req, asked)
                &&& #[trigger] node_registry::enrolls(
                    registry.authority(),
                    registry.ttl(),
                    old(store).model(),
                    final(store).model(),
                    old(store).dependable(),
                    asked,
                    token_of(req.bootstrap_token),
                    now,
                    enrolled,
                )
                &&& answers(enrolled, registry.authority().anchor(), r)
            },
{
    let asked = node_registry::EnrollmentRequest {
        public_key_der: req.public_key_der,
        dmi_uuid: non_empty(&req.dmi_uuid),
        csr_pem: req.csr_pem,
        signature: req.signature,
        agent_version: non_empty(&req.agent_version),
        tpm_backed: req.tpm_backed,
        hostname: non_empty(&req.hostname),
    };
    let ghost asked_view = asked;
    assert(asks(req, asked_view));
    let token: Option<(String, Vec<u8>)> = match req.bootstrap_token {
        Some(t) => Some((t.token_id, t.token)),
        None => None,
    };
    let enrolled = registry.submit_enrollment_with_token(
        store,
        asked.public_key_der,
        asked.dmi_uuid,
        asked.csr_pem,
        asked.signature,
        asked.agent_version,
        asked.tpm_backed,
        asked.hostname,
        token,
        now,
    );
    assert(node_registry::enrolls(
        registry.authority(),
        registry.ttl(),
        old(store).model(),
        store.model(),
        store.dependable(),
        asked_view,
        token_of(req.bootstrap_token),
        now,
        enrolled,
    ));
    answer_enrollment(enrolled, registry.ca_cert_pem())
}

/// Whether that is the answer to an enrollment.
pub open spec fn answers(
    enrolled: Result<(String, Option<String>), RegistryError>,
    anchor: Seq<char>,
    r: Result<EnrollmentResponse, RpcStatus>,
) -> bool {
    match enrolled {
        Ok((id, blob)) => r matches Ok(a) && a.enrollment_id == id && a.ca_cert_pem@
            == vstd::utf8::encode_utf8(anchor) && match blob {
            Some(b) => a.status == EnrollmentStatus::Approved && a.client_cert_pem@
                == vstd::utf8::encode_utf8(b@),
            None => a.status == EnrollmentStatus::Pending && a.client_cert_pem@.len() == 0,
        },
        Err(e) => r matches Err(s) && s.code == RpcCode::InvalidArgument && s.message@
            == e.message(),
    }
}

/// The answer to an enrollment.
pub fn answer_enrollment(
    enrolled: Result<(String, Option<String>), RegistryError>,
    ca_cert_pem: String,
) -> (r: Result<EnrollmentResponse, RpcStatus>)
    ensures
        answers(enrolled, ca_cert_pem@, r),
{
    match enrolled {
        Ok((id, blob)) => Ok(enrollment_response(id, blob, ca_cert_pem)),
        Err(e) => Err(RpcStatus::new(RpcCode::InvalidArgument, e.to_text())),
    }
}

/// The status of an enrollment, from the word for the status of its node.
pub open spec fn status_of_word(w: Seq<char>) -> EnrollmentStatus {
    if w == "pending"@ {
        EnrollmentStatus::Pending
    } else if w == "active"@ {
        EnrollmentStatus::Approved
    } else if w == "decommissioned"@ {
        EnrollmentStatus::Rejected
    } else {
        EnrollmentStatus::Unspecified
    }
}

/// Whether that is the answer to a question for an enrollment.
pub open spec fn tells(
    checked: Result<(String, Option<String>), RegistryError>,
    r: Result<EnrollmentStatusResponse, RpcStatus>,
) -> bool {
    match checked {
        Ok((word, pem)) => r matches Ok(a) && a.status == status_of_word(word@)
            && a.reject_reason@.len() == 0 && a.client_cert_pem@ == (match pem {
            Some(p) => vstd::utf8::encode_utf8(p@),
            None => Seq::empty(),
        }),
        Err(e) => r matches Err(s) && s.code == RpcCode::NotFound && s.message@ == e.message(),
    }
}

/// The answer to a question for an enrollment.
pub fn answer_status(checked: Result<(String, Option<String>), RegistryError>) -> (r: Result<
    EnrollmentStatusResponse,
    RpcStatus,
>)
    ensures
        tells(checked, r),
{
    match checked {
        Ok((word, pem)) => {
            let w = word.as_str();
            let status: EnrollmentStatus = if text::same(w, "pending") {
                EnrollmentStatus::Pending
            } else if text::same(w, "active") {
                EnrollmentStatus::Approved
            } else if text::same(w, "decommissioned") {
                EnrollmentStatus::Rejected
            } else {
                EnrollmentStatus::Unspecified
            };
            let client_cert_pem: Vec<u8> = match pem {
                Some(p) => records::copy_bytes(p.as_str().as_bytes()),
                None => Vec::new(),
            };
            Ok(EnrollmentStatusResponse { status, client_cert_pem, reject_reason: String::new() })
        },
        Err(e) => Err(RpcStatus::new(RpcCode::NotFound, e.to_text())),
    }
}

/// Whether the text is that of a failure of the store's backend.
pub open spec fn backend_says(e: StoreError, t: Seq<char>) -> bool {
    e is Backend && t == e.message()
}

/// Tells an agent where its enrollment stands: it waits, is approved and comes with
/// the credentials, or was rejected.
pub fn check_enrollment_status<S: ControllerStore, C: CertificateAuthority>(
    registry: &NodeRegistry<C>,
    store: &S,
    enrollment_id: &str,
) -> (r: Result<EnrollmentStatusResponse, RpcStatus>)
    ensures
        ({
            let m = store.model();
            let id = m.enrollments[enrollment_id@];
            let known = m.enrollments.contains_key(enrollment_id@) && m.nodes.contains_key(id);
            match r {
                Ok(a) => {
                    &&& known
                    &&& a.status == match m.nodes[id].status {
                        NodeStatus::Pending => EnrollmentStatus::Pending,
                        NodeStatus::Active => EnrollmentStatus::Approved,
                        NodeStatus::Decommissioned => EnrollmentStatus::Rejected,
                    }
                    &&& a.client_cert_pem@ == (if m.nodes[id].status == NodeStatus::Active
                        && m.certs.contains_key(m.nodes[id].id) {
                        vstd::utf8::encode_utf8(m.certs[m.nodes[id].id])
                    } else {
                        Seq::empty()
                    })
                    &&& a.reject_reason@.len() == 0
                },
                Err(s) => {
                    &&& s.code == RpcCode::NotFound
                    &&& store.dependable() ==> !known
                    &&& !known && s.message@ == "Unknown enrollment ID: "@ + enrollment_id@ || (
                    exists|e: StoreError| #[trigger] backend_says(e, s.message@))
                },
            }
        }),
{
    proof {
        reveal_strlit("pending");
        reveal_strlit("active");
        reveal_strlit("decommissioned");
        assert("pending"@.len() == 7 && "active"@.len() == 6 && "decommissioned"@.len() == 14);
    }
    let checked = registry.check_enrollment_status(store, enrollment_id);
    proof {
        if checked matches Err(RegistryError::Store(_)) {
            assert(backend_says(checked->Err_0->Store_0, checked->Err_0.message()));
        }
    }
    answer_status(checked)
}

} // verus!
