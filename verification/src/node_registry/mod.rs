//! All enrollment and node management operations.

pub mod effect_laws;
pub mod laws;
pub mod possession;
pub mod tokens;

pub use tokens::{BootstrapBundle, IssuedToken};

use crate::crypto;
use crate::ids;
use crate::security::ca::{CaError, CertificateAuthority, IssuedCert, IssuedView};
use crate::security::revocation::RevocationWatch;
use crate::store::model::{RedeemView, StoreModel};
use crate::store::records::{self, NewAuditView, NodeView};
use crate::store::{
    self, ControllerStore, EnrollmentTokenRecord, NewAuditEntry, NodeRecord, NodeStatus,
    StoreError, TokenRedeemOutcome,
};
use crate::text;
use crate::timestamp::{self, TimeSpan, Timestamp};
use tokens::{MintError, TokenRequest};
use vstd::prelude::*;

verus! {

broadcast use vstd::string::group_string_axioms;

/// Renewed credential returned by [`NodeRegistry::renew_cert`].
///
/// The renewed key is *not* in here — for CSR-based renewals the agent
/// already holds the key and the controller never sees it.
pub struct RenewedCert {
    pub cert_pem: String,
    pub serial: Vec<u8>,
    pub not_after_unix: i64,
}

/// Default node-cert TTL: 90 days.
pub const DEFAULT_NODE_CERT_TTL_SECS: u64 = 7_776_000;

/// Why the registry refused an operation.
#[derive(Debug)]
pub enum RegistryError {
    PublicKey(String),
    SignatureForm(String),
    SignatureMismatch(String),
    AlreadyActive(String),
    UnknownEnrollment(String),
    NodeNotFound(String),
    CannotApprove { node_id: String, status: NodeStatus },
    NotPending(String),
    Issue(CaError),
    NotActive { node_id: String, status: NodeStatus },
    SerialRevoked(String),
    RenewalSigning(CaError),
    AlreadyDecommissioned(String),
    NotDecommissioned { node_id: String, status: NodeStatus },
    GoneAfterApproval,
    Fingerprint(CaError),
    Mint(MintError),
    TenantMove(StoreError),
    AutoApproval(String),
    NoCredentials,
    Store(StoreError),
}

impl RegistryError {
    /// The text of the error.
    pub open spec fn message(self) -> Seq<char> {
        match self {
            RegistryError::PublicKey(e) => "Failed to parse public key DER: "@ + e@,
            RegistryError::SignatureForm(e) => "Failed to parse enrollment signature: "@ + e@,
            RegistryError::SignatureMismatch(e) =>
                "Enrollment signature verification failed — request rejected: "@ + e@,
            RegistryError::AlreadyActive(id) => "Node "@ + id@
                + " is already enrolled and active"@,
            RegistryError::UnknownEnrollment(id) => "Unknown enrollment ID: "@ + id@,
            RegistryError::NodeNotFound(id) => "Node not found: "@ + id@,
            RegistryError::CannotApprove { node_id, status } => "Cannot approve node "@ + node_id@
                + ": status is "@ + status.word() + " (expected pending)"@,
            RegistryError::NotPending(id) => "Node "@ + id@ + " is not in pending state"@,
            RegistryError::Issue(e) => "Failed to issue client certificate: "@ + e.message(),
            RegistryError::NotActive { node_id, status } => "Node "@ + node_id@
                + " is not active (status: "@ + status.word() + ")"@,
            RegistryError::SerialRevoked(id) => "Node "@ + id@
                + " current cert serial is revoked — renewal refused"@,
            RegistryError::RenewalSigning(e) => "Failed to sign renewal CSR: "@ + e.message(),
            RegistryError::AlreadyDecommissioned(id) => "Node "@ + id@
                + " is already decommissioned"@,
            RegistryError::NotDecommissioned { node_id, status } => "Node "@ + node_id@
                + " must be decommissioned before removal (status: "@ + status.word() + ")"@,
            RegistryError::GoneAfterApproval => "Node not found after approval"@,
            RegistryError::Fingerprint(e) => "Failed to compute CA fingerprint: "@ + e.message(),
            RegistryError::Mint(e) => e.message(),
            RegistryError::TenantMove(e) =>
                "Failed to set node tenant after token redemption: "@ + e.message(),
            RegistryError::AutoApproval(e) => "Auto-approval after token redemption failed: "@
                + e@,
            RegistryError::NoCredentials => "Auto-approve issued no cert blob"@,
            RegistryError::Store(e) => e.message(),
        }
    }

    /// The text of the error.
    pub fn to_text(&self) -> (s: String)
        ensures
            s@ == self.message(),
    {
        match self {
            RegistryError::PublicKey(e) => text::concat2(
                "Failed to parse public key DER: ",
                e.as_str(),
            ),
            RegistryError::SignatureForm(e) => text::concat2(
                "Failed to parse enrollment signature: ",
                e.as_str(),
            ),
            RegistryError::SignatureMismatch(e) => text::concat2(
                "Enrollment signature verification failed — request rejected: ",
                e.as_str(),
            ),
            RegistryError::AlreadyActive(id) => text::concat3(
                "Node ",
                id.as_str(),
                " is already enrolled and active",
            ),
            RegistryError::UnknownEnrollment(id) => text::concat2(
                "Unknown enrollment ID: ",
                id.as_str(),
            ),
            RegistryError::NodeNotFound(id) => text::concat2("Node not found: ", id.as_str()),
            RegistryError::CannotApprove { node_id, status } => {
                let mut s = text::concat4(
                    "Cannot approve node ",
                    node_id.as_str(),
                    ": status is ",
                    status.to_text().as_str(),
                );
                s.push_str(" (expected pending)");
                s
            },
            RegistryError::NotPending(id) => text::concat3(
                "Node ",
                id.as_str(),
                " is not in pending state",
            ),
            RegistryError::Issue(e) => text::concat2(
                "Failed to issue client certificate: ",
                e.to_text().as_str(),
            ),
            RegistryError::NotActive { node_id, status } => {
                let mut s = text::concat4(
                    "Node ",
                    node_id.as_str(),
                    " is not active (status: ",
                    status.to_text().as_str(),
                );
                s.push_str(")");
                s
            },
            RegistryError::SerialRevoked(id) => text::concat3(
                "Node ",
                id.as_str(),
                " current cert serial is revoked — renewal refused",
            ),
            RegistryError::RenewalSigning(e) => text::concat2(
                "Failed to sign renewal CSR: ",
                e.to_text().as_str(),
            ),
            RegistryError::AlreadyDecommissioned(id) => text::concat3(
                "Node ",
                id.as_str(),
                " is already decommissioned",
            ),
            RegistryError::NotDecommissioned { node_id, status } => {
                let mut s = text::concat4(
                    "Node ",
                    node_id.as_str(),
                    " must be decommissioned before removal (status: ",
                    status.to_text().as_str(),
                );
                s.push_str(")");
                s
            },
            RegistryError::GoneAfterApproval => "Node not found after approval".to_string(),
            RegistryError::Fingerprint(e) => text::concat2(
                "Failed to compute CA fingerprint: ",
                e.to_text().as_str(),
            ),
            RegistryError::Mint(e) => e.to_text(),
            RegistryError::TenantMove(e) => text::concat2(
                "Failed to set node tenant after token redemption: ",
                e.to_text().as_str(),
            ),
            RegistryError::AutoApproval(e) => text::concat2(
                "Auto-approval after token redemption failed: ",
                e.as_str(),
            ),
            RegistryError::NoCredentials => "Auto-approve issued no cert blob".to_string(),
            RegistryError::Store(e) => e.to_text(),
        }
    }
}

/// The id of a node, from its public key.
pub open spec fn node_id_of(public_key_der: Seq<u8>) -> Seq<char> {
    crypto::hex_text(crypto::sha256(public_key_der))
}

/// Derive `node_id` from a SubjectPublicKeyInfo DER. Stable across reboots.
pub fn derive_node_id(public_key_der: &[u8]) -> (s: String)
    ensures
        s@ == node_id_of(public_key_der@),
        s@.len() == 64,
{
    crypto::encode_hex(crypto::digest(public_key_der).as_slice())
}

/// What an agent sends to be enrolled.
pub struct EnrollmentRequest {
    pub public_key_der: Vec<u8>,
    pub dmi_uuid: Option<String>,
    pub csr_pem: Vec<u8>,
    pub signature: Vec<u8>,
    pub agent_version: Option<String>,
    pub tpm_backed: bool,
    pub hostname: Option<String>,
}

impl EnrollmentRequest {
    /// The id of the node that asks.
    pub open spec fn node_id(self) -> Seq<char> {
        node_id_of(self.public_key_der@)
    }

    /// Whether the request shows that the agent holds the private key.
    pub open spec fn proven(self) -> bool {
        &&& possession::key_readable(self.public_key_der@)
        &&& possession::signature_readable(self.signature@)
        &&& possession::signature_holds(
            self.public_key_der@,
            crypto::sha256(self.csr_pem@),
            self.signature@,
        )
    }

    /// The record of the node while it waits for approval.
    pub open spec fn pending_node(self, enrollment_id: Seq<char>) -> NodeView {
        NodeView {
            id: self.node_id(),
            label: None,
            public_key_der: self.public_key_der@,
            dmi_uuid: text::opt_text(self.dmi_uuid),
            status: NodeStatus::Pending,
            cert_serial: None,
            cert_expiry: None,
            last_seen: None,
            enrolled_at: None,
            decommissioned_at: None,
            last_renewed_at: None,
            enrollment_id: Some(enrollment_id),
            tpm_backed: self.tpm_backed,
            agent_version: text::opt_text(self.agent_version),
            hostname: text::opt_text(self.hostname),
            os_pretty_name: None,
            kernel_version: None,
            dmi_sys_vendor: None,
            dmi_product_name: None,
            tenant_id: "default"@,
            stop_behavior: None,
            metrics_interval_secs: None,
            capabilities: "{}"@,
            inspect_mode: "disabled"@,
        }
    }
}

/// The audit entry on a node.
pub open spec fn node_entry(
    operator: Option<Seq<char>>,
    action: Seq<char>,
    node_id: Seq<char>,
    detail: Option<Seq<char>>,
) -> NewAuditView {
    NewAuditView { operator, action, node_id: Some(node_id), detail, tenant_id: None }
}

/// A detail behind a word, where there is one.
pub open spec fn noted(word: Seq<char>, detail: Option<Seq<char>>) -> Option<Seq<char>> {
    match detail {
        Some(d) => Some(word + d),
        None => None,
    }
}

/// A detail behind a word, where there is one.
fn note_detail(word: &str, detail: Option<&str>) -> (r: Option<String>)
    ensures
        text::opt_text(r) == noted(word@, text::opt_str(detail)),
{
    match detail {
        Some(d) => Some(text::concat2(word, d)),
        None => None,
    }
}

/// Whether a node is on record and has that status.
pub open spec fn has_status(m: StoreModel, id: Seq<char>, status: NodeStatus) -> bool {
    m.nodes.contains_key(id) && m.nodes[id].status == status
}

/// Whether an error of the registry is a failure of the store's backend, which a
/// dependable store does not have.
pub open spec fn backend_failed(e: RegistryError, dependable: bool) -> bool {
    &&& !dependable
    &&& match e {
        RegistryError::Store(e) => e is Backend,
        RegistryError::TenantMove(e) => e is Backend,
        RegistryError::AutoApproval(_) => true,
        _ => false,
    }
}

/// The store after an enrollment request was taken in.
pub open spec fn submitted(
    m: StoreModel,
    req: EnrollmentRequest,
    enrollment_id: Seq<char>,
    audit_id: i64,
    now: Timestamp,
) -> StoreModel {
    m.with_node(req.pending_node(enrollment_id)).audited(
        audit_id,
        node_entry(
            None,
            "enrollment_submitted"@,
            req.node_id(),
            Some("enrollment_id="@ + enrollment_id),
        ),
        now,
    )
}

/// How long a certificate lasts when its validity window is counted in 64 bits with a
/// sign.
pub open spec fn ttl_span(ttl_secs: u64) -> int {
    if ttl_secs <= i64::MAX {
        ttl_secs as int
    } else {
        ttl_secs - 0x1_0000_0000_0000_0000
    }
}

/// How long a certificate lasts.
fn signed_ttl(ttl_secs: u64) -> (t: i64)
    ensures
        t == ttl_span(ttl_secs),
{
    if ttl_secs <= i64::MAX as u64 {
        ttl_secs as i64
    } else {
        -((u64::MAX - ttl_secs) as i64) - 1
    }
}

/// The seconds since 1970 at a point in time, none before.
pub open spec fn unix_secs(now: Timestamp) -> u64 {
    if now.secs < 0 {
        0
    } else {
        now.secs as u64
    }
}

/// The seconds since 1970 at a point in time.
fn clock_secs(now: &Timestamp) -> (t: u64)
    ensures
        t == unix_secs(*now),
{
    if now.secs < 0 {
        0
    } else {
        now.secs as u64
    }
}

/// When a certificate that is issued now expires.
pub open spec fn expiry_of(now: Timestamp, ttl_secs: u64) -> Timestamp {
    Timestamp { secs: (now.secs + ttl_span(ttl_secs)) as i64, nanos: now.nanos }
}

/// The record of a node that was approved.
pub open spec fn approved_node(
    n: NodeView,
    c: IssuedView,
    label: Option<Seq<char>>,
    expiry: Timestamp,
    now: Timestamp,
) -> NodeView {
    NodeView {
        label: match label {
            Some(_) => label,
            None => n.label,
        },
        status: NodeStatus::Active,
        enrolled_at: Some(now),
        cert_expiry: Some(expiry),
        cert_serial: Some(c.serial),
        ..n
    }
}

/// The store after a node was approved and given a certificate: the node is active,
/// its credentials can be fetched, and the approval is noted.
pub open spec fn approved(
    m: StoreModel,
    node_id: Seq<char>,
    c: IssuedView,
    label: Option<Seq<char>>,
    operator: Option<Seq<char>>,
    expiry: Timestamp,
    now: Timestamp,
    audit_id: i64,
) -> StoreModel {
    let n = m.nodes[node_id];
    StoreModel {
        certs: m.certs.insert(node_id, c.key_pem + c.cert_pem),
        ..m.node_changed(
            node_id,
            NodeView {
                status: NodeStatus::Active,
                cert_serial: Some(c.serial),
                cert_expiry: Some(expiry),
                ..n
            },
        )
    }.audited(
        audit_id,
        node_entry(operator, "enrollment_approved"@, node_id, noted("label="@, label)),
        now,
    ).with_node(approved_node(n, c, label, expiry, now))
}

/// The store after a certificate was renewed: the node has the new serial, the old one
/// is revoked, and the renewal is noted.
pub open spec fn renewed(
    m: StoreModel,
    node_id: Seq<char>,
    serial: Seq<u8>,
    expiry: Timestamp,
    now: Timestamp,
    audit_id: i64,
) -> StoreModel {
    let n = m.nodes[node_id];
    StoreModel {
        revoked: match n.cert_serial {
            Some(s) => m.revoked.insert(s),
            None => m.revoked,
        },
        ..m.node_changed(
            node_id,
            NodeView { cert_serial: Some(serial), cert_expiry: Some(expiry), ..n },
        )
    }.with_node(
        NodeView {
            cert_serial: Some(serial),
            cert_expiry: Some(expiry),
            last_renewed_at: Some(now),
            ..n
        },
    ).audited(
        audit_id,
        node_entry(
            None,
            "cert_renewed"@,
            node_id,
            match n.cert_serial {
                Some(s) => Some("old_serial="@ + crypto::hex_text(s)),
                None => None,
            },
        ),
        now,
    )
}

/// The store after a node was decommissioned: its certificate is revoked.
pub open spec fn decommissioned(
    m: StoreModel,
    node_id: Seq<char>,
    operator: Option<Seq<char>>,
    now: Timestamp,
    audit_id: i64,
) -> StoreModel {
    let n = m.nodes[node_id];
    StoreModel {
        revoked: match n.cert_serial {
            Some(s) => m.revoked.insert(s),
            None => m.revoked,
        },
        ..m
    }.with_node(
        NodeView { status: NodeStatus::Decommissioned, decommissioned_at: Some(now), ..n },
    ).audited(audit_id, node_entry(operator, "node_decommissioned"@, node_id, None), now)
}

/// The mirror after the certificate of a node was revoked.
pub open spec fn mirrored(mirror: Option<Set<Seq<u8>>>, serial: Option<Seq<u8>>) -> Option<
    Set<Seq<u8>>,
> {
    match (mirror, serial) {
        (Some(m), Some(s)) => Some(m.insert(s)),
        _ => mirror,
    }
}

/// Whether that is what submitting a request comes to, once it is known whether the
/// agent holds the private key.
pub open spec fn takes_in(
    before: StoreModel,
    after: StoreModel,
    dependable: bool,
    req: EnrollmentRequest,
    now: Timestamp,
    r: Result<String, RegistryError>,
) -> bool {
    match r {
        Ok(id) => {
            &&& !has_status(before, req.node_id(), NodeStatus::Active)
            &&& ids::uuid_shaped(id@)
            &&& after == submitted(before, req, id@, after.audit.last().id, now)
        },
        Err(RegistryError::AlreadyActive(id)) => {
            &&& has_status(before, req.node_id(), NodeStatus::Active)
            &&& id@ == req.node_id()
            &&& after == before
        },
        Err(e) => e is Store && backend_failed(e, dependable),
    }
}

/// Whether that is what submitting a request comes to.
pub open spec fn submits(
    before: StoreModel,
    after: StoreModel,
    dependable: bool,
    req: EnrollmentRequest,
    now: Timestamp,
    r: Result<String, RegistryError>,
) -> bool {
    let key = possession::key_readable(req.public_key_der@);
    let form = possession::signature_readable(req.signature@);
    match r {
        Err(RegistryError::PublicKey(_)) => !key && after == before,
        Err(RegistryError::SignatureForm(_)) => key && !form && after == before,
        Err(RegistryError::SignatureMismatch(_)) => key && form && !req.proven() && after
            == before,
        _ => req.proven() && takes_in(before, after, dependable, req, now, r),
    }
}

/// Looks whether a request shows that the agent holds the private key: it signed the
/// hash of its CSR.
fn check_possession(req: &EnrollmentRequest) -> (r: Result<(), RegistryError>)
    ensures
        match r {
            Ok(()) => req.proven(),
            Err(RegistryError::PublicKey(_)) => !possession::key_readable(req.public_key_der@),
            Err(RegistryError::SignatureForm(_)) => possession::key_readable(
                req.public_key_der@,
            ) && !possession::signature_readable(req.signature@),
            Err(RegistryError::SignatureMismatch(_)) => possession::key_readable(
                req.public_key_der@,
            ) && possession::signature_readable(req.signature@) && !req.proven(),
            Err(_) => false,
        },
{
    if let Err(e) = possession::read_key(req.public_key_der.as_slice()) {
        return Err(RegistryError::PublicKey(e));
    }
    let csr_hash = crypto::digest(req.csr_pem.as_slice());
    if let Err(e) = possession::read_signature(req.signature.as_slice()) {
        return Err(RegistryError::SignatureForm(e));
    }
    match possession::verify(
        req.public_key_der.as_slice(),
        csr_hash.as_slice(),
        req.signature.as_slice(),
    ) {
        Ok(()) => Ok(()),
        Err(e) => Err(RegistryError::SignatureMismatch(e)),
    }
}

/// Takes in the request of an agent that holds the private key: the node waits for
/// approval, unless it is active already.
pub fn take_in<S: ControllerStore>(store: &mut S, req: EnrollmentRequest, now: Timestamp) -> (r:
    Result<String, RegistryError>)
    ensures
        final(store).dependable() == old(store).dependable(),
        takes_in(old(store).model(), final(store).model(), old(store).dependable(), req, now, r),
{
    let node_id = derive_node_id(req.public_key_der.as_slice());
    match store.get_node(node_id.as_str()) {
        Ok(Some(existing)) => if existing.status == NodeStatus::Active {
            return Err(RegistryError::AlreadyActive(node_id));
        },
        Ok(None) => {},
        Err(e) => {
            return Err(RegistryError::Store(e));
        },
    }
    let enrollment_id = ids::new_uuid();
    let record = NodeRecord {
        id: node_id.clone(),
        label: None,
        public_key_der: req.public_key_der,
        dmi_uuid: req.dmi_uuid,
        status: NodeStatus::Pending,
        cert_serial: None,
        cert_expiry: None,
        last_seen: None,
        enrolled_at: None,
        decommissioned_at: None,
        last_renewed_at: None,
        enrollment_id: Some(enrollment_id.clone()),
        tpm_backed: req.tpm_backed,
        agent_version: req.agent_version,
        hostname: req.hostname,
        os_pretty_name: None,
        kernel_version: None,
        dmi_sys_vendor: None,
        dmi_product_name: None,
        tenant_id: store::default_tenant(),
        stop_behavior: None,
        metrics_interval_secs: None,
        capabilities: "{}".to_string(),
        inspect_mode: "disabled".to_string(),
    };
    if let Err(e) = store.upsert_node(&record) {
        return Err(RegistryError::Store(e));
    }
    let entry = NewAuditEntry {
        operator: None,
        action: "enrollment_submitted".to_string(),
        node_id: Some(node_id),
        detail: Some(text::concat2("enrollment_id=", enrollment_id.as_str())),
        tenant_id: None,
    };
    if let Err(e) = store.append_audit(entry, now) {
        return Err(RegistryError::Store(e));
    }
    Ok(enrollment_id)
}

/// Whether that is what approving a node comes to that was found waiting, given its
/// certificate.
pub open spec fn approves_with(
    before: StoreModel,
    after: StoreModel,
    dependable: bool,
    node_id: Seq<char>,
    c: IssuedView,
    label: Option<Seq<char>>,
    operator: Option<Seq<char>>,
    expiry: Timestamp,
    now: Timestamp,
    r: Result<NodeRecord, RegistryError>,
) -> bool {
    match r {
        Ok(n) => {
            &&& after == approved(
                before,
                node_id,
                c,
                label,
                operator,
                expiry,
                now,
                after.audit.last().id,
            )
            &&& n@ == after.nodes[node_id]
        },
        Err(e) => e is Store && backend_failed(e, dependable),
    }
}

/// Puts the approval of a node on record, given its certificate.
pub fn record_approval<S: ControllerStore>(
    store: &mut S,
    node: NodeRecord,
    node_id: &str,
    issued: &IssuedCert,
    label: Option<String>,
    operator: Option<&str>,
    expiry: Timestamp,
    now: Timestamp,
) -> (r: Result<NodeRecord, RegistryError>)
    requires
        old(store).model().nodes.contains_key(node_id@),
        old(store).model().nodes[node_id@] == node@,
    ensures
        final(store).dependable() == old(store).dependable(),
        approves_with(
            old(store).model(),
            final(store).model(),
            old(store).dependable(),
            node_id@,
            issued@,
            text::opt_text(label),
            text::opt_str(operator),
            expiry,
            now,
            r,
        ),
{
    let ghost m = store.model();
    let mut node = node;
    // Persist the cert serial so a later decommission can revoke it and the
    // management connect path can reject reconnects from a revoked cert.
    if let Err(e) = store.update_node_cert(
        node_id,
        records::copy_bytes(issued.serial.as_slice()),
        expiry,
        issued.cert_pem.clone(),
    ) {
        return Err(RegistryError::Store(e));
    }
    // The private key is kept alongside the cert so the agent can fetch both together.
    let blob = text::concat2(issued.key_pem.as_str(), issued.cert_pem.as_str());
    if let Err(e) = store.store_node_cert_pem(node_id, blob.as_str()) {
        return Err(RegistryError::Store(e));
    }
    if let Err(e) = store.update_node_status(node_id, NodeStatus::Active) {
        return Err(RegistryError::Store(e));
    }
    let ghost signed = StoreModel {
        certs: m.certs.insert(node_id@, issued@.key_pem + issued@.cert_pem),
        ..m.node_changed(
            node_id@,
            NodeView {
                status: NodeStatus::Active,
                cert_serial: Some(issued@.serial),
                cert_expiry: Some(expiry),
                ..m.nodes[node_id@]
            },
        )
    };
    assert(store.model() =~= signed) by {
        assert(store.model().nodes =~= signed.nodes);
        assert(store.model().certs =~= signed.certs);
    }
    let label_text: Option<&str> = match &label {
        Some(l) => Some(l.as_str()),
        None => None,
    };
    let entry = NewAuditEntry {
        operator: text::owned_opt(operator),
        action: "enrollment_approved".to_string(),
        node_id: Some(node_id.to_string()),
        detail: note_detail("label=", label_text),
        tenant_id: None,
    };
    if let Err(e) = store.append_audit(entry, now) {
        return Err(RegistryError::Store(e));
    }
    if let Some(l) = label {
        node.label = Some(l);
    }
    node.status = NodeStatus::Active;
    node.enrolled_at = Some(now);
    node.cert_expiry = Some(expiry);
    // Mirror what was just persisted, otherwise this would overwrite the
    // freshly-captured serial.
    node.cert_serial = Some(records::copy_bytes(issued.serial.as_slice()));
    if let Err(e) = store.upsert_node(&node) {
        return Err(RegistryError::Store(e));
    }
    match store.get_node(node_id) {
        Ok(Some(n)) => Ok(n),
        Ok(None) => Err(RegistryError::GoneAfterApproval),
        Err(e) => Err(RegistryError::Store(e)),
    }
}

/// Whether that is what renewing the certificate of an active node comes to, given the
/// new certificate.
pub open spec fn renews_with(
    before: StoreModel,
    after: StoreModel,
    dependable: bool,
    node_id: Seq<char>,
    c: IssuedView,
    expiry: Timestamp,
    now: Timestamp,
    r: Result<RenewedCert, RegistryError>,
) -> bool {
    match r {
        Ok(n) => {
            &&& after == renewed(
                before,
                node_id,
                c.serial,
                expiry,
                now,
                after.audit.last().id,
            )
            &&& n.cert_pem@ == c.cert_pem
            &&& n.serial@ == c.serial
            &&& n.not_after_unix == expiry.secs
        },
        Err(e) => e is Store && backend_failed(e, dependable),
    }
}

/// Puts the renewal of a certificate on record, and revokes the old one.
pub fn record_renewal<S: ControllerStore>(
    store: &mut S,
    mirror: &mut Option<RevocationWatch>,
    node: NodeRecord,
    node_id: &str,
    issued: IssuedCert,
    expiry: Timestamp,
    now: Timestamp,
) -> (r: Result<RenewedCert, RegistryError>)
    requires
        old(store).model().nodes.contains_key(node_id@),
        old(store).model().nodes[node_id@] == node@,
    ensures
        final(store).dependable() == old(store).dependable(),
        renews_with(
            old(store).model(),
            final(store).model(),
            old(store).dependable(),
            node_id@,
            issued@,
            expiry,
            now,
            r,
        ),
        r is Ok ==> mirror_view(*final(mirror)) == mirrored(
            mirror_view(*old(mirror)),
            node@.cert_serial,
        ),
{
    let ghost m = store.model();
    let mut node = node;
    // The credentials blob is *not* refreshed: the renewed cert is returned to the
    // agent in the reply.
    if let Err(e) = store.update_current_cert_meta(
        node_id,
        records::copy_bytes(issued.serial.as_slice()),
        expiry,
    ) {
        return Err(RegistryError::Store(e));
    }
    // Revoke the *previous* serial so the old cert cannot be used in
    // parallel after handoff.
    let old_serial = records::copy_opt_bytes(&node.cert_serial);
    if let Some(s) = &old_serial {
        if let Err(e) = store.revoke_cert(s.as_slice()) {
            return Err(RegistryError::Store(e));
        }
        publish(mirror, s.as_slice());
    }
    node.cert_serial = Some(records::copy_bytes(issued.serial.as_slice()));
    node.cert_expiry = Some(expiry);
    node.last_renewed_at = Some(now);
    if let Err(e) = store.upsert_node(&node) {
        return Err(RegistryError::Store(e));
    }
    let detail: Option<String> = match &old_serial {
        Some(s) => Some(text::concat2("old_serial=", crypto::encode_hex(s.as_slice()).as_str())),
        None => None,
    };
    let entry = NewAuditEntry {
        operator: None,
        action: "cert_renewed".to_string(),
        node_id: Some(node_id.to_string()),
        detail,
        tenant_id: None,
    };
    if let Err(e) = store.append_audit(entry, now) {
        return Err(RegistryError::Store(e));
    }
    Ok(
        RenewedCert {
            cert_pem: issued.cert_pem,
            serial: issued.serial,
            not_after_unix: expiry.secs,
        },
    )
}

/// The revoked serials in the mirror, where there is one.
pub open spec fn mirror_view(mirror: Option<RevocationWatch>) -> Option<Set<Seq<u8>>> {
    match mirror {
        Some(w) => Some(w@),
        None => None,
    }
}

/// Adds a serial to the mirror, where there is one.
fn publish(mirror: &mut Option<RevocationWatch>, serial: &[u8])
    ensures
        mirror_view(*final(mirror)) == mirrored(mirror_view(*old(mirror)), Some(serial@)),
{
    match mirror {
        Some(w) => {
            w.insert(records::copy_bytes(serial));
        },
        None => {},
    }
}

/// What approving a node comes to.
pub open spec fn approves<C: CertificateAuthority>(
    ca: C,
    ttl_secs: u64,
    before: StoreModel,
    after: StoreModel,
    dependable: bool,
    node_id: Seq<char>,
    label: Option<Seq<char>>,
    operator: Option<Seq<char>>,
    now: Timestamp,
    r: Result<NodeRecord, RegistryError>,
) -> bool {
    match r {
        Ok(n) => has_status(before, node_id, NodeStatus::Pending) && exists|c: IssuedView| #[trigger]
            ca.may_issue(node_id, ttl_secs, unix_secs(now), c) && approves_with(
                before,
                after,
                dependable,
                node_id,
                c,
                label,
                operator,
                expiry_of(now, ttl_secs),
                now,
                r,
            ),
        Err(RegistryError::NodeNotFound(id)) => !before.nodes.contains_key(node_id) && id@
            == node_id && after == before,
        Err(RegistryError::CannotApprove { node_id: id, status }) => {
            &&& before.nodes.contains_key(node_id)
            &&& status == before.nodes[node_id].status
            &&& status != NodeStatus::Pending
            &&& id@ == node_id
            &&& after == before
        },
        Err(RegistryError::Issue(_)) => has_status(before, node_id, NodeStatus::Pending) && after
            == before,
        Err(e) => e is Store && backend_failed(e, dependable),
    }
}

/// What renewing the certificate of a node comes to.
pub open spec fn renews<C: CertificateAuthority>(
    ca: C,
    ttl_secs: u64,
    before: StoreModel,
    after: StoreModel,
    mirror: Option<Set<Seq<u8>>>,
    mirror_after: Option<Set<Seq<u8>>>,
    dependable: bool,
    node_id: Seq<char>,
    csr: Seq<char>,
    now: Timestamp,
    r: Result<RenewedCert, RegistryError>,
) -> bool {
    let n = before.nodes[node_id];
    let revoked = n.cert_serial matches Some(s) && before.revoked.contains(s);
    match r {
        Ok(_) => {
            &&& has_status(before, node_id, NodeStatus::Active)
            &&& !revoked
            &&& exists|c: IssuedView| #[trigger]
                ca.may_sign(node_id, csr, ttl_secs, unix_secs(now), c) && renews_with(
                    before,
                    after,
                    dependable,
                    node_id,
                    c,
                    expiry_of(now, ttl_secs),
                    now,
                    r,
                )
            &&& mirror_after == mirrored(mirror, n.cert_serial)
        },
        Err(RegistryError::NodeNotFound(id)) => {
            &&& !before.nodes.contains_key(node_id)
            &&& id@ == node_id
            &&& after == before
            &&& mirror_after == mirror
        },
        Err(RegistryError::NotActive { node_id: id, status }) => {
            &&& before.nodes.contains_key(node_id)
            &&& status == n.status
            &&& status != NodeStatus::Active
            &&& id@ == node_id
            &&& after == before
            &&& mirror_after == mirror
        },
        Err(RegistryError::SerialRevoked(id)) => {
            &&& has_status(before, node_id, NodeStatus::Active)
            &&& revoked
            &&& id@ == node_id
            &&& after == before
            &&& mirror_after == mirror
        },
        Err(RegistryError::RenewalSigning(_)) => {
            &&& has_status(before, node_id, NodeStatus::Active)
            &&& !revoked
            &&& after == before
            &&& mirror_after == mirror
        },
        Err(e) => e is Store && backend_failed(e, dependable),
    }
}

/// What enrolling with a token comes to, once the request has been taken in: `m` is the
/// store behind the request, and `id` the enrollment.
pub open spec fn redeems<C: CertificateAuthority>(
    ca: C,
    ttl_secs: u64,
    m: StoreModel,
    after: StoreModel,
    dependable: bool,
    node_id: Seq<char>,
    token_id: Seq<char>,
    secret: Seq<u8>,
    now: Timestamp,
    r: Result<Option<String>, RegistryError>,
) -> bool {
    match r {
        Ok(blob) => exists|mid: StoreModel, outcome: RedeemView|
            {
                &&& #[trigger] store::redeemed(
                    m,
                    mid,
                    token_id,
                    crypto::sha256(secret),
                    now,
                    outcome,
                )
                &&& match outcome {
                    RedeemView::Redeemed { fleet_label, tenant_id } => blob is Some && approves_token(
                        ca,
                        ttl_secs,
                        moved(mid, node_id, tenant_id),
                        after,
                        node_id,
                        token_id,
                        fleet_label,
                        tenant_id,
                        now,
                        blob->0@,
                    ),
                    _ => blob is None && after == mid.audited(
                        after.audit.last().id,
                        rejected_entry(token_id, outcome),
                        now,
                    ),
                }
            },
        Err(RegistryError::AutoApproval(_)) => exists|mid: StoreModel, outcome: RedeemView|
            {
                &&& #[trigger] store::redeemed(
                    m,
                    mid,
                    token_id,
                    crypto::sha256(secret),
                    now,
                    outcome,
                )
                &&& outcome matches RedeemView::Redeemed { tenant_id, .. } && (dependable ==> after
                    == moved(mid, node_id, tenant_id))
            },
        Err(e) => backend_failed(e, dependable),
    }
}

/// The store with a node in another tenant.
pub open spec fn moved(m: StoreModel, node_id: Seq<char>, tenant_id: Seq<char>) -> StoreModel {
    m.node_changed(node_id, NodeView { tenant_id, ..m.nodes[node_id] })
}

/// Who approves a node that enrolls with a token.
pub open spec fn token_operator() -> Seq<char> {
    "ztp-bootstrap"@
}

/// The audit entry for a token that was redeemed.
pub open spec fn redeemed_entry(
    node_id: Seq<char>,
    token_id: Seq<char>,
    tenant_id: Seq<char>,
) -> NewAuditView {
    NewAuditView {
        operator: Some(token_operator()),
        action: "enrollment_token_redeemed"@,
        node_id: Some(node_id),
        detail: Some("token_id="@ + token_id + " tenant_id="@ + tenant_id),
        tenant_id: Some(tenant_id),
    }
}

/// The word for why a token was not redeemed.
pub open spec fn outcome_word(o: RedeemView) -> Seq<char> {
    match o {
        RedeemView::Redeemed { .. } => "Redeemed"@,
        RedeemView::Unknown => "Unknown"@,
        RedeemView::BadSecret => "BadSecret"@,
        RedeemView::Expired => "Expired"@,
        RedeemView::Revoked => "Revoked"@,
        RedeemView::Exhausted => "Exhausted"@,
    }
}

/// The audit entry for a token that was not redeemed.
pub open spec fn rejected_entry(token_id: Seq<char>, o: RedeemView) -> NewAuditView {
    NewAuditView {
        operator: None,
        action: "enrollment_token_rejected"@,
        node_id: None,
        detail: Some("token_id="@ + token_id + " outcome="@ + outcome_word(o)),
        tenant_id: None,
    }
}

/// Whether a node was approved for a token: `m` is the store with the node in the
/// token's tenant.
pub open spec fn approves_token<C: CertificateAuthority>(
    ca: C,
    ttl_secs: u64,
    m: StoreModel,
    after: StoreModel,
    node_id: Seq<char>,
    token_id: Seq<char>,
    label: Option<Seq<char>>,
    tenant_id: Seq<char>,
    now: Timestamp,
    blob: Seq<char>,
) -> bool {
    exists|c: IssuedView, audit_id: i64|
        {
            let done = #[trigger] approved(
                m,
                node_id,
                c,
                label,
                Some(token_operator()),
                expiry_of(now, ttl_secs),
                now,
                audit_id,
            );
            &&& ca.may_issue(node_id, ttl_secs, unix_secs(now), c)
            &&& blob == c.key_pem + c.cert_pem
            &&& after == done.audited(
                after.audit.last().id,
                redeemed_entry(node_id, token_id, tenant_id),
                now,
            )
        }
}

/// All enrollment and node management operations.
///
/// Works on a [`ControllerStore`] and has a [`CertificateAuthority`].
pub struct NodeRegistry<C: CertificateAuthority> {
    ca: C,
    /// The in-memory revocation mirror used by the TLS-handshake verifier. `None` is
    /// acceptable where the mTLS server is not running.
    revocation: Option<RevocationWatch>,
    /// TTL applied to every node mTLS cert.
    node_cert_ttl_secs: u64,
}

impl<C: CertificateAuthority> NodeRegistry<C> {
    /// The authority.
    pub closed spec fn authority(self) -> C {
        self.ca
    }

    /// The revoked serials in the mirror, where there is one.
    pub closed spec fn mirror(self) -> Option<Set<Seq<u8>>> {
        mirror_view(self.revocation)
    }

    /// How long certificates last, in seconds.
    pub closed spec fn ttl(self) -> u64 {
        self.node_cert_ttl_secs
    }

    /// Whether a date names the expiry of a certificate that is issued now.
    pub open spec fn can_date(self, now: Timestamp) -> bool {
        now.reaches(ttl_span(self.ttl()))
    }

    pub fn new(ca: C) -> (r: Self)
        ensures
            r.authority() == ca,
            r.mirror() is None,
            r.ttl() == DEFAULT_NODE_CERT_TTL_SECS,
    {
        NodeRegistry { ca, revocation: None, node_cert_ttl_secs: DEFAULT_NODE_CERT_TTL_SECS }
    }

    /// Override the node-cert TTL.
    pub fn with_node_cert_ttl_secs(self, ttl_secs: u64) -> (r: Self)
        ensures
            r.authority() == self.authority(),
            r.mirror() == self.mirror(),
            r.ttl() == ttl_secs,
    {
        NodeRegistry { ca: self.ca, revocation: self.revocation, node_cert_ttl_secs: ttl_secs }
    }

    /// Attach a [`RevocationWatch`] so decommissioning a node also publishes
    /// the revoked serial to the TLS-handshake-layer mirror.
    pub fn with_revocation(self, revocation: RevocationWatch) -> (r: Self)
        ensures
            r.authority() == self.authority(),
            r.mirror() == Some(revocation@),
            r.ttl() == self.ttl(),
    {
        NodeRegistry {
            ca: self.ca,
            revocation: Some(revocation),
            node_cert_ttl_secs: self.node_cert_ttl_secs,
        }
    }

    /// The mirror of revoked serials, for those who check handshakes.
    pub fn revocation(&self) -> (r: Option<&RevocationWatch>)
        ensures
            match r {
                Some(w) => self.mirror() == Some(w@),
                None => self.mirror() is None,
            },
    {
        match &self.revocation {
            Some(w) => Some(w),
            None => None,
        }
    }

    /// Handle an incoming enrollment request from an agent.
    ///
    /// Validates the signature (proving possession of the private key) and stores
    /// the node as Pending. Returns the `enrollment_id` UUID for status polling.
    ///
    /// If the node already has a record (re-enrollment after decommission), the
    /// existing record is updated with the new enrollment_id.
    pub fn submit_enrollment<S: ControllerStore>(
        &self,
        store: &mut S,
        public_key_der: Vec<u8>,
        dmi_uuid: Option<String>,
        csr_pem: Vec<u8>,
        signature: Vec<u8>,
        agent_version: Option<String>,
        tpm_backed: bool,
        hostname: Option<String>,
        now: Timestamp,
    ) -> (r: Result<String, RegistryError>)
        ensures
            final(store).dependable() == old(store).dependable(),
            submits(
                old(store).model(),
                final(store).model(),
                old(store).dependable(),
                EnrollmentRequest {
                    public_key_der,
                    dmi_uuid,
                    csr_pem,
                    signature,
                    agent_version,
                    tpm_backed,
                    hostname,
                },
                now,
                r,
            ),
    {
        let req = EnrollmentRequest {
            public_key_der,
            dmi_uuid,
            csr_pem,
            signature,
            agent_version,
            tpm_backed,
            hostname,
        };
        if let Err(e) = check_possession(&req) {
            return Err(e);
        }
        take_in(store, req, now)
    }

    /// Check enrollment status. Returns `(status_string, cert_pem_if_approved)`.
    pub fn check_enrollment_status<S: ControllerStore>(&self, store: &S, enrollment_id: &str) -> (r:
        Result<(String, Option<String>), RegistryError>)
        ensures
            ({
                let m = store.model();
                let id = m.enrollments[enrollment_id@];
                let known = m.enrollments.contains_key(enrollment_id@) && m.nodes.contains_key(id);
                match r {
                    Ok((word, pem)) => {
                        &&& known
                        &&& word@ == m.nodes[id].status.word()
                        &&& text::opt_text(pem) == (if m.nodes[id].status == NodeStatus::Active
                            && m.certs.contains_key(m.nodes[id].id) {
                            Some(m.certs[m.nodes[id].id])
                        } else {
                            None
                        })
                    },
                    Err(RegistryError::UnknownEnrollment(e)) => !known && e@ == enrollment_id@,
                    Err(e) => e is Store && backend_failed(e, store.dependable()),
                }
            }),
    {
        let node = match store.get_node_by_enrollment_id(enrollment_id) {
            Ok(Some(n)) => n,
            Ok(None) => {
                return Err(RegistryError::UnknownEnrollment(enrollment_id.to_string()));
            },
            Err(e) => {
                return Err(RegistryError::Store(e));
            },
        };
        let cert_pem: Option<String> = if node.status == NodeStatus::Active {
            match store.get_node_cert_pem(node.id.as_str()) {
                Ok(pem) => pem,
                Err(e) => {
                    return Err(RegistryError::Store(e));
                },
            }
        } else {
            None
        };
        Ok((node.status.to_text(), cert_pem))
    }

    /// Approve a pending enrollment. Issues a client certificate and marks the
    /// node as Active. Returns the record of the node.
    pub fn approve_enrollment<S: ControllerStore>(
        &self,
        store: &mut S,
        node_id: &str,
        label: Option<String>,
        operator: Option<&str>,
        now: Timestamp,
    ) -> (r: Result<NodeRecord, RegistryError>)
        requires
            self.can_date(now),
        ensures
            final(store).dependable() == old(store).dependable(),
            approves(
                self.authority(),
                self.ttl(),
                old(store).model(),
                final(store).model(),
                old(store).dependable(),
                node_id@,
                text::opt_text(label),
                text::opt_str(operator),
                now,
                r,
            ),
    {
        let node = match store.get_node(node_id) {
            Ok(Some(n)) => n,
            Ok(None) => {
                return Err(RegistryError::NodeNotFound(node_id.to_string()));
            },
            Err(e) => {
                return Err(RegistryError::Store(e));
            },
        };
        if node.status != NodeStatus::Pending {
            return Err(
                RegistryError::CannotApprove { node_id: node_id.to_string(), status: node.status },
            );
        }
        // A fresh key+cert for the node's mTLS credential.
        let issued = match self.ca.issue_node_cert(
            node_id,
            self.node_cert_ttl_secs,
            clock_secs(&now),
        ) {
            Ok(c) => c,
            Err(e) => {
                return Err(RegistryError::Issue(e));
            },
        };
        let expiry = now.plus_secs(signed_ttl(self.node_cert_ttl_secs));
        record_approval(store, node, node_id, &issued, label, operator, expiry, now)
    }

    /// Reject a pending enrollment request.
    pub fn reject_enrollment<S: ControllerStore>(
        &self,
        store: &mut S,
        node_id: &str,
        reason: Option<&str>,
        operator: Option<&str>,
        now: Timestamp,
    ) -> (r: Result<(), RegistryError>)
        ensures
            final(store).dependable() == old(store).dependable(),
            ({
                let before = old(store).model();
                let after = final(store).model();
                match r {
                    Ok(()) => has_status(before, node_id@, NodeStatus::Pending) && after
                        == before.node_changed(
                        node_id@,
                        NodeView {
                            status: NodeStatus::Decommissioned,
                            ..before.nodes[node_id@]
                        },
                    ).audited(
                        after.audit.last().id,
                        node_entry(
                            text::opt_str(operator),
                            "enrollment_rejected"@,
                            node_id@,
                            noted("reason="@, text::opt_str(reason)),
                        ),
                        now,
                    ),
                    Err(RegistryError::NodeNotFound(id)) => !before.nodes.contains_key(node_id@)
                        && id@ == node_id@ && after == before,
                    Err(RegistryError::NotPending(id)) => before.nodes.contains_key(node_id@)
                        && !has_status(before, node_id@, NodeStatus::Pending) && id@ == node_id@
                        && after == before,
                    Err(e) => e is Store && backend_failed(e, old(store).dependable()),
                }
            }),
    {
        let node = match store.get_node(node_id) {
            Ok(Some(n)) => n,
            Ok(None) => {
                return Err(RegistryError::NodeNotFound(node_id.to_string()));
            },
            Err(e) => {
                return Err(RegistryError::Store(e));
            },
        };
        if node.status != NodeStatus::Pending {
            return Err(RegistryError::NotPending(node_id.to_string()));
        }
        // Mark decommissioned so the node ID can be re-enrolled if needed.
        if let Err(e) = store.update_node_status(node_id, NodeStatus::Decommissioned) {
            return Err(RegistryError::Store(e));
        }
        let entry = NewAuditEntry {
            operator: text::owned_opt(operator),
            action: "enrollment_rejected".to_string(),
            node_id: Some(node_id.to_string()),
            detail: note_detail("reason=", reason),
            tenant_id: None,
        };
        match store.append_audit(entry, now) {
            Ok(()) => Ok(()),
            Err(e) => Err(RegistryError::Store(e)),
        }
    }

    /// Set a human-readable label on a node.
    pub fn label_node<S: ControllerStore>(
        &self,
        store: &mut S,
        node_id: &str,
        label: &str,
        operator: Option<&str>,
        now: Timestamp,
    ) -> (r: Result<(), RegistryError>)
        ensures
            final(store).dependable() == old(store).dependable(),
            ({
                let before = old(store).model();
                let after = final(store).model();
                match r {
                    Ok(()) => before.nodes.contains_key(node_id@) && after == before.with_node(
                        NodeView { label: Some(label@), ..before.nodes[node_id@] },
                    ).audited(
                        after.audit.last().id,
                        node_entry(
                            text::opt_str(operator),
                            "node_labelled"@,
                            node_id@,
                            Some("label="@ + label@),
                        ),
                        now,
                    ),
                    Err(RegistryError::NodeNotFound(id)) => !before.nodes.contains_key(node_id@)
                        && id@ == node_id@ && after == before,
                    Err(e) => e is Store && backend_failed(e, old(store).dependable()),
                }
            }),
    {
        let mut node = match store.get_node(node_id) {
            Ok(Some(n)) => n,
            Ok(None) => {
                return Err(RegistryError::NodeNotFound(node_id.to_string()));
            },
            Err(e) => {
                return Err(RegistryError::Store(e));
            },
        };
        node.label = Some(label.to_string());
        if let Err(e) = store.upsert_node(&node) {
            return Err(RegistryError::Store(e));
        }
        let entry = NewAuditEntry {
            operator: text::owned_opt(operator),
            action: "node_labelled".to_string(),
            node_id: Some(node_id.to_string()),
            detail: Some(text::concat2("label=", label)),
            tenant_id: None,
        };
        match store.append_audit(entry, now) {
            Ok(()) => Ok(()),
            Err(e) => Err(RegistryError::Store(e)),
        }
    }

    /// Sign a renewal CSR for an already-enrolled, still-Active node and
    /// revoke the prior serial.
    ///
    /// The caller is responsible for authenticating the request and confirming the
    /// CSR's subject CN matches the authenticated peer. This method enforces only the
    /// registry-level invariants — node is Active, current serial is not revoked, CA
    /// can sign the CSR — and performs the bookkeeping (new cert recorded, old
    /// serial revoked + published to the mirror, audit entry).
    pub fn renew_cert<S: ControllerStore>(
        &mut self,
        store: &mut S,
        node_id: &str,
        csr_pem: &str,
        now: Timestamp,
    ) -> (r: Result<RenewedCert, RegistryError>)
        requires
            old(self).can_date(now),
        ensures
            final(store).dependable() == old(store).dependable(),
            final(self).authority() == old(self).authority(),
            final(self).ttl() == old(self).ttl(),
            renews(
                old(self).authority(),
                old(self).ttl(),
                old(store).model(),
                final(store).model(),
                old(self).mirror(),
                final(self).mirror(),
                old(store).dependable(),
                node_id@,
                csr_pem@,
                now,
                r,
            ),
    {
        let node = match store.get_node(node_id) {
            Ok(Some(n)) => n,
            Ok(None) => {
                return Err(RegistryError::NodeNotFound(node_id.to_string()));
            },
            Err(e) => {
                return Err(RegistryError::Store(e));
            },
        };
        // A renewal from a node that has been decommissioned (or never
        // approved) must not succeed even though the TLS handshake did. The
        // handshake verifier only knows about revoked *serials*; this check is the
        // backstop.
        if node.status != NodeStatus::Active {
            return Err(
                RegistryError::NotActive { node_id: node_id.to_string(), status: node.status },
            );
        }
        if let Some(s) = &node.cert_serial {
            match store.is_cert_revoked(s.as_slice()) {
                Ok(true) => {
                    return Err(RegistryError::SerialRevoked(node_id.to_string()));
                },
                Ok(false) => {},
                Err(e) => {
                    return Err(RegistryError::Store(e));
                },
            }
        }
        let issued = match self.ca.issue_node_cert_from_csr(
            node_id,
            csr_pem,
            self.node_cert_ttl_secs,
            clock_secs(&now),
        ) {
            Ok(c) => c,
            Err(e) => {
                return Err(RegistryError::RenewalSigning(e));
            },
        };
        let expiry = now.plus_secs(signed_ttl(self.node_cert_ttl_secs));
        record_renewal(store, &mut self.revocation, node, node_id, issued, expiry, now)
    }

    /// Decommission an active node: revoke its cert and mark Decommissioned.
    /// The node's gRPC connection will be rejected on next attempt.
    pub fn decommission_node<S: ControllerStore>(
        &mut self,
        store: &mut S,
        node_id: &str,
        operator: Option<&str>,
        now: Timestamp,
    ) -> (r: Result<(), RegistryError>)
        ensures
            final(store).dependable() == old(store).dependable(),
            final(self).authority() == old(self).authority(),
            final(self).ttl() == old(self).ttl(),
            ({
                let before = old(store).model();
                let after = final(store).model();
                match r {
                    Ok(()) => {
                        &&& before.nodes.contains_key(node_id@)
                        &&& !has_status(before, node_id@, NodeStatus::Decommissioned)
                        &&& after == decommissioned(
                            before,
                            node_id@,
                            text::opt_str(operator),
                            now,
                            after.audit.last().id,
                        )
                        &&& final(self).mirror() == mirrored(
                            old(self).mirror(),
                            before.nodes[node_id@].cert_serial,
                        )
                    },
                    Err(RegistryError::NodeNotFound(id)) => {
                        &&& !before.nodes.contains_key(node_id@)
                        &&& id@ == node_id@
                        &&& after == before
                        &&& final(self).mirror() == old(self).mirror()
                    },
                    Err(RegistryError::AlreadyDecommissioned(id)) => {
                        &&& has_status(before, node_id@, NodeStatus::Decommissioned)
                        &&& id@ == node_id@
                        &&& after == before
                        &&& final(self).mirror() == old(self).mirror()
                    },
                    Err(e) => e is Store && backend_failed(e, old(store).dependable()),
                }
            }),
    {
        let mut node = match store.get_node(node_id) {
            Ok(Some(n)) => n,
            Ok(None) => {
                return Err(RegistryError::NodeNotFound(node_id.to_string()));
            },
            Err(e) => {
                return Err(RegistryError::Store(e));
            },
        };
        if node.status == NodeStatus::Decommissioned {
            return Err(RegistryError::AlreadyDecommissioned(node_id.to_string()));
        }
        // Revoke the issued cert. The store write is the source of truth; the mirror
        // brings it to the TLS-handshake verifier so the cert can't open a new stream
        // even before the check on the stream sees the update.
        if let Some(s) = &node.cert_serial {
            if let Err(e) = store.revoke_cert(s.as_slice()) {
                return Err(RegistryError::Store(e));
            }
            publish(&mut self.revocation, s.as_slice());
        }
        node.status = NodeStatus::Decommissioned;
        node.decommissioned_at = Some(now);
        if let Err(e) = store.upsert_node(&node) {
            return Err(RegistryError::Store(e));
        }
        let entry = NewAuditEntry {
            operator: text::owned_opt(operator),
            action: "node_decommissioned".to_string(),
            node_id: Some(node_id.to_string()),
            detail: None,
            tenant_id: None,
        };
        match store.append_audit(entry, now) {
            Ok(()) => Ok(()),
            Err(e) => Err(RegistryError::Store(e)),
        }
    }

    /// Permanently remove a decommissioned node from the registry.
    pub fn remove_node<S: ControllerStore>(
        &self,
        store: &mut S,
        node_id: &str,
        operator: Option<&str>,
        now: Timestamp,
    ) -> (r: Result<(), RegistryError>)
        ensures
            final(store).dependable() == old(store).dependable(),
            ({
                let before = old(store).model();
                let after = final(store).model();
                match r {
                    Ok(()) => has_status(before, node_id@, NodeStatus::Decommissioned) && after
                        == before.audited(
                        after.audit.last().id,
                        node_entry(text::opt_str(operator), "node_removed"@, node_id@, None),
                        now,
                    ).without_node(node_id@),
                    Err(RegistryError::NodeNotFound(id)) => !before.nodes.contains_key(node_id@)
                        && id@ == node_id@ && after == before,
                    Err(RegistryError::NotDecommissioned { node_id: id, status }) => {
                        &&& before.nodes.contains_key(node_id@)
                        &&& status == before.nodes[node_id@].status
                        &&& status != NodeStatus::Decommissioned
                        &&& id@ == node_id@
                        &&& after == before
                    },
                    Err(e) => e is Store && backend_failed(e, old(store).dependable()),
                }
            }),
    {
        let node = match store.get_node(node_id) {
            Ok(Some(n)) => n,
            Ok(None) => {
                return Err(RegistryError::NodeNotFound(node_id.to_string()));
            },
            Err(e) => {
                return Err(RegistryError::Store(e));
            },
        };
        if node.status != NodeStatus::Decommissioned {
            return Err(
                RegistryError::NotDecommissioned {
                    node_id: node_id.to_string(),
                    status: node.status,
                },
            );
        }
        let entry = NewAuditEntry {
            operator: text::owned_opt(operator),
            action: "node_removed".to_string(),
            node_id: Some(node_id.to_string()),
            detail: None,
            tenant_id: None,
        };
        if let Err(e) = store.append_audit(entry, now) {
            return Err(RegistryError::Store(e));
        }
        match store.delete_node(node_id) {
            Ok(()) => Ok(()),
            Err(e) => Err(RegistryError::Store(e)),
        }
    }

    /// `tenant_id`: `Some(slug)` restricts to one tenant; `None` is
    /// cross-tenant and reserved for the controller's own jobs. Operator-facing
    /// callers must pass the slug of their tenant.
    pub fn list_nodes<S: ControllerStore>(
        &self,
        store: &S,
        tenant_id: Option<&str>,
        status: Option<NodeStatus>,
    ) -> (r: Result<Vec<NodeRecord>, StoreError>)
        ensures
            store::dependably(store.dependable(), store.dependable(), r),
            store::answered(
                r,
                |v: Vec<NodeRecord>|
                    store::model::lists(
                        store::node_views(v@),
                        store.model().nodes,
                        |n: NodeView|
                            store::model::in_scope(text::opt_str(tenant_id), n.tenant_id) && (
                            status is None || status == Some(n.status)),
                    ),
            ),
    {
        store.list_nodes(tenant_id, status)
    }

    pub fn get_node<S: ControllerStore>(&self, store: &S, id: &str) -> (r: Result<
        Option<NodeRecord>,
        StoreError,
    >)
        ensures
            store::dependably(store.dependable(), store.dependable(), r),
            store::answered(
                r,
                |v: Option<NodeRecord>|
                    match v {
                        Some(n) => store.model().nodes.contains_key(id@) && store.model().nodes[id@]
                            == n@,
                        None => !store.model().nodes.contains_key(id@),
                    },
            ),
    {
        store.get_node(id)
    }

    pub fn ca_cert_pem(&self) -> (s: String)
        ensures
            s@ == self.authority().anchor(),
    {
        self.ca.ca_cert_pem()
    }

    pub fn ca_fingerprint_sha256(&self) -> (r: Result<[u8; 32], CaError>)
        ensures
            r matches Ok(fp) ==> crate::security::ca::anchor_der(self.authority().anchor()) matches
                Some(der) && fp@ == crypto::sha256(der),
    {
        self.ca.ca_fingerprint_sha256()
    }
}

/// The word for why a token was not redeemed.
fn outcome_text(o: &TokenRedeemOutcome) -> (s: &'static str)
    ensures
        s@ == outcome_word(o@),
{
    match o {
        TokenRedeemOutcome::Redeemed { .. } => "Redeemed",
        TokenRedeemOutcome::Unknown => "Unknown",
        TokenRedeemOutcome::BadSecret => "BadSecret",
        TokenRedeemOutcome::Expired => "Expired",
        TokenRedeemOutcome::Revoked => "Revoked",
        TokenRedeemOutcome::Exhausted => "Exhausted",
    }
}

/// The audit entry for a new token.
pub open spec fn token_entry(
    operator: Option<Seq<char>>,
    token: records::TokenView,
) -> NewAuditView {
    NewAuditView {
        operator,
        action: "enrollment_token_created"@,
        node_id: None,
        detail: Some(
            "token_id="@ + token.token_id + " max_uses="@ + text::decimal_int(
                token.uses_remaining as int,
            ) + " expires_at="@ + timestamp::utc_text(
                token.expires_at.secs,
                token.expires_at.nanos,
            ),
        ),
        tenant_id: Some(token.tenant_id),
    }
}

/// Whether the token was minted and its record, under an id that was free, kept and
/// noted.
pub open spec fn mints_record(
    before: StoreModel,
    after: StoreModel,
    req: TokenRequest,
    fingerprint: Seq<u8>,
    now: Timestamp,
    record: EnrollmentTokenRecord,
    issued: IssuedToken,
) -> bool {
    &&& tokens::is_minted_afresh(req, fingerprint, now, record, issued)
    &&& !before.tokens.contains_key(record.token_id@)
    &&& after == StoreModel {
        tokens: before.tokens.insert(record.token_id@, record@),
        ..before
    }.audited(
        after.audit.last().id,
        token_entry(text::opt_text(req.created_by), record@),
        now,
    )
}

/// Whether the token was minted and its record kept and noted.
pub open spec fn mints_some_record(
    before: StoreModel,
    after: StoreModel,
    req: TokenRequest,
    fingerprint: Seq<u8>,
    now: Timestamp,
    issued: IssuedToken,
) -> bool {
    exists|record: EnrollmentTokenRecord| #[trigger]
        mints_record(before, after, req, fingerprint, now, record, issued)
}

/// What minting a token for an authority with this fingerprint comes to.
pub open spec fn mints(
    before: StoreModel,
    after: StoreModel,
    dependable: bool,
    req: TokenRequest,
    fingerprint: Seq<u8>,
    now: Timestamp,
    r: Result<IssuedToken, RegistryError>,
) -> bool {
    match r {
        Ok(issued) => req.refused() is None && mints_some_record(
            before,
            after,
            req,
            fingerprint,
            now,
            issued,
        ),
        Err(RegistryError::Mint(e)) => req.refused() == Some(e) && after == before,
        Err(RegistryError::Store(StoreError::DuplicateToken(id))) => before.tokens.contains_key(
            id@,
        ) && after == before,
        Err(e) => e is Store && backend_failed(e, dependable),
    }
}

/// Mints a token for an authority with this fingerprint, and puts it on record.
pub fn mint_on_record<S: ControllerStore>(
    store: &mut S,
    req: TokenRequest,
    fingerprint: &[u8; 32],
    now: Timestamp,
) -> (r: Result<IssuedToken, RegistryError>)
    requires
        req.datable(now),
    ensures
        final(store).dependable() == old(store).dependable(),
        mints(
            old(store).model(),
            final(store).model(),
            old(store).dependable(),
            req,
            fingerprint@,
            now,
            r,
        ),
{
    let ghost before = store.model();
    let operator = records::copy_opt(&req.created_by);
    let tenant_id = req.tenant_id.clone();
    let (record, issued) = match tokens::mint_afresh(req, fingerprint, now) {
        Ok(pair) => pair,
        Err(e) => {
            return Err(RegistryError::Mint(e));
        },
    };
    if let Err(e) = store.insert_enrollment_token(&record) {
        return Err(RegistryError::Store(e));
    }
    let mut detail = text::concat4(
        "token_id=",
        issued.token_id.as_str(),
        " max_uses=",
        text::i64_text(record.uses_remaining).as_str(),
    );
    detail.push_str(" expires_at=");
    detail.push_str(timestamp::display(&record.expires_at).as_str());
    let entry = NewAuditEntry {
        operator,
        action: "enrollment_token_created".to_string(),
        node_id: None,
        detail: Some(detail),
        tenant_id: Some(tenant_id),
    };
    assert(entry@ == token_entry(text::opt_text(req.created_by), record@));
    if let Err(e) = store.append_audit(entry, now) {
        return Err(RegistryError::Store(e));
    }
    assert(mints_record(before, store.model(), req, fingerprint@, now, record, issued));
    Ok(issued)
}

/// Whether the request was taken in, which led to the store `mid`, and then the token
/// redeemed.
pub open spec fn enrolls_through<C: CertificateAuthority>(
    ca: C,
    ttl_secs: u64,
    before: StoreModel,
    mid: StoreModel,
    after: StoreModel,
    dependable: bool,
    req: EnrollmentRequest,
    token_id: Seq<char>,
    secret: Seq<u8>,
    now: Timestamp,
    id: String,
    r: Result<Option<String>, RegistryError>,
) -> bool {
    &&& submits(before, mid, dependable, req, now, Ok(id))
    &&& redeems(
        ca,
        ttl_secs,
        mid,
        after,
        dependable,
        req.node_id(),
        token_id,
        secret,
        now,
        r,
    )
}

/// Whether the request was taken in, under the enrollment where one is given, and then
/// the token redeemed.
pub open spec fn enrolls_somehow<C: CertificateAuthority>(
    ca: C,
    ttl_secs: u64,
    before: StoreModel,
    after: StoreModel,
    dependable: bool,
    req: EnrollmentRequest,
    token_id: Seq<char>,
    secret: Seq<u8>,
    now: Timestamp,
    enrollment: Option<String>,
    r: Result<Option<String>, RegistryError>,
) -> bool {
    exists|mid: StoreModel, id: String|
        {
            &&& enrollment is None || enrollment == Some(id)
            &&& #[trigger] enrolls_through(
                ca,
                ttl_secs,
                before,
                mid,
                after,
                dependable,
                req,
                token_id,
                secret,
                now,
                id,
                r,
            )
        }
}

/// What enrolling with or without a token comes to.
pub open spec fn enrolls<C: CertificateAuthority>(
    ca: C,
    ttl_secs: u64,
    before: StoreModel,
    after: StoreModel,
    dependable: bool,
    req: EnrollmentRequest,
    token: Option<(Seq<char>, Seq<u8>)>,
    now: Timestamp,
    r: Result<(String, Option<String>), RegistryError>,
) -> bool {
    match token {
        None => match r {
            Ok((id, blob)) => blob is None && submits(before, after, dependable, req, now, Ok(id)),
            Err(e) => submits(before, after, dependable, req, now, Err(e)),
        },
        Some((token_id, secret)) => match r {
            Ok((id, blob)) => enrolls_somehow(
                ca,
                ttl_secs,
                before,
                after,
                dependable,
                req,
                token_id,
                secret,
                now,
                Some(id),
                Ok(blob),
            ),
            Err(RegistryError::AutoApproval(_)) => enrolls_somehow(
                ca,
                ttl_secs,
                before,
                after,
                dependable,
                req,
                token_id,
                secret,
                now,
                None,
                Err(r->Err_0),
            ),
            Err(e) => submits(before, after, dependable, req, now, Err(e)) || backend_failed(
                e,
                dependable,
            ),
        },
    }
}

impl<C: CertificateAuthority> NodeRegistry<C> {
    /// Mint a new bootstrap token. The returned [`IssuedToken`] contains the
    /// base64 bundle to hand to the operator; the controller persists only
    /// the SHA-256 of the secret.
    pub fn mint_enrollment_token<S: ControllerStore>(
        &self,
        store: &mut S,
        enrollment_url: String,
        controller_url: String,
        ttl: TimeSpan,
        max_uses: i64,
        cidr_scope: Option<String>,
        fleet_label: Option<String>,
        operator: Option<&str>,
        tenant_id: &str,
        now: Timestamp,
    ) -> (r: Result<IssuedToken, RegistryError>)
        requires
            now.wf(),
            ttl.nanos < timestamp::NANOS_PER_SEC,
            max_uses > 0 && ttl.length() > 0 ==> now.reaches_span(ttl),
        ensures
            final(store).dependable() == old(store).dependable(),
            match r {
                Err(RegistryError::Fingerprint(_)) => final(store).model() == old(store).model(),
                _ => exists|req: TokenRequest, fp: Seq<u8>|
                    {
                        &&& req.enrollment_url == enrollment_url
                        &&& req.controller_url == controller_url
                        &&& req.ttl == ttl
                        &&& req.max_uses == max_uses
                        &&& req.cidr_scope == cidr_scope
                        &&& req.fleet_label == fleet_label
                        &&& text::opt_text(req.created_by) == text::opt_str(operator)
                        &&& req.tenant_id@ == tenant_id@
                        &&& crate::security::ca::anchor_der(self.authority().anchor()) matches Some(
                            der,
                        ) && fp == crypto::sha256(der)
                        &&& #[trigger] mints(
                            old(store).model(),
                            final(store).model(),
                            old(store).dependable(),
                            req,
                            fp,
                            now,
                            r,
                        )
                    },
            },
    {
        let fp = match self.ca.ca_fingerprint_sha256() {
            Ok(fp) => fp,
            Err(e) => {
                return Err(RegistryError::Fingerprint(e));
            },
        };
        let req = TokenRequest {
            enrollment_url,
            controller_url,
            ttl,
            max_uses,
            cidr_scope,
            fleet_label,
            created_by: text::owned_opt(operator),
            tenant_id: tenant_id.to_string(),
        };
        mint_on_record(store, req, &fp, now)
    }

    pub fn list_enrollment_tokens<S: ControllerStore>(&self, store: &S, tenant_id: Option<&str>) ->
        (r: Result<Vec<EnrollmentTokenRecord>, StoreError>)
        ensures
            store::dependably(store.dependable(), store.dependable(), r),
            store::answered(
                r,
                |v: Vec<EnrollmentTokenRecord>|
                    crate::order::is_ordered(v@) && store::model::lists(
                        store::token_views(v@),
                        store.model().tokens,
                        |t: records::TokenView|
                            store::model::in_scope(text::opt_str(tenant_id), t.tenant_id),
                    ),
            ),
    {
        store.list_enrollment_tokens(tenant_id)
    }

    pub fn revoke_enrollment_token<S: ControllerStore>(
        &self,
        store: &mut S,
        token_id: &str,
        operator: Option<&str>,
        tenant_id: &str,
        now: Timestamp,
    ) -> (r: Result<bool, RegistryError>)
        ensures
            final(store).dependable() == old(store).dependable(),
            ({
                let before = old(store).model();
                let after = final(store).model();
                match r {
                    Ok(changed) => {
                        &&& changed == (before.tokens.contains_key(token_id@)
                            && before.tokens[token_id@].revoked_at is None)
                        &&& after == if changed {
                            StoreModel {
                                tokens: before.tokens.insert(
                                    token_id@,
                                    records::TokenView {
                                        revoked_at: Some(now),
                                        ..before.tokens[token_id@]
                                    },
                                ),
                                ..before
                            }.audited(
                                after.audit.last().id,
                                NewAuditView {
                                    operator: text::opt_str(operator),
                                    action: "enrollment_token_revoked"@,
                                    node_id: None,
                                    detail: Some("token_id="@ + token_id@),
                                    tenant_id: Some(tenant_id@),
                                },
                                now,
                            )
                        } else {
                            before
                        }
                    },
                    Err(e) => e is Store && backend_failed(e, old(store).dependable()),
                }
            }),
    {
        let changed = match store.revoke_enrollment_token(token_id, now) {
            Ok(b) => b,
            Err(e) => {
                return Err(RegistryError::Store(e));
            },
        };
        if changed {
            let entry = NewAuditEntry {
                operator: text::owned_opt(operator),
                action: "enrollment_token_revoked".to_string(),
                node_id: None,
                detail: Some(text::concat2("token_id=", token_id)),
                tenant_id: Some(tenant_id.to_string()),
            };
            if let Err(e) = store.append_audit(entry, now) {
                return Err(RegistryError::Store(e));
            }
        }
        Ok(changed)
    }

    /// Redeems the token of a node whose request has just been taken in, and approves
    /// the node where that succeeds.
    fn redeem_for<S: ControllerStore>(
        &self,
        store: &mut S,
        node_id: &str,
        token_id: &str,
        secret: &[u8],
        now: Timestamp,
    ) -> (r: Result<Option<String>, RegistryError>)
        requires
            self.can_date(now),
            has_status(old(store).model(), node_id@, NodeStatus::Pending),
            old(store).model().nodes[node_id@].id == node_id@,
        ensures
            final(store).dependable() == old(store).dependable(),
            redeems(
                self.authority(),
                self.ttl(),
                old(store).model(),
                final(store).model(),
                old(store).dependable(),
                node_id@,
                token_id@,
                secret@,
                now,
                r,
            ),
            r matches Err(e) ==> e is AutoApproval || e is TenantMove || e is Store,
    {
        let ghost m = store.model();
        let token_hash = tokens::hash_token_secret(secret);
        let outcome = match store.redeem_enrollment_token(token_id, token_hash.as_slice(), now) {
            Ok(o) => o,
            Err(e) => {
                return Err(RegistryError::Store(e));
            },
        };
        let ghost mid = store.model();
        assert(store::redeemed(m, mid, token_id@, crypto::sha256(secret@), now, outcome@));
        match outcome {
            TokenRedeemOutcome::Redeemed { fleet_label, tenant_id } => {
                // Move the node into the token's tenant *before* approval so
                // the cert-issue, status flip, and the auto-approve audit row
                // all land under the right tenant.
                if let Err(e) = store.update_node_tenant(node_id, tenant_id.as_str()) {
                    return Err(RegistryError::TenantMove(e));
                }
                let ghost there = store.model();
                assert(there == moved(mid, node_id@, tenant_id@));
                let approved_node = match self.approve_enrollment(
                    store,
                    node_id,
                    fleet_label,
                    Some("ztp-bootstrap"),
                    now,
                ) {
                    Ok(n) => n,
                    Err(e) => {
                        return Err(RegistryError::AutoApproval(e.to_text()));
                    },
                };
                let ghost done = store.model();
                let ghost c = choose|c: IssuedView| #[trigger]
                    self.authority().may_issue(node_id@, self.ttl(), unix_secs(now), c)
                        && approves_with(
                        there,
                        done,
                        store.dependable(),
                        node_id@,
                        c,
                        text::opt_text(fleet_label),
                        Some(token_operator()),
                        expiry_of(now, self.ttl()),
                        now,
                        Ok(approved_node),
                    );
                let ghost audit_id = done.audit.last().id;
                assert(done == approved(
                    there,
                    node_id@,
                    c,
                    text::opt_text(fleet_label),
                    Some(token_operator()),
                    expiry_of(now, self.ttl()),
                    now,
                    audit_id,
                ));
                let cert_blob = match store.get_node_cert_pem(approved_node.id.as_str()) {
                    Ok(Some(pem)) => pem,
                    Ok(None) => {
                        return Err(RegistryError::NoCredentials);
                    },
                    Err(e) => {
                        return Err(RegistryError::Store(e));
                    },
                };
                let entry = NewAuditEntry {
                    operator: Some("ztp-bootstrap".to_string()),
                    action: "enrollment_token_redeemed".to_string(),
                    node_id: Some(approved_node.id.clone()),
                    detail: Some(
                        text::concat4("token_id=", token_id, " tenant_id=", tenant_id.as_str()),
                    ),
                    tenant_id: Some(tenant_id.clone()),
                };
                if let Err(e) = store.append_audit(entry, now) {
                    return Err(RegistryError::Store(e));
                }
                assert(approves_token(
                    self.authority(),
                    self.ttl(),
                    there,
                    store.model(),
                    node_id@,
                    token_id@,
                    text::opt_text(fleet_label),
                    tenant_id@,
                    now,
                    cert_blob@,
                ));
                Ok(Some(cert_blob))
            },
            other => {
                let entry = NewAuditEntry {
                    operator: None,
                    action: "enrollment_token_rejected".to_string(),
                    node_id: None,
                    detail: Some(
                        text::concat4("token_id=", token_id, " outcome=", outcome_text(&other)),
                    ),
                    tenant_id: None,
                };
                if let Err(e) = store.append_audit(entry, now) {
                    return Err(RegistryError::Store(e));
                }
                Ok(None)
            },
        }
    }

    /// Submit an enrollment request and, if a valid bootstrap token is
    /// presented, immediately auto-approve and return the issued mTLS cert
    /// blob (combined key+cert PEM, same shape as that of a status check).
    ///
    /// Returns `(enrollment_id, auto_approved_cert_blob)`. The cert blob is
    /// `Some` only when the token redeemed successfully. Otherwise the node
    /// is left in Pending and the agent must poll / be operator-approved.
    pub fn submit_enrollment_with_token<S: ControllerStore>(
        &self,
        store: &mut S,
        public_key_der: Vec<u8>,
        dmi_uuid: Option<String>,
        csr_pem: Vec<u8>,
        signature: Vec<u8>,
        agent_version: Option<String>,
        tpm_backed: bool,
        hostname: Option<String>,
        bootstrap_token: Option<(String, Vec<u8>)>,
        now: Timestamp,
    ) -> (r: Result<(String, Option<String>), RegistryError>)
        requires
            self.can_date(now),
        ensures
            final(store).dependable() == old(store).dependable(),
            enrolls(
                self.authority(),
                self.ttl(),
                old(store).model(),
                final(store).model(),
                old(store).dependable(),
                EnrollmentRequest {
                    public_key_der,
                    dmi_uuid,
                    csr_pem,
                    signature,
                    agent_version,
                    tpm_backed,
                    hostname,
                },
                match bootstrap_token {
                    Some((id, secret)) => Some((id@, secret@)),
                    None => None,
                },
                now,
                r,
            ),
    {
        let node_id = derive_node_id(public_key_der.as_slice());
        let ghost req = EnrollmentRequest {
            public_key_der,
            dmi_uuid,
            csr_pem,
            signature,
            agent_version,
            tpm_backed,
            hostname,
        };
        let ghost before = store.model();
        let submission = self.submit_enrollment(
            store,
            public_key_der,
            dmi_uuid,
            csr_pem,
            signature,
            agent_version,
            tpm_backed,
            hostname,
            now,
        );
        let enrollment_id = match submission {
            Ok(id) => id,
            Err(e) => {
                return Err(e);
            },
        };
        let ghost mid = store.model();
        assert(submits(before, mid, store.dependable(), req, now, Ok(enrollment_id)));
        match bootstrap_token {
            None => Ok((enrollment_id, None)),
            Some((token_id, secret)) => {
                match self.redeem_for(
                    store,
                    node_id.as_str(),
                    token_id.as_str(),
                    secret.as_slice(),
                    now,
                ) {
                    Ok(blob) => {
                        assert(enrolls_through(
                            self.authority(),
                            self.ttl(),
                            before,
                            mid,
                            store.model(),
                            store.dependable(),
                            req,
                            token_id@,
                            secret@,
                            now,
                            enrollment_id,
                            Ok(blob),
                        ));
                        Ok((enrollment_id, blob))
                    },
                    Err(e) => {
                        assert(e is AutoApproval ==> enrolls_through(
                            self.authority(),
                            self.ttl(),
                            before,
                            mid,
                            store.model(),
                            store.dependable(),
                            req,
                            token_id@,
                            secret@,
                            now,
                            enrollment_id,
                            Err(e),
                        ));
                        Err(e)
                    },
                }
            },
        }
    }
}

} // verus!
