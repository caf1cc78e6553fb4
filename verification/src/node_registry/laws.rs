//! What holds across the operations on nodes and their certificates.

use super::tokens::{self, Decoded, IssuedToken, TokenRequest};
use super::EnrollmentRequest;
use crate::crypto;
use crate::security::ca::{self, CertificateAuthority, FileCertificateAuthority, IssuedView};
use crate::security::revocation;
use crate::security::x509::{self, X509View};
use crate::store::model::{self, RedeemView, StoreModel};
use crate::store::{EnrollmentTokenRecord, NodeStatus};
use crate::timestamp::Timestamp;
use vstd::prelude::*;

verus! {

/// A reader of a certificate that a node was given finds the id of the node, the serial
/// that was put on record for it, and that it is valid from the time of issue to the end
/// of its lifetime.
pub proof fn issued_certificate_is_read_back(
    ca: FileCertificateAuthority,
    node_id: Seq<char>,
    ttl_secs: u64,
    now: u64,
    c: IssuedView,
)
    requires
        ca.may_issue(node_id, ttl_secs, now, c),
    ensures
        ca::anchor_der(c.cert_pem) matches Some(der) && x509::x509_reading(der) == (
        X509View::Read {
            serial: c.serial,
            not_before: ca::starts_at(now) as i64,
            not_after: ca::ends_at(now, ttl_secs) as i64,
            common_name: Some(node_id),
        }),
{
    assert(x509::reads_back(ca::node_profile(node_id, ttl_secs, now, c.serial)));
}

/// A certificate that a node was given passes the handshake until its serial is revoked,
/// and no longer.
pub proof fn certificate_passes_until_revoked(
    ca: FileCertificateAuthority,
    node_id: Seq<char>,
    ttl_secs: u64,
    now: u64,
    c: IssuedView,
    revoked: Set<Seq<u8>>,
)
    requires
        ca.may_issue(node_id, ttl_secs, now, c),
    ensures
        ca::anchor_der(c.cert_pem) matches Some(der) && (revocation::unrevoked(der, revoked)
            <==> !revoked.contains(c.serial)),
{
}

/// The same of a certificate that answers a signing request.
pub proof fn renewed_certificate_is_read_back(
    ca: FileCertificateAuthority,
    node_id: Seq<char>,
    csr: Seq<char>,
    ttl_secs: u64,
    now: u64,
    c: IssuedView,
)
    requires
        ca.may_sign(node_id, csr, ttl_secs, now, c),
    ensures
        ca::anchor_der(c.cert_pem) matches Some(der) && x509::x509_reading(der) == (
        X509View::Read {
            serial: c.serial,
            not_before: ca::starts_at(now) as i64,
            not_after: ca::ends_at(now, ttl_secs) as i64,
            common_name: Some(node_id),
        }),
{
    assert(x509::reads_back(ca::node_profile(node_id, ttl_secs, now, c.serial)));
}

/// A certificate is never issued already expired, however long it is to last.
pub proof fn issued_certificate_has_not_expired(now: u64, ttl_secs: u64)
    requires
        now <= x509::MAX_UNIX_TS,
    ensures
        ca::starts_at(now) == now,
        now <= ca::ends_at(now, ttl_secs) <= x509::MAX_UNIX_TS,
{
}

/// A node that was given a serial and is then decommissioned has it revoked, in the
/// store and in the mirror, and cannot renew.
pub proof fn decommissioning_revokes(
    m: StoreModel,
    node_id: Seq<char>,
    operator: Option<Seq<char>>,
    now: Timestamp,
    audit_id: i64,
    mirror: Set<Seq<u8>>,
    serial: Seq<u8>,
)
    requires
        m.nodes.contains_key(node_id),
        m.nodes[node_id].id == node_id,
        m.nodes[node_id].cert_serial == Some(serial),
    ensures
        ({
            let after = super::decommissioned(m, node_id, operator, now, audit_id);
            &&& after.revoked.contains(serial)
            &&& super::has_status(after, node_id, NodeStatus::Decommissioned)
            &&& super::mirrored(Some(mirror), Some(serial)) == Some(mirror.insert(serial))
            &&& forall|s: Seq<u8>| m.revoked.contains(s) ==> #[trigger] after.revoked.contains(s)
        }),
{
}

/// Renewing revokes the old serial and no other; the node stays active under the new
/// one, and its credentials blob is left as it was.
pub proof fn renewing_revokes_the_old(
    m: StoreModel,
    node_id: Seq<char>,
    serial: Seq<u8>,
    old_serial: Seq<u8>,
    expiry: Timestamp,
    now: Timestamp,
    audit_id: i64,
)
    requires
        super::has_status(m, node_id, NodeStatus::Active),
        m.nodes[node_id].id == node_id,
        m.nodes[node_id].cert_serial == Some(old_serial),
    ensures
        ({
            let after = super::renewed(m, node_id, serial, expiry, now, audit_id);
            &&& after.revoked == m.revoked.insert(old_serial)
            &&& super::has_status(after, node_id, NodeStatus::Active)
            &&& after.nodes[node_id].cert_serial == Some(serial)
            &&& after.nodes[node_id].last_renewed_at == Some(now)
            &&& after.certs == m.certs
        }),
{
}

/// An agent that asks for its enrollment after the node was approved is told that it
/// is active and given the key and the certificate.
pub proof fn approved_node_is_given_its_credentials(
    m: StoreModel,
    req: EnrollmentRequest,
    enrollment_id: Seq<char>,
    c: IssuedView,
    label: Option<Seq<char>>,
    operator: Option<Seq<char>>,
    expiry: Timestamp,
    submitted_at: Timestamp,
    approved_at: Timestamp,
    first_id: i64,
    second_id: i64,
)
    ensures
        ({
            let pending = super::submitted(m, req, enrollment_id, first_id, submitted_at);
            let after = super::approved(
                pending,
                req.node_id(),
                c,
                label,
                operator,
                expiry,
                approved_at,
                second_id,
            );
            &&& super::has_status(pending, req.node_id(), NodeStatus::Pending)
            &&& after.enrollments.contains_key(enrollment_id)
            &&& after.enrollments[enrollment_id] == req.node_id()
            &&& super::has_status(after, req.node_id(), NodeStatus::Active)
            &&& after.nodes[req.node_id()].cert_serial == Some(c.serial)
            &&& after.certs[req.node_id()] == c.key_pem + c.cert_pem
        }),
{
}

/// What a token's bundle carries redeems the token as long as it has not expired: the
/// agent that decodes the bundle finds the secret whose hash was put on record.
pub proof fn minted_token_redeems(
    req: TokenRequest,
    fingerprint: Seq<u8>,
    token_id: Seq<char>,
    secret: Seq<u8>,
    now: Timestamp,
    record: EnrollmentTokenRecord,
    issued: IssuedToken,
    later: Timestamp,
)
    requires
        tokens::is_minted(req, fingerprint, token_id, secret, now, record, issued),
        req.refused() is None,
        later.instant() < now.instant() + req.ttl.length(),
    ensures
        tokens::decoded(issued.bundle@) matches Decoded::Bundle(b) && b.token_id == token_id
            && crypto::base64_bytes(b.token_b64) == Some(secret) && crypto::hex_bytes(
            b.ca_fp_sha256,
        ) == Some(fingerprint),
        model::redeem_outcome(record@, crypto::sha256(secret), later) == (RedeemView::Redeemed {
            fleet_label: record@.fleet_label,
            tenant_id: record@.tenant_id,
        }),
{
    crypto::hex_round_trip(fingerprint);
}

/// A token that has expired is not redeemed, even with its own secret.
pub proof fn expired_token_is_refused(
    req: TokenRequest,
    fingerprint: Seq<u8>,
    token_id: Seq<char>,
    secret: Seq<u8>,
    now: Timestamp,
    record: EnrollmentTokenRecord,
    issued: IssuedToken,
    later: Timestamp,
)
    requires
        tokens::is_minted(req, fingerprint, token_id, secret, now, record, issued),
        later.instant() >= now.instant() + req.ttl.length(),
    ensures
        model::redeem_outcome(record@, crypto::sha256(secret), later) == RedeemView::Expired,
{
}

} // verus!
