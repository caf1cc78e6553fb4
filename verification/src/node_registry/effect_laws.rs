//! What the operations on nodes and tokens put on record, field by field.

use super::tokens::{self, BootstrapBundle, Decoded, IssuedToken, TokenRequest};
use super::{EnrollmentRequest, RegistryError, RenewedCert};
use crate::crypto;
use crate::json::{JsonView, NumberView};
use crate::security::ca::{CertificateAuthority, IssuedView};
use crate::store::model::{RedeemView, StoreModel};
use crate::store::records::NodeView;
use crate::store::{self, EnrollmentTokenRecord, NodeRecord, NodeStatus};
use crate::timestamp::Timestamp;
use vstd::prelude::*;

verus! {

/// Whether every node but one is as it was.
pub open spec fn other_nodes_stay(before: StoreModel, after: StoreModel, id: Seq<char>) -> bool {
    forall|k: Seq<char>|
        k != id ==> (#[trigger] after.nodes.contains_key(k) <==> before.nodes.contains_key(k))
            && after.nodes[k] == before.nodes[k]
}

/// Whether a text on record is the one that was sent, if one was.
pub open spec fn is_sent(on_record: Option<Seq<char>>, sent: Option<String>) -> bool {
    &&& on_record is Some <==> sent is Some
    &&& on_record is Some ==> on_record->0 == sent->0@
}

/// A request is taken in only from an agent that shows that it holds the private key: it
/// signed the hash of its CSR. Its node waits for approval under the hash of its key, with
/// what the agent told and no certificate. Nothing of another node changes.
pub proof fn request_is_recorded_as_sent(
    before: StoreModel,
    after: StoreModel,
    dependable: bool,
    req: EnrollmentRequest,
    now: Timestamp,
    r: Result<String, RegistryError>,
)
    requires
        super::submits(before, after, dependable, req, now, r),
        r is Ok,
    ensures
        ({
            let id = crypto::hex_text(crypto::sha256(req.public_key_der@));
            let n = after.nodes[id];
            let entry = after.audit.last();
            &&& super::possession::signature_holds(
                req.public_key_der@,
                crypto::sha256(req.csr_pem@),
                req.signature@,
            )
            &&& !(before.nodes.contains_key(id) && before.nodes[id].status is Active)
            &&& after.nodes.contains_key(id)
            &&& n.id == id
            &&& n.status is Pending
            &&& n.public_key_der == req.public_key_der@
            &&& n.tpm_backed == req.tpm_backed
            &&& is_sent(n.dmi_uuid, req.dmi_uuid)
            &&& is_sent(n.agent_version, req.agent_version)
            &&& is_sent(n.hostname, req.hostname)
            &&& n.enrollment_id == Some(r->Ok_0@)
            &&& n.tenant_id == "default"@
            &&& n.cert_serial is None && n.cert_expiry is None && n.enrolled_at is None
            &&& n.last_seen is None && n.decommissioned_at is None && n.last_renewed_at is None
            &&& n.label is None && n.stop_behavior is None && n.metrics_interval_secs is None
            &&& after.enrollments == before.enrollments.insert(r->Ok_0@, id)
            &&& other_nodes_stay(before, after, id)
            &&& after.rules == before.rules
            &&& after.certs == before.certs
            &&& after.revoked == before.revoked
            &&& after.interfaces == before.interfaces
            &&& after.audit.len() == before.audit.len() + 1
            &&& entry.action == "enrollment_submitted"@
            &&& entry.node_id == Some(id)
            &&& entry.ts == now
        }),
{
}

/// A request whose agent does not show that it holds the private key, or whose node is
/// active, changes nothing.
pub proof fn refused_request_changes_nothing(
    before: StoreModel,
    after: StoreModel,
    req: EnrollmentRequest,
    now: Timestamp,
    r: Result<String, RegistryError>,
)
    requires
        super::submits(before, after, true, req, now, r),
        ({
            let id = crypto::hex_text(crypto::sha256(req.public_key_der@));
            ||| !super::possession::signature_holds(
                req.public_key_der@,
                crypto::sha256(req.csr_pem@),
                req.signature@,
            )
            ||| before.nodes.contains_key(id) && before.nodes[id].status is Active
        }),
    ensures
        r is Err,
        after == before,
{
}

/// Only a node that waits for approval is approved. It is active from then on with the
/// serial of its certificate, which lasts for its lifetime, has the label that the operator
/// gave it, if one was, and its key and certificate can be fetched. Nothing of another node
/// changes.
pub proof fn approval_is_recorded<C: CertificateAuthority>(
    ca: C,
    ttl_secs: u64,
    before: StoreModel,
    after: StoreModel,
    dependable: bool,
    node_id: Seq<char>,
    label: Option<Seq<char>>,
    operator: Option<Seq<char>>,
    now: Timestamp,
    n: NodeRecord,
)
    requires
        super::approves(
            ca,
            ttl_secs,
            before,
            after,
            dependable,
            node_id,
            label,
            operator,
            now,
            Ok::<NodeRecord, RegistryError>(n),
        ),
        before.nodes[node_id].id == node_id,
        ttl_secs <= i64::MAX,
        i64::MIN <= now.secs + ttl_secs <= i64::MAX,
    ensures
        before.nodes.contains_key(node_id) && before.nodes[node_id].status is Pending,
        exists|c: IssuedView|
            {
                let was = before.nodes[node_id];
                let is = after.nodes[node_id];
                let entry = after.audit.last();
                &&& #[trigger] ca.may_issue(node_id, ttl_secs, super::unix_secs(now), c)
                &&& is.status is Active
                &&& is.cert_serial == Some(c.serial)
                &&& is.cert_expiry is Some
                &&& is.cert_expiry->0.secs == now.secs + ttl_secs
                &&& is.cert_expiry->0.nanos == now.nanos
                &&& is.enrolled_at == Some(now)
                &&& is.label == (if label is Some {
                    label
                } else {
                    was.label
                })
                &&& is == (NodeView {
                    status: is.status,
                    cert_serial: is.cert_serial,
                    cert_expiry: is.cert_expiry,
                    enrolled_at: is.enrolled_at,
                    label: is.label,
                    ..was
                })
                &&& n@ == is
                &&& after.certs == before.certs.insert(node_id, c.key_pem + c.cert_pem)
                &&& entry.action == "enrollment_approved"@
                &&& entry.operator == operator
                &&& entry.node_id == Some(node_id)
                &&& entry.ts == now
            },
        now.secs >= 0 ==> super::unix_secs(now) == now.secs,
        other_nodes_stay(before, after, node_id),
        after.rules == before.rules,
        after.revoked == before.revoked,
        after.interfaces == before.interfaces,
        after.audit.len() == before.audit.len() + 1,
{
}

/// Renewing changes nothing of a node but its serial, its expiry and when it was renewed
/// last, and nothing of another node.
pub proof fn renewal_is_recorded(
    m: StoreModel,
    node_id: Seq<char>,
    serial: Seq<u8>,
    expiry: Timestamp,
    now: Timestamp,
    audit_id: i64,
)
    requires
        m.nodes.contains_key(node_id),
        m.nodes[node_id].id == node_id,
    ensures
        ({
            let after = super::renewed(m, node_id, serial, expiry, now, audit_id);
            let was = m.nodes[node_id];
            let is = after.nodes[node_id];
            let entry = after.audit.last();
            &&& is == (NodeView {
                cert_serial: Some(serial),
                cert_expiry: Some(expiry),
                last_renewed_at: Some(now),
                ..was
            })
            &&& other_nodes_stay(m, after, node_id)
            &&& after.rules == m.rules
            &&& after.certs == m.certs
            &&& after.interfaces == m.interfaces
            &&& forall|s: Seq<u8>| #[trigger]
                after.revoked.contains(s) <==> m.revoked.contains(s) || was.cert_serial == Some(s)
            &&& after.audit.len() == m.audit.len() + 1
            &&& entry.action == "cert_renewed"@
            &&& entry.node_id == Some(node_id)
            &&& entry.ts == now
        }),
{
}

/// Decommissioning changes nothing of a node but its status and when it was decommissioned,
/// revokes no serial but its own, and changes nothing of another node.
pub proof fn decommissioning_is_recorded(
    m: StoreModel,
    node_id: Seq<char>,
    operator: Option<Seq<char>>,
    now: Timestamp,
    audit_id: i64,
)
    requires
        m.nodes.contains_key(node_id),
        m.nodes[node_id].id == node_id,
    ensures
        ({
            let after = super::decommissioned(m, node_id, operator, now, audit_id);
            let was = m.nodes[node_id];
            let is = after.nodes[node_id];
            let entry = after.audit.last();
            &&& is == (NodeView {
                status: NodeStatus::Decommissioned,
                decommissioned_at: Some(now),
                ..was
            })
            &&& other_nodes_stay(m, after, node_id)
            &&& after.rules == m.rules
            &&& after.certs == m.certs
            &&& after.interfaces == m.interfaces
            &&& forall|s: Seq<u8>| #[trigger]
                after.revoked.contains(s) <==> m.revoked.contains(s) || was.cert_serial == Some(s)
            &&& after.audit.len() == m.audit.len() + 1
            &&& entry.action == "node_decommissioned"@
            &&& entry.operator == operator
            &&& entry.node_id == Some(node_id)
            &&& entry.ts == now
        }),
{
}

/// A token is put on record as it was asked for: it expires its lifetime after now, can be
/// used as often as was asked, and is that of the tenant, the label and the range that were
/// named. On record is the hash of its secret.
pub proof fn token_is_recorded_as_asked_for(
    req: TokenRequest,
    fingerprint: Seq<u8>,
    token_id: Seq<char>,
    secret: Seq<u8>,
    now: Timestamp,
    record: EnrollmentTokenRecord,
    issued: IssuedToken,
)
    requires
        tokens::is_minted(req, fingerprint, token_id, secret, now, record, issued),
    ensures
        record.token_id@ == token_id,
        record.token_hash@ == crypto::sha256(secret),
        record.created_at == now,
        record.expires_at == issued.expires_at,
        record.expires_at.secs * 1000000000 + record.expires_at.nanos == now.secs * 1000000000
            + now.nanos + req.ttl.secs * 1000000000 + req.ttl.nanos,
        record.uses_remaining == req.max_uses,
        record.revoked_at is None,
        record.tenant_id@ == req.tenant_id@,
        store::effect_laws::same_texts(record.created_by, req.created_by),
        store::effect_laws::same_texts(record.cidr_scope, req.cidr_scope),
        store::effect_laws::same_texts(record.fleet_label, req.fleet_label),
        issued.token_id@ == token_id,
        issued.uses_remaining == req.max_uses,
{
}

/// Whoever decodes the bundle of a token finds the two addresses that were asked for, the
/// fingerprint of the authority, the id and the secret of the token, and when it expires.
pub proof fn bundle_carries_the_token(
    req: TokenRequest,
    fingerprint: Seq<u8>,
    token_id: Seq<char>,
    secret: Seq<u8>,
    now: Timestamp,
    record: EnrollmentTokenRecord,
    issued: IssuedToken,
    b: BootstrapBundle,
)
    requires
        tokens::is_minted(req, fingerprint, token_id, secret, now, record, issued),
        tokens::decoded(issued.bundle@) == Decoded::Bundle(b@),
    ensures
        b.v == 1,
        b.enrollment_url@ == req.enrollment_url@,
        b.controller_url@ == req.controller_url@,
        b.ca_fp_sha256@ == crypto::hex_text(fingerprint),
        b.token_id@ == token_id,
        crypto::base64_bytes(b.token_b64@) == Some(secret),
        b.expires_at == issued.expires_at.secs,
{
}

/// A bundle is read from the members of its object by their names.
pub proof fn bundle_is_read_by_name(m: Map<Seq<char>, JsonView>, b: BootstrapBundle)
    requires
        tokens::bundle_of(JsonView::Object(m)) == Some(b@),
    ensures
        m.contains_key("v"@) && m["v"@] == JsonView::Number(NumberView::Unsigned(b.v as nat)),
        m.contains_key("enrollment_url"@) && m["enrollment_url"@] == JsonView::Str(
            b.enrollment_url@,
        ),
        m.contains_key("controller_url"@) && m["controller_url"@] == JsonView::Str(
            b.controller_url@,
        ),
        m.contains_key("ca_fp_sha256"@) && m["ca_fp_sha256"@] == JsonView::Str(b.ca_fp_sha256@),
        m.contains_key("token_id"@) && m["token_id"@] == JsonView::Str(b.token_id@),
        m.contains_key("token_b64"@) && m["token_b64"@] == JsonView::Str(b.token_b64@),
        m.contains_key("expires_at"@) && match m["expires_at"@] {
            JsonView::Number(NumberView::Unsigned(n)) => n == b.expires_at,
            JsonView::Number(NumberView::Negative(n)) => n < 0 ==> n == b.expires_at,
            _ => false,
        },
{
    let names = tokens::field_names();
    assert(names[0] == "v"@ && names[1] == "enrollment_url"@ && names[2] == "controller_url"@);
    assert(names[3] == "ca_fp_sha256"@ && names[4] == "token_id"@ && names[5] == "token_b64"@);
    assert(names[6] == "expires_at"@);
    let f = Seq::new(7, |i: int| m[names[i]]);
    assert(f[0] == m["v"@] && f[6] == m["expires_at"@]);
}

/// An agent that brings a token that is redeemed is active at once, in the tenant of the
/// token and under its label, and is handed its key and certificate; with any other token
/// its node is left alone.
pub proof fn token_settles_where_the_node_belongs<C: CertificateAuthority>(
    ca: C,
    ttl_secs: u64,
    m: StoreModel,
    after: StoreModel,
    node_id: Seq<char>,
    token_id: Seq<char>,
    secret: Seq<u8>,
    now: Timestamp,
    blob: Option<String>,
    t: EnrollmentTokenRecord,
)
    requires
        super::redeems(
            ca,
            ttl_secs,
            m,
            after,
            true,
            node_id,
            token_id,
            secret,
            now,
            Ok::<Option<String>, RegistryError>(blob),
        ),
        m.nodes.contains_key(node_id),
        m.nodes[node_id].id == node_id,
        m.tokens.contains_key(token_id),
        m.tokens[token_id] == t@,
    ensures
        blob is Some <==> {
            &&& crypto::sha256(secret) == t.token_hash@
            &&& t.revoked_at is None
            &&& now.secs * 1000000000 + now.nanos < t.expires_at.secs * 1000000000
                + t.expires_at.nanos
            &&& t.uses_remaining > 0
        },
        blob is Some ==> {
            &&& after.nodes[node_id].status is Active
            &&& after.nodes[node_id].tenant_id == t.tenant_id@
            &&& t.fleet_label is Some ==> after.nodes[node_id].label == Some(t.fleet_label->0@)
            &&& t.fleet_label is None ==> after.nodes[node_id].label == m.nodes[node_id].label
            &&& after.certs[node_id] == blob->0@
            &&& after.tokens[token_id].uses_remaining == t.uses_remaining - 1
        },
        blob is None ==> after.nodes == m.nodes && after.certs == m.certs && after.tokens
            == m.tokens,
        other_nodes_stay(m, after, node_id),
        after.audit.last().action == (if blob is Some {
            "enrollment_token_redeemed"@
        } else {
            "enrollment_token_rejected"@
        }),
{
    let (mid, outcome) = choose|mid: StoreModel, outcome: RedeemView|
        {
            &&& #[trigger] store::redeemed(
                m,
                mid,
                token_id,
                crypto::sha256(secret),
                now,
                outcome,
            )
            &&& match outcome {
                RedeemView::Redeemed { fleet_label, tenant_id } => blob is Some
                    && super::approves_token(
                    ca,
                    ttl_secs,
                    super::moved(mid, node_id, tenant_id),
                    after,
                    node_id,
                    token_id,
                    fleet_label,
                    tenant_id,
                    now,
                    blob->0@,
                ),
                _ => blob is None && after == mid.audited(
                    after.audit.last().id,
                    super::rejected_entry(token_id, outcome),
                    now,
                ),
            }
        };
    store::effect_laws::token_is_redeemed_just_where(t, crypto::sha256(secret), now);
}

/// Only an active node whose certificate is not revoked renews. It is handed the certificate
/// whose serial is put on record, is told when it runs out, and its old serial is revoked in
/// the mirror, too.
pub proof fn active_node_renews<C: CertificateAuthority>(
    ca: C,
    ttl_secs: u64,
    before: StoreModel,
    after: StoreModel,
    mirror: Option<Set<Seq<u8>>>,
    mirror_after: Option<Set<Seq<u8>>>,
    node_id: Seq<char>,
    csr: Seq<char>,
    now: Timestamp,
    c: RenewedCert,
)
    requires
        super::renews(
            ca,
            ttl_secs,
            before,
            after,
            mirror,
            mirror_after,
            true,
            node_id,
            csr,
            now,
            Ok::<RenewedCert, RegistryError>(c),
        ),
        before.nodes[node_id].id == node_id,
        ttl_secs <= i64::MAX,
        i64::MIN <= now.secs + ttl_secs <= i64::MAX,
    ensures
        before.nodes.contains_key(node_id) && before.nodes[node_id].status is Active,
        before.nodes[node_id].cert_serial is Some ==> !before.revoked.contains(
            before.nodes[node_id].cert_serial->0,
        ) && after.revoked.contains(before.nodes[node_id].cert_serial->0),
        after.nodes[node_id].cert_serial == Some(c.serial@),
        c.not_after_unix == now.secs + ttl_secs,
        after.nodes[node_id].cert_expiry is Some && after.nodes[node_id].cert_expiry->0.secs
            == c.not_after_unix,
        exists|i: IssuedView| #[trigger]
            ca.may_sign(node_id, csr, ttl_secs, super::unix_secs(now), i) && i.serial == c.serial@
                && i.cert_pem == c.cert_pem@,
        mirror is Some && before.nodes[node_id].cert_serial is Some ==> mirror_after == Some(
            mirror->0.insert(before.nodes[node_id].cert_serial->0),
        ),
        mirror is None ==> mirror_after is None,
{
}

/// A node that is not on record, is not active, or has its certificate revoked does not
/// renew, and nothing changes.
pub proof fn renewal_is_refused_to_others<C: CertificateAuthority>(
    ca: C,
    ttl_secs: u64,
    before: StoreModel,
    after: StoreModel,
    mirror: Option<Set<Seq<u8>>>,
    mirror_after: Option<Set<Seq<u8>>>,
    node_id: Seq<char>,
    csr: Seq<char>,
    now: Timestamp,
    r: Result<RenewedCert, RegistryError>,
)
    requires
        super::renews(
            ca,
            ttl_secs,
            before,
            after,
            mirror,
            mirror_after,
            true,
            node_id,
            csr,
            now,
            r,
        ),
        ({
            ||| !before.nodes.contains_key(node_id)
            ||| !(before.nodes[node_id].status is Active)
            ||| before.nodes[node_id].cert_serial is Some && before.revoked.contains(
                before.nodes[node_id].cert_serial->0,
            )
        }),
    ensures
        r is Err,
        after == before,
        mirror_after == mirror,
        before.nodes.contains_key(node_id) && before.nodes[node_id].status is Active ==> r->Err_0
            is SerialRevoked,
{
}

/// A token is minted just where it can be used at least once and lasts for some time.
pub proof fn token_needs_a_use_and_a_lifetime(req: TokenRequest)
    ensures
        req.refused() is None <==> req.max_uses > 0 && req.ttl.secs * 1000000000 + req.ttl.nanos
            > 0,
{
}

/// A token that is minted is on record under its id, which was free, and noted under its
/// tenant; nothing else changes.
pub proof fn minted_token_is_on_record(
    before: StoreModel,
    after: StoreModel,
    req: TokenRequest,
    fingerprint: Seq<u8>,
    now: Timestamp,
    issued: IssuedToken,
)
    requires
        super::mints(
            before,
            after,
            true,
            req,
            fingerprint,
            now,
            Ok::<IssuedToken, RegistryError>(issued),
        ),
    ensures
        ({
            let t = after.tokens[issued.token_id@];
            let entry = after.audit.last();
            &&& !before.tokens.contains_key(issued.token_id@)
            &&& after.tokens == before.tokens.insert(issued.token_id@, t)
            &&& t.token_id == issued.token_id@
            &&& t.uses_remaining == req.max_uses && t.uses_remaining == issued.uses_remaining
            &&& t.expires_at == issued.expires_at
            &&& t.tenant_id == req.tenant_id@
            &&& t.revoked_at is None
            &&& after == (StoreModel { tokens: after.tokens, audit: after.audit, ..before })
            &&& after.audit.len() == before.audit.len() + 1
            &&& entry.action == "enrollment_token_created"@
            &&& entry.tenant_id == req.tenant_id@
            &&& is_sent(entry.operator, req.created_by)
            &&& entry.ts == now
        }),
{
    let record = choose|record: EnrollmentTokenRecord| #[trigger]
        super::mints_record(before, after, req, fingerprint, now, record, issued);
    let (token_id, secret) = choose|token_id: Seq<char>, secret: Seq<u8>|
        {
            &&& crate::ids::uuid_shaped(token_id)
            &&& secret.len() == tokens::TOKEN_SECRET_BYTES
            &&& #[trigger] tokens::is_minted(
                req,
                fingerprint,
                token_id,
                secret,
                now,
                record,
                issued,
            )
        };
    assert(record.token_id@ == token_id);
}

/// An agent without a token waits for approval and is handed nothing.
pub proof fn without_token_nothing_is_handed_out<C: CertificateAuthority>(
    ca: C,
    ttl_secs: u64,
    before: StoreModel,
    after: StoreModel,
    req: EnrollmentRequest,
    now: Timestamp,
    id: String,
    blob: Option<String>,
)
    requires
        super::enrolls(
            ca,
            ttl_secs,
            before,
            after,
            true,
            req,
            None,
            now,
            Ok::<(String, Option<String>), RegistryError>((id, blob)),
        ),
    ensures
        blob is None,
        after.nodes[crypto::hex_text(crypto::sha256(req.public_key_der@))].status is Pending,
        after.certs == before.certs,
{
    request_is_recorded_as_sent(before, after, true, req, now, Ok(id));
}

/// An agent that brings a token is enrolled by it: where it is handed its key and
/// certificate its node is active in the tenant of the token and its request was proven;
/// where it is handed nothing its node waits.
pub proof fn token_decides_on_the_enrollment<C: CertificateAuthority>(
    ca: C,
    ttl_secs: u64,
    before: StoreModel,
    after: StoreModel,
    req: EnrollmentRequest,
    token_id: Seq<char>,
    secret: Seq<u8>,
    now: Timestamp,
    id: String,
    blob: Option<String>,
    t: EnrollmentTokenRecord,
)
    requires
        super::enrolls(
            ca,
            ttl_secs,
            before,
            after,
            true,
            req,
            Some((token_id, secret)),
            now,
            Ok::<(String, Option<String>), RegistryError>((id, blob)),
        ),
        before.tokens.contains_key(token_id),
        before.tokens[token_id] == t@,
    ensures
        ({
            let node_id = crypto::hex_text(crypto::sha256(req.public_key_der@));
            let n = after.nodes[node_id];
            &&& super::possession::signature_holds(
                req.public_key_der@,
                crypto::sha256(req.csr_pem@),
                req.signature@,
            )
            &&& blob is Some <==> {
                &&& crypto::sha256(secret) == t.token_hash@
                &&& t.revoked_at is None
                &&& now.secs * 1000000000 + now.nanos < t.expires_at.secs * 1000000000
                    + t.expires_at.nanos
                &&& t.uses_remaining > 0
            }
            &&& blob is Some ==> n.status is Active && n.tenant_id == t.tenant_id@
            &&& blob is Some ==> after.certs[node_id] == blob->0@
            &&& blob is None ==> n.status is Pending && after.certs == before.certs
            &&& n.enrollment_id == Some(id@)
        }),
{
    let node_id = crypto::hex_text(crypto::sha256(req.public_key_der@));
    let (mid, under) = choose|mid: StoreModel, under: String|
        {
            &&& Some(id) is None || Some(id) == Some(under)
            &&& #[trigger] super::enrolls_through(
                ca,
                ttl_secs,
                before,
                mid,
                after,
                true,
                req,
                token_id,
                secret,
                now,
                under,
                Ok::<Option<String>, RegistryError>(blob),
            )
        };
    request_is_recorded_as_sent(before, mid, true, req, now, Ok(under));
    token_settles_where_the_node_belongs(
        ca,
        ttl_secs,
        mid,
        after,
        node_id,
        token_id,
        secret,
        now,
        blob,
        t,
    );
}

} // verus!
