use p256::ecdsa::signature::Signer;
use p256::ecdsa::{Signature, SigningKey};
use p256::pkcs8::EncodePublicKey;
use policy_controller::node_registry::tokens::{
    hash_token_secret, mint_token, BootstrapBundle, BundleError, MintError, TOKEN_SECRET_BYTES,
};
use policy_controller::node_registry::{derive_node_id, NodeRegistry, RegistryError};
use policy_controller::security::{
    CaError, CertificateAuthority, FileCertificateAuthority, IssuedCert, RevocationWatch,
    RevokedSerials,
};
use policy_controller::store::{
    ControllerStore, InMemoryControllerStore, NodeRecord, NodeStatus,
};
use policy_controller::timestamp::{TimeSpan, Timestamp};
use rcgen::{CertificateParams, DnType, KeyPair, PKCS_ECDSA_P256_SHA256};
use sha2::{Digest, Sha256};

const HOUR: TimeSpan = TimeSpan { secs: 3_600, nanos: 0 };

fn now() -> Timestamp {
    let d = std::time::SystemTime::now()
        .duration_since(std::time::UNIX_EPOCH)
        .unwrap();
    Timestamp { secs: d.as_secs() as i64, nanos: d.subsec_nanos() }
}

/// An authority that hands out fixed certificates, but only with the lifetime that it
/// expects.
struct FixedAuthority {
    serial: Vec<u8>,
    fingerprint: [u8; 32],
    expected_ttl: Option<u64>,
}

impl FixedAuthority {
    fn new(serial: &[u8], fingerprint: u8) -> Self {
        FixedAuthority {
            serial: serial.to_vec(),
            fingerprint: [fingerprint; 32],
            expected_ttl: None,
        }
    }
}

impl CertificateAuthority for FixedAuthority {
    fn ca_cert_pem(&self) -> String {
        "CA-CERT-PEM".to_string()
    }

    fn ca_fingerprint_sha256(&self) -> Result<[u8; 32], CaError> {
        Ok(self.fingerprint)
    }

    fn issue_node_cert(&self, _node_id: &str, ttl_secs: u64, _now: u64) -> Result<IssuedCert, CaError> {
        if let Some(ttl) = self.expected_ttl {
            assert_eq!(ttl, ttl_secs);
        }
        Ok(IssuedCert {
            cert_pem: "NODE-CERT-PEM".to_string(),
            key_pem: "NODE-KEY-PEM".to_string(),
            serial: self.serial.clone(),
        })
    }

    fn issue_node_cert_from_csr(
        &self,
        _node_id: &str,
        _csr_pem: &str,
        _ttl_secs: u64,
        _now: u64,
    ) -> Result<IssuedCert, CaError> {
        Err(CaError::Refused("not here".to_string()))
    }

    fn issue_server_cert(
        &self,
        _sans: &[String],
        _ttl_secs: u64,
        _now: u64,
    ) -> Result<IssuedCert, CaError> {
        Err(CaError::Refused("not here".to_string()))
    }
}

fn make_registry() -> NodeRegistry<FixedAuthority> {
    NodeRegistry::new(FixedAuthority::new(&[1, 2, 3, 4], 7))
}

/// What an agent sends: its key, a signing request, and a signature over the digest of it.
struct Agent {
    pub_der: Vec<u8>,
    csr_pem: Vec<u8>,
    signature: Vec<u8>,
}

fn csr_for(cn: &str) -> String {
    let key = KeyPair::generate_for(&PKCS_ECDSA_P256_SHA256).unwrap();
    let mut params = CertificateParams::default();
    params.distinguished_name.push(DnType::CommonName, cn);
    params.serialize_request(&key).unwrap().pem().unwrap()
}

fn agent() -> Agent {
    let signing_key = SigningKey::random(&mut rand::rngs::OsRng);
    let pub_der = signing_key
        .verifying_key()
        .to_public_key_der()
        .unwrap()
        .into_vec();
    let csr_pem = csr_for("test");
    let hash = Sha256::digest(csr_pem.as_bytes());
    let sig: Signature = signing_key.sign(&hash);
    Agent {
        pub_der,
        csr_pem: csr_pem.into_bytes(),
        signature: sig.to_bytes().to_vec(),
    }
}

fn submit<C: CertificateAuthority>(
    registry: &NodeRegistry<C>,
    store: &mut InMemoryControllerStore,
    a: &Agent,
) -> String {
    registry
        .submit_enrollment(
            store,
            a.pub_der.clone(),
            Some("test-dmi".to_string()),
            a.csr_pem.clone(),
            a.signature.clone(),
            Some("0.1.0".to_string()),
            false,
            Some("test-host".to_string()),
            now(),
        )
        .unwrap()
}

fn record(id: &str, status: NodeStatus, cert_serial: Option<Vec<u8>>) -> NodeRecord {
    NodeRecord {
        id: id.to_string(),
        label: None,
        public_key_der: vec![1],
        dmi_uuid: None,
        status,
        cert_serial,
        cert_expiry: None,
        last_seen: None,
        enrolled_at: None,
        decommissioned_at: None,
        last_renewed_at: None,
        enrollment_id: None,
        tpm_backed: false,
        agent_version: None,
        hostname: None,
        os_pretty_name: None,
        kernel_version: None,
        dmi_sys_vendor: None,
        dmi_product_name: None,
        tenant_id: "default".to_string(),
        stop_behavior: None,
        metrics_interval_secs: None,
        capabilities: "{}".to_string(),
        inspect_mode: "disabled".to_string(),
    }
}

/// Generate a real ECDSA P-256 key, build enrollment data, and run through
/// the full pending → approved lifecycle.
#[test]
fn test_enrollment_happy_path() {
    let registry = make_registry();
    let mut store = InMemoryControllerStore::new();
    let a = agent();
    let enrollment_id = submit(&registry, &mut store, &a);
    assert!(!enrollment_id.is_empty());

    // Status should be pending
    let (status, cert) = registry
        .check_enrollment_status(&store, &enrollment_id)
        .unwrap();
    assert_eq!(status, "pending");
    assert!(cert.is_none());

    // Derive node ID to approve
    let node_id = hex::encode(Sha256::digest(&a.pub_der));
    let approved = registry
        .approve_enrollment(&mut store, &node_id, Some("test-node".to_string()), None, now())
        .unwrap();
    assert_eq!(approved.status, NodeStatus::Active);

    // Status should now be approved with cert
    let (status2, cert2) = registry
        .check_enrollment_status(&store, &enrollment_id)
        .unwrap();
    assert_eq!(status2, "active");
    // get_node_cert_pem stores "key_pem + cert_pem" concatenated
    let combined = cert2.unwrap();
    assert!(combined.contains("NODE-KEY-PEM"), "should contain key PEM");
    assert!(
        combined.contains("NODE-CERT-PEM"),
        "should contain cert PEM"
    );
}

/// The value passed to `with_node_cert_ttl_secs` is exactly what reaches the CA.
#[test]
fn test_approve_uses_configured_ttl_secs() {
    const TEST_TTL_SECS: u64 = 60;

    let mut store = InMemoryControllerStore::new();
    let ca = FixedAuthority {
        expected_ttl: Some(TEST_TTL_SECS),
        ..FixedAuthority::new(&[1, 2, 3, 4], 7)
    };
    let registry = NodeRegistry::new(ca).with_node_cert_ttl_secs(TEST_TTL_SECS);

    let a = agent();
    submit(&registry, &mut store, &a);
    let node_id = hex::encode(Sha256::digest(&a.pub_der));
    let approved = registry
        .approve_enrollment(&mut store, &node_id, None, None, now())
        .ok()
        .expect("approve must succeed when CA receives the configured TTL");
    assert_eq!(approved.status, NodeStatus::Active);
    // cert_expiry should be ~TEST_TTL_SECS in the future, proving the
    // configured value also reached the persisted expiry stamp.
    let expiry = approved.cert_expiry.expect("expiry must be set");
    let delta = expiry.secs - now().secs;
    assert!(
        (delta - TEST_TTL_SECS as i64).abs() < 5,
        "cert_expiry should be ~{TEST_TTL_SECS}s out, got delta={delta}s"
    );
}

/// End-to-end renewal against a *real* CA: enroll → approve → renew →
/// confirm old serial is revoked.
#[test]
fn test_renew_cert_revokes_old_serial_and_persists_new() {
    let ca = FileCertificateAuthority::generate("Test CA").ok().unwrap().0;
    let mut store = InMemoryControllerStore::new();
    let mut registry = NodeRegistry::new(ca)
        .with_revocation(RevocationWatch::new(RevokedSerials::from_serials(vec![])))
        .with_node_cert_ttl_secs(60);

    // Enroll + approve so we have an Active node with a known serial.
    let a = agent();
    submit(&registry, &mut store, &a);
    let node_id = hex::encode(Sha256::digest(&a.pub_der));
    let approved = registry
        .approve_enrollment(&mut store, &node_id, None, None, now())
        .unwrap();
    let old_serial = approved.cert_serial.clone().expect("approval sets serial");

    // Build a real renewal CSR using a fresh node-side key.
    let renew_csr = csr_for(&node_id);
    let renewed = registry
        .renew_cert(&mut store, &node_id, &renew_csr, now())
        .ok()
        .expect("renewal of an Active, non-revoked node must succeed");

    // New serial must differ.
    assert_ne!(
        renewed.serial, old_serial,
        "renewal must produce a fresh serial — same serial would indicate \
         the CA reused a cert and we'd silently extend lifetime"
    );

    // Old serial must be revoked both in the store and on the watch.
    assert!(
        store.is_cert_revoked(&old_serial).unwrap(),
        "old serial must be revoked in store after renewal"
    );
    let snapshot = registry.revocation().unwrap().snapshot();
    assert!(
        snapshot.contains(&old_serial),
        "old serial must be published to the revocation watch so the TLS \
         verifier rejects future handshakes with the old cert"
    );

    // Node record now points at the new serial.
    let after = store.get_node(&node_id).unwrap().unwrap();
    assert_eq!(after.cert_serial.as_ref(), Some(&renewed.serial));
}

#[test]
fn test_renew_cert_rejects_decommissioned_node() {
    let ca = FileCertificateAuthority::generate("Test CA").ok().unwrap().0;
    let mut store = InMemoryControllerStore::new();
    let mut registry = NodeRegistry::new(ca);

    // No matching node at all — should fail with "Node not found", but
    // the relevant check for renewal is the "not active" status guard.
    let csr = csr_for("unknown");
    let err = registry
        .renew_cert(&mut store, "unknown", &csr, now())
        .err()
        .expect("renewal for unknown node must fail");
    let s = err.to_text();
    assert!(
        s.contains("not found") || s.contains("not active"),
        "unexpected error message: {s}"
    );
    store
        .upsert_node(&record("gone", NodeStatus::Decommissioned, None))
        .unwrap();
    assert!(matches!(
        registry.renew_cert(&mut store, "gone", &csr, now()),
        Err(RegistryError::NotActive { .. })
    ));
}

#[test]
fn revoked_serial_is_not_renewed() {
    let mut store = InMemoryControllerStore::new();
    let mut registry = make_registry();
    store
        .upsert_node(&record("n1", NodeStatus::Active, Some(vec![9])))
        .unwrap();
    store.revoke_cert(&[9]).unwrap();
    assert!(matches!(
        registry.renew_cert(&mut store, "n1", &csr_for("n1"), now()),
        Err(RegistryError::SerialRevoked(_))
    ));
}

#[test]
fn test_token_redemption_auto_approves() {
    let mut store = InMemoryControllerStore::new();
    let registry = NodeRegistry::new(FixedAuthority::new(&[5, 6, 7, 8], 7));

    // Mint a token.
    let issued = registry
        .mint_enrollment_token(
            &mut store,
            "https://e:1".to_string(),
            "https://c:2".to_string(),
            HOUR,
            3,
            None,
            Some("edge".to_string()),
            Some("alice"),
            "default",
            now(),
        )
        .unwrap();

    let bundle = BootstrapBundle::decode(&issued.bundle).unwrap();
    let secret = bundle.token_bytes().unwrap();

    // Build a real enrollment request with PoP signature.
    let a = agent();
    let (_eid, cert_blob) = registry
        .submit_enrollment_with_token(
            &mut store,
            a.pub_der.clone(),
            None,
            a.csr_pem.clone(),
            a.signature.clone(),
            None,
            false,
            None,
            Some((issued.token_id.clone(), secret.clone())),
            now(),
        )
        .unwrap();

    let blob = cert_blob.expect("token should auto-approve");
    assert!(blob.contains("NODE-KEY-PEM"));
    assert!(blob.contains("NODE-CERT-PEM"));

    // Token use should be decremented.
    let tokens = registry.list_enrollment_tokens(&store, None).unwrap();
    assert_eq!(tokens.len(), 1);
    assert_eq!(tokens[0].uses_remaining, 2);

    // Node should be Active with the fleet label applied.
    let node_id = derive_node_id(&a.pub_der);
    let node = registry.get_node(&store, &node_id).unwrap().unwrap();
    assert_eq!(node.status, NodeStatus::Active);
    assert_eq!(node.label.as_deref(), Some("edge"));
}

#[test]
fn test_token_redemption_bad_secret_keeps_pending() {
    let mut store = InMemoryControllerStore::new();
    let registry = NodeRegistry::new(FixedAuthority::new(&[1], 1));

    let issued = registry
        .mint_enrollment_token(
            &mut store,
            "u".to_string(),
            "u".to_string(),
            HOUR,
            1,
            None,
            None,
            None,
            "default",
            now(),
        )
        .unwrap();

    // Use a wrong secret.
    let a = agent();
    let (_eid, blob) = registry
        .submit_enrollment_with_token(
            &mut store,
            a.pub_der.clone(),
            None,
            a.csr_pem.clone(),
            a.signature.clone(),
            None,
            false,
            None,
            Some((issued.token_id.clone(), vec![0u8; 32])),
            now(),
        )
        .unwrap();
    assert!(blob.is_none(), "Bad secret must not auto-approve");

    // Node should still be Pending.
    let node_id = derive_node_id(&a.pub_der);
    let node = registry.get_node(&store, &node_id).unwrap().unwrap();
    assert_eq!(node.status, NodeStatus::Pending);

    // Token uses unchanged.
    let tokens = registry.list_enrollment_tokens(&store, None).unwrap();
    assert_eq!(tokens[0].uses_remaining, 1);
}

#[test]
fn test_invalid_signature_rejected() {
    let registry = make_registry();
    let mut store = InMemoryControllerStore::new();
    let a = agent();

    let result = registry.submit_enrollment(
        &mut store,
        a.pub_der,
        None,
        b"dummy-csr".to_vec(),
        vec![0u8; 64], // garbage signature
        None,
        false,
        None,
        now(),
    );

    assert!(result.is_err(), "Should reject invalid signature");
}

#[test]
fn signature_over_another_request_is_rejected() {
    let registry = make_registry();
    let mut store = InMemoryControllerStore::new();
    let a = agent();
    let other = agent();
    let result = registry.submit_enrollment(
        &mut store,
        a.pub_der,
        None,
        other.csr_pem,
        a.signature,
        None,
        false,
        None,
        now(),
    );
    assert!(matches!(result, Err(RegistryError::SignatureMismatch(_))));
    let result = registry.submit_enrollment(
        &mut store,
        vec![1, 2, 3],
        None,
        vec![],
        vec![],
        None,
        false,
        None,
        now(),
    );
    assert!(matches!(result, Err(RegistryError::PublicKey(_))));
}

#[test]
fn test_approve_non_pending_fails() {
    let registry = make_registry();
    let mut store = InMemoryControllerStore::new();
    // No node exists at all
    let result = registry.approve_enrollment(&mut store, "no-such-id", None, None, now());
    assert!(result.is_err());
}

#[test]
fn test_remove_node_deletes_record() {
    let registry = make_registry();
    let mut store = InMemoryControllerStore::new();
    // Insert a decommissioned node
    store
        .upsert_node(&record("node-del", NodeStatus::Decommissioned, None))
        .unwrap();
    assert!(store.get_node("node-del").unwrap().is_some());

    registry.remove_node(&mut store, "node-del", None, now()).unwrap();

    // Node must be gone
    assert!(
        store.get_node("node-del").unwrap().is_none(),
        "remove_node must delete the record from the store"
    );
}

#[test]
fn test_remove_active_node_fails() {
    let registry = make_registry();
    let mut store = InMemoryControllerStore::new();
    store
        .upsert_node(&record("node-active", NodeStatus::Active, None))
        .unwrap();

    let result = registry.remove_node(&mut store, "node-active", None, now());
    assert!(result.is_err(), "Cannot remove an active node");
}

#[test]
fn test_decommission_publishes_serial_to_revocation_watch() {
    let mut store = InMemoryControllerStore::new();
    let mut registry = make_registry()
        .with_revocation(RevocationWatch::new(RevokedSerials::from_serials(vec![])));

    let serial = vec![0xAB, 0xCD, 0xEF];
    store
        .upsert_node(&record("node-rev", NodeStatus::Active, Some(serial.clone())))
        .unwrap();

    // Pre: not in the watch mirror yet.
    assert!(!registry.revocation().unwrap().snapshot().contains(&serial));

    registry
        .decommission_node(&mut store, "node-rev", None, now())
        .unwrap();

    // Post: store revoked AND the TLS-layer mirror sees it.
    assert!(store.is_cert_revoked(&serial).unwrap());
    assert!(
        registry.revocation().unwrap().snapshot().contains(&serial),
        "decommission must publish to the revocation watch so TLS-layer rejects subsequent handshakes"
    );
}

#[test]
fn test_decommission_revokes_cert() {
    let mut store = InMemoryControllerStore::new();
    let mut registry = NodeRegistry::new(FixedAuthority::new(&[9, 10], 7));

    // Insert an active node directly
    store
        .upsert_node(&record("node-x", NodeStatus::Active, Some(vec![42])))
        .unwrap();

    registry
        .decommission_node(&mut store, "node-x", None, now())
        .unwrap();

    let updated = store.get_node("node-x").unwrap().unwrap();
    assert_eq!(updated.status, NodeStatus::Decommissioned);
    assert!(store.is_cert_revoked(&[42]).unwrap());
    assert!(matches!(
        registry.decommission_node(&mut store, "node-x", None, now()),
        Err(RegistryError::AlreadyDecommissioned(_))
    ));
}

/// End-to-end check that the cert serial returned by `issue_node_cert` is
/// captured on approval and that decommission revokes that exact serial.
#[test]
fn test_approve_persists_serial_and_decommission_revokes_it() {
    let mut registry = make_registry();
    let mut store = InMemoryControllerStore::new();

    // Drive a full enrollment so the approval path runs.
    let a = agent();
    submit(&registry, &mut store, &a);

    let node_id = hex::encode(Sha256::digest(&a.pub_der));
    registry
        .approve_enrollment(&mut store, &node_id, None, None, now())
        .unwrap();

    // The authority in `make_registry` returns serial = [1, 2, 3, 4].
    let stored = store
        .get_node(&node_id)
        .unwrap()
        .expect("node should exist after approval");
    assert_eq!(
        stored.cert_serial.as_deref(),
        Some(&[1u8, 2, 3, 4][..]),
        "approval must persist the serial returned by issue_node_cert"
    );
    assert!(
        !store.is_cert_revoked(&[1, 2, 3, 4]).unwrap(),
        "fresh cert must not start out revoked"
    );

    registry
        .decommission_node(&mut store, &node_id, None, now())
        .unwrap();

    assert!(
        store.is_cert_revoked(&[1, 2, 3, 4]).unwrap(),
        "decommission must revoke the captured serial"
    );
}

/// Redemption propagates the token's tenant onto the new node row and
/// onto the auto-approve audit entry, replacing the `'default'` slug
/// that `submit_enrollment` had to write before the token was validated.
#[test]
fn test_token_redemption_propagates_tenant() {
    let mut store = InMemoryControllerStore::new();
    let registry = NodeRegistry::new(FixedAuthority::new(&[1, 2, 3, 4], 9));

    let issued = registry
        .mint_enrollment_token(
            &mut store,
            "https://e:1".to_string(),
            "https://c:2".to_string(),
            HOUR,
            1,
            None,
            None,
            Some("operator"),
            "acme",
            now(),
        )
        .unwrap();

    let bundle = BootstrapBundle::decode(&issued.bundle).unwrap();
    let secret = bundle.token_bytes().unwrap();

    let a = agent();
    let (_eid, cert_blob) = registry
        .submit_enrollment_with_token(
            &mut store,
            a.pub_der.clone(),
            None,
            a.csr_pem.clone(),
            a.signature.clone(),
            None,
            false,
            None,
            Some((issued.token_id.clone(), secret.clone())),
            now(),
        )
        .unwrap();
    assert!(cert_blob.is_some(), "token should auto-approve");

    let node_id = derive_node_id(&a.pub_der);
    let node = registry.get_node(&store, &node_id).unwrap().unwrap();
    assert_eq!(node.status, NodeStatus::Active);
    assert_eq!(
        node.tenant_id, "acme",
        "redemption must move the node out of the default tenant"
    );

    // The auto-approve audit row should be filed under the token's tenant.
    let acme_audit = store.list_audit(Some("acme"), 100, 0).unwrap();
    assert!(
        acme_audit
            .iter()
            .any(|e| e.action == "enrollment_token_redeemed"),
        "redemption audit row should be visible to the acme tenant"
    );
    // Conversely, default-tenant audit shouldn't have leaked the redemption.
    let default_audit = store.list_audit(Some("default"), 100, 0).unwrap();
    assert!(
        !default_audit
            .iter()
            .any(|e| e.action == "enrollment_token_redeemed"),
        "redemption audit row must not appear in the default tenant"
    );
}

/// `list_enrollment_tokens(Some(slug))` returns only that tenant's
/// tokens, even when other tenants have minted into the same store.
/// `None` is the cross-tenant escape hatch.
#[test]
fn test_list_enrollment_tokens_filters_by_tenant() {
    let mut store = InMemoryControllerStore::new();
    let registry = make_registry();

    for (slug, label) in [("default", "fleet-a"), ("default", "fleet-b"), ("acme", "acme-edge")] {
        registry
            .mint_enrollment_token(
                &mut store,
                "https://e:1".to_string(),
                "https://c:2".to_string(),
                HOUR,
                1,
                None,
                Some(label.to_string()),
                Some("alice"),
                slug,
                now(),
            )
            .unwrap();
    }

    let default = registry
        .list_enrollment_tokens(&store, Some("default"))
        .unwrap();
    assert_eq!(default.len(), 2);
    assert!(default.iter().all(|t| t.tenant_id == "default"));

    let acme = registry.list_enrollment_tokens(&store, Some("acme")).unwrap();
    assert_eq!(acme.len(), 1);
    assert_eq!(acme[0].tenant_id, "acme");
    assert_eq!(acme[0].fleet_label.as_deref(), Some("acme-edge"));

    // `None` is the unscoped/admin view: still sees both.
    let all = registry.list_enrollment_tokens(&store, None).unwrap();
    assert_eq!(all.len(), 3);

    // An unknown tenant slug yields nothing — not an error.
    let empty = registry
        .list_enrollment_tokens(&store, Some("ghost"))
        .unwrap();
    assert!(empty.is_empty());
}

#[test]
fn rejecting_and_labelling_need_the_node() {
    let registry = make_registry();
    let mut store = InMemoryControllerStore::new();
    assert!(matches!(
        registry.reject_enrollment(&mut store, "ghost", None, None, now()),
        Err(RegistryError::NodeNotFound(_))
    ));
    assert!(matches!(
        registry.label_node(&mut store, "ghost", "x", None, now()),
        Err(RegistryError::NodeNotFound(_))
    ));
    store
        .upsert_node(&record("p", NodeStatus::Pending, None))
        .unwrap();
    registry.label_node(&mut store, "p", "rack-1", None, now()).unwrap();
    let n = store.get_node("p").unwrap().unwrap();
    assert_eq!(n.label.as_deref(), Some("rack-1"));
    registry
        .reject_enrollment(&mut store, "p", Some("no"), Some("alice"), now())
        .unwrap();
    assert_eq!(
        store.get_node("p").unwrap().unwrap().status,
        NodeStatus::Decommissioned
    );
}

fn fake_fp() -> [u8; 32] {
    let mut fp = [0u8; 32];
    for (i, b) in fp.iter_mut().enumerate() {
        *b = i as u8;
    }
    fp
}

#[test]
fn test_mint_token_returns_consistent_hash() {
    let (record, issued) = mint_token(
        "https://enroll.example.com:7776".to_string(),
        "https://controller.example.com:7777".to_string(),
        &fake_fp(),
        HOUR,
        50,
        None,
        None,
        Some("alice".to_string()),
        "default".to_string(),
        now(),
    )
    .ok()
    .unwrap();

    let bundle = BootstrapBundle::decode(&issued.bundle).unwrap();
    assert_eq!(bundle.token_id, record.token_id);

    let secret = bundle.token_bytes().unwrap();
    let recomputed = hash_token_secret(&secret).to_vec();
    assert_eq!(
        recomputed, record.token_hash,
        "Hashing the bundle secret must yield the stored hash"
    );
    assert_eq!(record.uses_remaining, 50);
    assert_eq!(record.created_by.as_deref(), Some("alice"));
}

#[test]
fn test_bundle_roundtrip() {
    let (_, issued) = mint_token(
        "https://e.example:7776".to_string(),
        "https://c.example:7777".to_string(),
        &fake_fp(),
        HOUR,
        1,
        Some("10.0.0.0/8".to_string()),
        Some("edge".to_string()),
        None,
        "default".to_string(),
        now(),
    )
    .ok()
    .unwrap();

    let bundle = BootstrapBundle::decode(&issued.bundle).unwrap();
    assert_eq!(bundle.v, 1);
    assert_eq!(bundle.enrollment_url, "https://e.example:7776");
    assert_eq!(bundle.controller_url, "https://c.example:7777");
    assert_eq!(bundle.ca_fingerprint_bytes().unwrap(), fake_fp());
    assert_eq!(bundle.token_bytes().unwrap().len(), TOKEN_SECRET_BYTES);
}

#[test]
fn test_bundle_decode_tolerates_whitespace() {
    let (_, issued) = mint_token(
        "https://e:1".to_string(),
        "https://c:2".to_string(),
        &fake_fp(),
        HOUR,
        1,
        None,
        None,
        None,
        "default".to_string(),
        now(),
    )
    .ok()
    .unwrap();
    let padded = format!("\n  {}\n", issued.bundle);
    assert!(BootstrapBundle::decode(&padded).is_ok());
}

#[test]
fn test_bundle_decode_rejects_garbage() {
    assert!(BootstrapBundle::decode("not a bundle!!!").is_err());
}

#[test]
fn bundle_errors_say_why() {
    assert_eq!(
        BootstrapBundle::decode("not a bundle!!!").err().unwrap().to_text(),
        "Bootstrap bundle is not valid base64url-no-pad"
    );
    // "{}" without padding.
    assert!(matches!(
        BootstrapBundle::decode("e30"),
        Err(BundleError::Malformed)
    ));
    let odd = BootstrapBundle {
        v: 2,
        enrollment_url: "e".to_string(),
        controller_url: "c".to_string(),
        ca_fp_sha256: "abcd".to_string(),
        token_id: "t".to_string(),
        token_b64: "!".to_string(),
        expires_at: -5,
    };
    assert_eq!(
        BootstrapBundle::decode(&odd.encode()).err().unwrap().to_text(),
        "Unsupported bootstrap bundle version: 2 (expected 1)"
    );
    assert!(matches!(odd.token_bytes(), Err(BundleError::TokenNotBase64)));
    assert!(matches!(
        odd.ca_fingerprint_bytes(),
        Err(BundleError::FingerprintLength(2))
    ));
    let known = BootstrapBundle { v: 1, ..odd };
    let back = BootstrapBundle::decode(&known.encode()).unwrap();
    assert_eq!(back.expires_at, -5);
    assert_eq!(back.token_b64, "!");
}

#[test]
fn bundle_members_stand_in_their_order() {
    let bundle = BootstrapBundle {
        v: 1,
        enrollment_url: "e".to_string(),
        controller_url: "c".to_string(),
        ca_fp_sha256: "f".to_string(),
        token_id: "t".to_string(),
        token_b64: "b".to_string(),
        expires_at: 9,
    };
    let bytes = base64::Engine::decode(
        &base64::engine::general_purpose::URL_SAFE_NO_PAD,
        bundle.encode(),
    )
    .unwrap();
    assert_eq!(
        String::from_utf8(bytes).unwrap(),
        r#"{"v":1,"enrollment_url":"e","controller_url":"c","ca_fp_sha256":"f","token_id":"t","token_b64":"b","expires_at":9}"#
    );
}

#[test]
fn test_mint_token_validates_args() {
    let mint = |ttl: TimeSpan, uses: i64| {
        mint_token(
            "u".to_string(),
            "u".to_string(),
            &fake_fp(),
            ttl,
            uses,
            None,
            None,
            None,
            "default".to_string(),
            now(),
        )
    };
    assert!(matches!(mint(HOUR, 0), Err(MintError::MaxUses)));
    assert!(matches!(
        mint(TimeSpan { secs: 0, nanos: 0 }, 1),
        Err(MintError::Ttl)
    ));
}
