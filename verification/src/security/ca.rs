//! The controller's Certificate Authority.

use super::x509::{
    self, CertProfile, CertificateView, Curve, KeyUse, PemSection, PemView, ProfileView, Purpose,
    SanView,
};
use crate::crypto;
use crate::store::records;
use crate::text;
use vstd::prelude::*;

verus! {

broadcast use vstd::string::group_string_axioms;

/// Issued certificate and key material.
pub struct IssuedCert {
    /// PEM-encoded signed certificate.
    pub cert_pem: String,
    /// PEM-encoded private key (PKCS#8). Empty where the key stays with the node.
    pub key_pem: String,
    /// Big-endian DER-encoded certificate serial number. Persisted alongside the
    /// node record so that revocation can later target this specific issuance and
    /// reject reconnects whose presented cert serial matches.
    pub serial: Vec<u8>,
}

/// What an issued certificate consists of.
pub struct IssuedView {
    pub cert_pem: Seq<char>,
    pub key_pem: Seq<char>,
    pub serial: Seq<u8>,
}

impl View for IssuedCert {
    type V = IssuedView;

    open spec fn view(&self) -> IssuedView {
        IssuedView { cert_pem: self.cert_pem@, key_pem: self.key_pem@, serial: self.serial@ }
    }
}

/// Why an authority refused.
#[derive(Debug)]
pub enum CaError {
    CaKey(String),
    CaKeyGeneration(String),
    CaCertificate(String),
    CaPemEmpty,
    CaPem(String),
    NodeKey(String),
    NodeSigning(String),
    Request(String),
    RequestSigning(String),
    NoSan,
    ServerKey(String),
    BadSan(String),
    ServerSigning(String),
    /// An authority behind another interface refused.
    Refused(String),
}

impl CaError {
    /// The text of the error.
    pub open spec fn message(self) -> Seq<char> {
        match self {
            CaError::CaKey(e) => "Failed to parse CA key: "@ + e@,
            CaError::CaKeyGeneration(e) => "Failed to generate CA key: "@ + e@,
            CaError::CaCertificate(e) => e@,
            CaError::CaPemEmpty => "CA cert PEM contains no certificate"@,
            CaError::CaPem(e) => "Failed to parse CA cert PEM: "@ + e@,
            CaError::NodeKey(e) => "Failed to generate node key: "@ + e@,
            CaError::NodeSigning(e) => "Failed to sign node certificate: "@ + e@,
            CaError::Request(e) => "Failed to parse or verify CSR signature: "@ + e@,
            CaError::RequestSigning(e) => "Failed to sign renewal certificate from CSR: "@ + e@,
            CaError::NoSan => "issue_server_cert requires at least one SAN entry"@,
            CaError::ServerKey(e) => "Failed to generate server key: "@ + e@,
            CaError::BadSan(s) => "SAN "@ + text::quoted(s@) + " is not a valid IP or DNS name"@,
            CaError::ServerSigning(e) => "Failed to sign server certificate: "@ + e@,
            CaError::Refused(e) => e@,
        }
    }

    /// The text of the error.
    pub fn to_text(&self) -> (s: String)
        ensures
            s@ == self.message(),
    {
        match self {
            CaError::CaKey(e) => text::concat2("Failed to parse CA key: ", e.as_str()),
            CaError::CaKeyGeneration(e) => text::concat2(
                "Failed to generate CA key: ",
                e.as_str(),
            ),
            CaError::CaCertificate(e) => e.clone(),
            CaError::CaPemEmpty => "CA cert PEM contains no certificate".to_string(),
            CaError::CaPem(e) => text::concat2("Failed to parse CA cert PEM: ", e.as_str()),
            CaError::NodeKey(e) => text::concat2("Failed to generate node key: ", e.as_str()),
            CaError::NodeSigning(e) => text::concat2(
                "Failed to sign node certificate: ",
                e.as_str(),
            ),
            CaError::Request(e) => text::concat2(
                "Failed to parse or verify CSR signature: ",
                e.as_str(),
            ),
            CaError::RequestSigning(e) => text::concat2(
                "Failed to sign renewal certificate from CSR: ",
                e.as_str(),
            ),
            CaError::NoSan => "issue_server_cert requires at least one SAN entry".to_string(),
            CaError::ServerKey(e) => text::concat2("Failed to generate server key: ", e.as_str()),
            CaError::BadSan(s) => text::concat3(
                "SAN ",
                text::quote(s.as_str()).as_str(),
                " is not a valid IP or DNS name",
            ),
            CaError::ServerSigning(e) => text::concat2(
                "Failed to sign server certificate: ",
                e.as_str(),
            ),
            CaError::Refused(e) => e.clone(),
        }
    }
}

/// Manages the controller's Certificate Authority.
///
/// Issued node certs embed the `node_id` as the Common Name so the controller
/// can identify the node from its TLS client certificate without a separate lookup.
///
/// `now` is the time of issue in Unix seconds.
pub trait CertificateAuthority: Sized {
    /// The certificate of the authority in PEM format.
    open spec fn anchor(&self) -> Seq<char> {
        arbitrary()
    }

    /// Whether the authority may give a node this certificate.
    open spec fn may_issue(&self, node_id: Seq<char>, ttl_secs: u64, now: u64, c: IssuedView) -> bool {
        true
    }

    /// Whether the authority may answer a signing request with this certificate.
    open spec fn may_sign(
        &self,
        node_id: Seq<char>,
        csr: Seq<char>,
        ttl_secs: u64,
        now: u64,
        c: IssuedView,
    ) -> bool {
        true
    }

    /// Whether the authority may give a server this certificate.
    open spec fn may_serve(
        &self,
        sans: Seq<Seq<char>>,
        ttl_secs: u64,
        now: u64,
        c: IssuedView,
    ) -> bool {
        true
    }

    /// Returns the CA certificate in PEM format.
    /// Distributed to agents as the trust anchor for verifying the controller.
    fn ca_cert_pem(&self) -> (s: String)
        ensures
            s@ == self.anchor(),
    ;

    /// SHA-256 over the DER encoding of the CA certificate.
    ///
    /// Embedded in ZTP bootstrap bundles so agents can pin the controller's CA
    /// during the first TLS handshake without a pre-distributed cert file.
    fn ca_fingerprint_sha256(&self) -> (r: Result<[u8; 32], CaError>)
        ensures
            r matches Ok(fp) ==> anchor_der(self.anchor()) matches Some(der) && fp@
                == crypto::sha256(der),
    ;

    /// Issue a new mTLS client certificate and key for the given node.
    /// The `node_id` is embedded as the certificate Common Name.
    ///
    /// `ttl_secs` is the validity window in seconds. Seconds rather than days
    /// because cert rotation needs certs that expire in roughly a minute.
    fn issue_node_cert(&self, node_id: &str, ttl_secs: u64, now: u64) -> (r: Result<
        IssuedCert,
        CaError,
    >)
        ensures
            r matches Ok(c) ==> self.may_issue(node_id@, ttl_secs, now, c@),
    ;

    /// Issue an mTLS client certificate from an agent-supplied CSR.
    ///
    /// Used by renewal so the renewed private key never leaves the node. The CSR's
    /// signature is verified; on success a fresh certificate is minted with `node_id`
    /// as the CN and the standard client-cert profile. The CSR's own subject and
    /// extensions are **not** trusted — the caller is responsible for any CN
    /// cross-checks against the authenticated peer.
    ///
    /// `key_pem` in the returned [`IssuedCert`] is empty: only the controller
    /// signature is returned, the agent already holds the matching key.
    fn issue_node_cert_from_csr(&self, node_id: &str, csr_pem: &str, ttl_secs: u64, now: u64) -> (r:
        Result<IssuedCert, CaError>)
        ensures
            r matches Ok(c) ==> self.may_sign(node_id@, csr_pem@, ttl_secs, now, c@),
    ;

    /// Issue a TLS server certificate covering the given SAN entries.
    ///
    /// Each entry is an `iPAddress` SAN when it is an IP address, otherwise a
    /// `dNSName` SAN; the first entry is also the certificate Common Name. Agents
    /// validate the address they connect with against these SANs, so every name
    /// **and IP** an agent might use to reach the controller must be listed. Refused
    /// if `sans` is empty.
    fn issue_server_cert(&self, sans: &[String], ttl_secs: u64, now: u64) -> (r: Result<
        IssuedCert,
        CaError,
    >)
        ensures
            r matches Ok(c) ==> self.may_serve(text::texts(sans@), ttl_secs, now, c@),
    ;
}

/// The bytes of the first certificate in the PEM text of an authority, if its first
/// section can be read.
pub open spec fn anchor_der(pem: Seq<char>) -> Option<Seq<u8>> {
    let sections = x509::pem_certificates(pem);
    if sections.len() > 0 && sections[0] is Der {
        Some(sections[0]->Der_0)
    } else {
        None
    }
}

/// From when on a certificate that is issued now is valid: now, or the epoch where
/// no certificate can name that second.
pub open spec fn starts_at(now: u64) -> int {
    if now <= x509::MAX_UNIX_TS {
        now as int
    } else {
        0
    }
}

/// From when on a certificate that is issued now is valid.
pub fn now_offset(now: u64) -> (t: i64)
    ensures
        t == starts_at(now),
        x509::datable(t),
{
    if now <= x509::MAX_UNIX_TS as u64 {
        now as i64
    } else {
        0
    }
}

/// Until when a certificate that is issued now is valid: its validity window later,
/// but no later than the last second that a certificate can name.
pub open spec fn ends_at(now: u64, ttl_secs: u64) -> int {
    if now + ttl_secs <= x509::MAX_UNIX_TS {
        now + ttl_secs
    } else {
        x509::MAX_UNIX_TS as int
    }
}

/// Until when a certificate that is issued now is valid. A window that is too long is
/// cut off, so that no certificate is issued that has already expired.
pub fn offset_after_secs(now: u64, secs_from_now: u64) -> (t: i64)
    ensures
        t == ends_at(now, secs_from_now),
        x509::datable(t),
{
    let secs: u64 = now.saturating_add(secs_from_now);
    if secs <= x509::MAX_UNIX_TS as u64 {
        secs as i64
    } else {
        x509::MAX_UNIX_TS
    }
}

/// A serial made from random bytes. The high bit is cleared so that the DER-encoded
/// INTEGER stays positive without a leading zero byte, which would make the serial
/// in the certificate differ from the one that is persisted; for the same reason the
/// first byte is not zero.
pub open spec fn serial_of(bytes: Seq<u8>) -> Seq<u8> {
    let low = bytes[0] % 128;
    bytes.update(
        0,
        if low == 0 {
            1u8
        } else {
            low as u8
        },
    )
}

/// A serial made from random bytes.
pub fn shape_serial(bytes: Vec<u8>) -> (r: Vec<u8>)
    requires
        bytes@.len() == 16,
    ensures
        r@ == serial_of(bytes@),
        x509::serial_shaped(r@),
{
    let mut buf = bytes;
    let first: u8 = buf[0] & 0x7f;
    proof {
        let b = bytes@[0];
        assert(b & 0x7f == b % 128) by (bit_vector);
    }
    if first == 0 {
        buf.set(0, 1);
    } else {
        buf.set(0, first);
    }
    buf
}

/// Generate a 16-byte random serial.
fn random_serial() -> (r: Vec<u8>)
    ensures
        x509::serial_shaped(r@),
{
    shape_serial(crypto::random_bytes(16))
}

/// What the certificate of a node says: its id, and that it is a client and no
/// authority.
pub open spec fn node_profile(node_id: Seq<char>, ttl_secs: u64, now: u64, serial: Seq<u8>) ->
    ProfileView {
    ProfileView {
        common_name: node_id,
        sans: Seq::empty(),
        authority: false,
        not_before: Some(starts_at(now) as i64),
        not_after: ends_at(now, ttl_secs) as i64,
        key_uses: seq![KeyUse::DigitalSignature],
        purposes: seq![Purpose::ClientAuth],
        serial: Some(serial),
    }
}

/// What the certificate of a server says: its names, the first of which is its common
/// name, and that it is a server and no authority.
pub open spec fn server_profile(
    sans: Seq<Seq<char>>,
    ttl_secs: u64,
    now: u64,
    serial: Seq<u8>,
) -> ProfileView {
    ProfileView {
        common_name: sans[0],
        sans: x509::san_views(sans),
        purposes: seq![Purpose::ServerAuth],
        ..node_profile(sans[0], ttl_secs, now, serial)
    }
}

/// Until when the certificate of the authority itself is valid: the start of 2035.
pub const CA_NOT_AFTER: i64 = 2_051_222_400;

/// What the certificate of the authority says.
pub open spec fn ca_profile(common_name: Seq<char>) -> ProfileView {
    ProfileView {
        common_name,
        sans: Seq::empty(),
        authority: true,
        not_before: None,
        not_after: CA_NOT_AFTER,
        key_uses: seq![KeyUse::KeyCertSign, KeyUse::CrlSign, KeyUse::DigitalSignature],
        purposes: Seq::empty(),
        serial: None,
    }
}

/// What the certificate of a node is to say.
fn build_node_profile(node_id: &str, ttl_secs: u64, now: u64, serial: &Vec<u8>) -> (p: CertProfile)
    ensures
        p@ == node_profile(node_id@, ttl_secs, now, serial@),
        p.not_before is Some && x509::datable(p.not_before->0),
        x509::datable(p.not_after),
{
    let p = CertProfile {
        common_name: node_id.to_string(),
        sans: Vec::new(),
        authority: false,
        not_before: Some(now_offset(now)),
        not_after: offset_after_secs(now, ttl_secs),
        key_uses: vec![KeyUse::DigitalSignature],
        purposes: vec![Purpose::ClientAuth],
        serial: Some(records::copy_bytes(serial.as_slice())),
    };
    assert(p@.sans =~= Seq::<SanView>::empty());
    assert(p@.key_uses =~= seq![KeyUse::DigitalSignature]);
    assert(p@.purposes =~= seq![Purpose::ClientAuth]);
    p
}

/// What the certificate of the authority is to say.
fn build_ca_profile(common_name: &str) -> (p: CertProfile)
    ensures
        p@ == ca_profile(common_name@),
        p.not_before is None,
        p.not_after == CA_NOT_AFTER,
{
    let p = CertProfile {
        common_name: common_name.to_string(),
        sans: Vec::new(),
        authority: true,
        not_before: None,
        not_after: CA_NOT_AFTER,
        key_uses: vec![KeyUse::KeyCertSign, KeyUse::CrlSign, KeyUse::DigitalSignature],
        purposes: Vec::new(),
        serial: None,
    };
    assert(p@.sans =~= Seq::<SanView>::empty());
    assert(p@.key_uses =~= seq![
        KeyUse::KeyCertSign,
        KeyUse::CrlSign,
        KeyUse::DigitalSignature,
    ]);
    assert(p@.purposes =~= Seq::<Purpose>::empty());
    p
}

/// Whether a name can stand in a certificate as a DNS name: it is ASCII.
fn is_ascii_name(s: &str) -> (r: bool)
    ensures
        r == text::ascii(s@),
{
    let v = text::chars_of(s);
    let mut i: usize = 0;
    while i < v.len()
        invariant
            i <= v@.len(),
            v@ == s@,
            forall|j: int| 0 <= j < i ==> (#[trigger] v@[j] as u32) < 128,
        decreases v@.len() - i,
    {
        if v[i] as u32 >= 128 {
            return false;
        }
        i = i + 1;
    }
    true
}

/// Whether the name is the first of the names that is not ASCII.
pub open spec fn first_odd(names: Seq<Seq<char>>, name: Seq<char>) -> bool {
    exists|i: int|
        {
            &&& 0 <= i < names.len()
            &&& #[trigger] names[i] == name
            &&& !text::ascii(name)
            &&& forall|j: int| 0 <= j < i ==> text::ascii(#[trigger] names[j])
        }
}

/// The first of the names that is not ASCII.
fn find_odd_name(sans: &[String]) -> (r: Option<String>)
    ensures
        match r {
            Some(s) => first_odd(text::texts(sans@), s@),
            None => x509::all_ascii(text::texts(sans@)),
        },
{
    let mut i: usize = 0;
    while i < sans.len()
        invariant
            i <= sans@.len(),
            forall|j: int| 0 <= j < i ==> text::ascii(#[trigger] text::texts(sans@)[j]),
        decreases sans@.len() - i,
    {
        assert(text::texts(sans@)[i as int] == sans@[i as int]@);
        if !is_ascii_name(sans[i].as_str()) {
            return Some(sans[i].clone());
        }
        i = i + 1;
    }
    None
}

/// [`CertificateAuthority`] backed by a key of its own.
///
/// The authority is an ECDSA P-384 key. Where it is read from texts that were kept,
/// the signing context is reconstructed from the key; the certificate that was kept
/// is what is handed to agents as the trust anchor.
pub struct FileCertificateAuthority {
    /// The CA certificate used as the issuer when signing node certs. Reconstructed
    /// from the key on each startup; same key → same signatures.
    ca_cert: rcgen::Certificate,
    /// CA key pair used for signing.
    ca_key: rcgen::KeyPair,
    /// Original CA cert PEM — this is what agents trust.
    ca_cert_pem: String,
}

impl FileCertificateAuthority {
    /// The PEM text of the certificate that agents trust.
    pub closed spec fn trusted_pem(self) -> Seq<char> {
        self.ca_cert_pem@
    }

    /// The common name under which the authority signs.
    pub closed spec fn name(self) -> Seq<char> {
        x509::certificate_holds(self.ca_cert).profile.common_name
    }

    /// The public key of the authority.
    pub closed spec fn key(self) -> Seq<u8> {
        x509::public_key(self.ca_key)
    }

    /// The certificate that the authority makes for a key.
    pub open spec fn signs(self, profile: ProfileView, public_key: Seq<u8>) -> CertificateView {
        CertificateView { profile, public_key, issuer: self.name(), signer: self.key() }
    }

    /// The authority whose key and certificate were kept as PEM texts. The key must be
    /// readable; the certificate is handed out as it is. Reading the key and signing take
    /// random numbers from the system, so that success rests on the machine, too.
    pub fn from_pem(ca_key_pem: &str, ca_cert_pem: &str, common_name: &str) -> (r: Result<
        Self,
        CaError,
    >)
        ensures
            match r {
                Ok(ca) => {
                    &&& x509::key_in(ca_key_pem@) == Some(ca.key())
                    &&& ca.trusted_pem() == ca_cert_pem@
                    &&& ca.name() == common_name@
                },
                Err(CaError::CaKey(_)) => true,
                Err(CaError::CaCertificate(_)) => x509::key_in(ca_key_pem@) is Some,
                Err(_) => false,
            },
    {
        Self::with_kept_key(x509::read_key(ca_key_pem), ca_cert_pem, common_name)
    }

    /// The authority whose key was kept, once it was read.
    pub fn with_kept_key(
        read: Result<rcgen::KeyPair, String>,
        ca_cert_pem: &str,
        common_name: &str,
    ) -> (r: Result<Self, CaError>)
        ensures
            match read {
                Ok(k) => match r {
                    Ok(ca) => {
                        &&& ca.key() == x509::public_key(k)
                        &&& ca.trusted_pem() == ca_cert_pem@
                        &&& ca.name() == common_name@
                    },
                    Err(e) => e is CaCertificate,
                },
                Err(e) => r == Err::<Self, CaError>(CaError::CaKey(e)),
            },
    {
        match read {
            Ok(ca_key) => {
                let signed = sign_own(common_name, &ca_key);
                Self::with_anchor(ca_key, signed, ca_cert_pem)
            },
            Err(e) => Err(CaError::CaKey(e)),
        }
    }

    /// The authority with the key, once its certificate is signed, that hands out the
    /// certificate in the text.
    pub fn with_anchor(
        ca_key: rcgen::KeyPair,
        signed: Result<rcgen::Certificate, String>,
        ca_cert_pem: &str,
    ) -> (r: Result<Self, CaError>)
        ensures
            match signed {
                Ok(c) => {
                    &&& r matches Ok(ca)
                    &&& ca.key() == x509::public_key(ca_key)
                    &&& ca.name() == x509::certificate_holds(c).profile.common_name
                    &&& ca.trusted_pem() == ca_cert_pem@
                },
                Err(e) => r == Err::<Self, CaError>(CaError::CaCertificate(e)),
            },
    {
        match signed {
            Ok(ca_cert) => Ok(
                FileCertificateAuthority { ca_cert, ca_key, ca_cert_pem: ca_cert_pem.to_string() },
            ),
            Err(e) => Err(CaError::CaCertificate(e)),
        }
    }

    /// A new authority with a fresh key. The second value is the PEM text of its key,
    /// to be kept.
    pub fn generate(common_name: &str) -> (r: Result<(Self, String), CaError>)
        ensures
            match r {
                Ok((ca, key_pem)) => {
                    &&& x509::key_in(key_pem@) == Some(ca.key())
                    &&& x509::pem_certifies(
                        ca.trusted_pem(),
                        ca.signs(ca_profile(common_name@), ca.key()),
                    )
                    &&& ca.name() == common_name@
                    &&& anchor_der(ca.trusted_pem()) is Some
                },
                Err(CaError::CaKeyGeneration(_)) => true,
                Err(CaError::CaCertificate(_)) => true,
                Err(_) => false,
            },
    {
        let ca_key = match x509::generate_key(Curve::P384) {
            Ok(k) => k,
            Err(e) => {
                return Err(CaError::CaKeyGeneration(e));
            },
        };
        let key_pem = x509::write_key(&ca_key);
        let signed = sign_own(common_name, &ca_key);
        match Self::with_own_anchor(ca_key, signed) {
            Ok(ca) => Ok((ca, key_pem)),
            Err(e) => Err(e),
        }
    }

    /// The authority with the key, once its certificate is signed, that hands out this
    /// certificate.
    pub fn with_own_anchor(ca_key: rcgen::KeyPair, signed: Result<rcgen::Certificate, String>) -> (r:
        Result<Self, CaError>)
        ensures
            match signed {
                Ok(c) => {
                    &&& r matches Ok(ca)
                    &&& ca.key() == x509::public_key(ca_key)
                    &&& ca.name() == x509::certificate_holds(c).profile.common_name
                    &&& x509::pem_certifies(ca.trusted_pem(), x509::certificate_holds(c))
                    &&& anchor_der(ca.trusted_pem()) is Some
                },
                Err(e) => r == Err::<Self, CaError>(CaError::CaCertificate(e)),
            },
    {
        match signed {
            Ok(ca_cert) => {
                let ca_cert_pem = x509::write_certificate(&ca_cert);
                Ok(FileCertificateAuthority { ca_cert, ca_key, ca_cert_pem })
            },
            Err(e) => Err(CaError::CaCertificate(e)),
        }
    }

    /// Makes a certificate for a fresh key, unless signing fails. None is made where an
    /// alternative name is not ASCII.
    fn issue(&self, p: &CertProfile, key: &rcgen::KeyPair) -> (r: Result<String, String>)
        requires
            p.not_before is Some && x509::datable(p.not_before->0),
            x509::datable(p.not_after),
        ensures
            r matches Ok(pem) ==> {
                &&& x509::all_ascii(text::texts(p.sans@))
                &&& x509::pem_certifies(pem@, self.signs(p@, x509::public_key(*key)))
                &&& written(pem@, p@)
            },
    {
        let params = match x509::params_of(p) {
            Ok(c) => c,
            Err(e) => {
                return Err(e);
            },
        };
        certificate_text(x509::sign(params, key, &self.ca_cert, &self.ca_key))
    }
}

/// The PEM text of a certificate, once it is signed.
pub fn certificate_text(signed: Result<rcgen::Certificate, String>) -> (r: Result<String, String>)
    ensures
        match signed {
            Ok(c) => {
                &&& r matches Ok(pem)
                &&& x509::pem_certifies(pem@, x509::certificate_holds(c))
                &&& written(pem@, x509::certificate_holds(c).profile)
            },
            Err(e) => r == Err::<String, String>(e),
        },
{
    match signed {
        Ok(c) => Ok(x509::write_certificate(&c)),
        Err(e) => Err(e),
    }
}

/// Whether a reader of the certificate finds the serial, the validity and the common
/// name that its profile names.
pub open spec fn written(pem: Seq<char>, p: ProfileView) -> bool {
    &&& anchor_der(pem) is Some
    &&& x509::reads_back(p) ==> x509::x509_reading(anchor_der(pem)->0) == (x509::X509View::Read {
        serial: p.serial->0,
        not_before: p.not_before->0,
        not_after: p.not_after,
        common_name: Some(p.common_name),
    })
}

/// The certificate of the authority itself.
fn sign_own(common_name: &str, key: &rcgen::KeyPair) -> (r: Result<rcgen::Certificate, String>)
    ensures
        r matches Ok(c) ==> x509::certificate_holds(c) == (CertificateView {
            profile: ca_profile(common_name@),
            public_key: x509::public_key(*key),
            issuer: common_name@,
            signer: x509::public_key(*key),
        }),
{
    let p = build_ca_profile(common_name);
    match x509::params_of(&p) {
        Ok(params) => x509::self_sign(params, key),
        Err(e) => Err(e),
    }
}

/// Whether an issued certificate holds the profile and a key on the P-256 curve whose
/// private half was issued with it.
pub open spec fn keyed_certificate(
    ca: FileCertificateAuthority,
    p: ProfileView,
    c: IssuedView,
) -> bool {
    exists|k: rcgen::KeyPair|
        {
            &&& x509::key_curve(k) == Curve::P256
            &&& x509::key_in(c.key_pem) == Some(#[trigger] x509::public_key(k))
            &&& x509::pem_certifies(c.cert_pem, ca.signs(p, x509::public_key(k)))
        }
}

impl CertificateAuthority for FileCertificateAuthority {
    open spec fn anchor(&self) -> Seq<char> {
        self.trusted_pem()
    }

    open spec fn may_issue(&self, node_id: Seq<char>, ttl_secs: u64, now: u64, c: IssuedView) ->
        bool {
        &&& x509::serial_shaped(c.serial)
        &&& keyed_certificate(*self, node_profile(node_id, ttl_secs, now, c.serial), c)
        &&& written(c.cert_pem, node_profile(node_id, ttl_secs, now, c.serial))
    }

    open spec fn may_sign(
        &self,
        node_id: Seq<char>,
        csr: Seq<char>,
        ttl_secs: u64,
        now: u64,
        c: IssuedView,
    ) -> bool {
        &&& x509::serial_shaped(c.serial)
        &&& c.key_pem.len() == 0
        &&& x509::request_in(csr) matches Some(key) && x509::pem_certifies(
            c.cert_pem,
            self.signs(node_profile(node_id, ttl_secs, now, c.serial), key),
        )
        &&& written(c.cert_pem, node_profile(node_id, ttl_secs, now, c.serial))
    }

    open spec fn may_serve(
        &self,
        sans: Seq<Seq<char>>,
        ttl_secs: u64,
        now: u64,
        c: IssuedView,
    ) -> bool {
        &&& sans.len() > 0
        &&& x509::all_ascii(sans)
        &&& x509::serial_shaped(c.serial)
        &&& keyed_certificate(*self, server_profile(sans, ttl_secs, now, c.serial), c)
        &&& written(c.cert_pem, server_profile(sans, ttl_secs, now, c.serial))
    }

    fn ca_cert_pem(&self) -> (s: String) {
        self.ca_cert_pem.clone()
    }

    fn ca_fingerprint_sha256(&self) -> (r: Result<[u8; 32], CaError>)
        ensures
            match r {
                Ok(fp) => anchor_der(self.trusted_pem()) is Some,
                Err(CaError::CaPemEmpty) => x509::pem_certificates(self.trusted_pem()).len() == 0,
                Err(CaError::CaPem(e)) => x509::pem_certificates(self.trusted_pem()).len() > 0
                    && x509::pem_certificates(self.trusted_pem())[0] == PemView::Refused(e@),
                Err(_) => false,
            },
    {
        // Hash the DER (not the PEM text) so the fingerprint is stable
        // regardless of PEM whitespace or line-endings.
        let sections = x509::read_certificates(self.ca_cert_pem.as_str());
        if sections.len() == 0 {
            return Err(CaError::CaPemEmpty);
        }
        assert(x509::section_views(sections@)[0] == sections@[0]@);
        match &sections[0] {
            PemSection::Der(der) => Ok(
                crypto::array_of(crypto::digest(der.as_slice()).as_slice()),
            ),
            PemSection::Refused(e) => Err(CaError::CaPem(e.clone())),
        }
    }

    fn issue_node_cert(&self, node_id: &str, ttl_secs: u64, now: u64) -> (r: Result<
        IssuedCert,
        CaError,
    >)
        ensures
            r matches Err(e) ==> e is NodeKey || e is NodeSigning,
    {
        // A fresh key pair for the node's mTLS credential.
        let node_key = match x509::generate_key(Curve::P256) {
            Ok(k) => k,
            Err(e) => {
                return Err(CaError::NodeKey(e));
            },
        };
        let serial = random_serial();
        let p = build_node_profile(node_id, ttl_secs, now, &serial);
        match self.issue(&p, &node_key) {
            Ok(cert_pem) => {
                let key_pem = x509::write_key(&node_key);
                Ok(IssuedCert { cert_pem, key_pem, serial })
            },
            Err(e) => Err(CaError::NodeSigning(e)),
        }
    }

    fn issue_node_cert_from_csr(&self, node_id: &str, csr_pem: &str, ttl_secs: u64, now: u64) -> (r:
        Result<IssuedCert, CaError>)
        ensures
            match r {
                Ok(_) => true,
                Err(CaError::Request(_)) => x509::request_in(csr_pem@) is None,
                Err(CaError::RequestSigning(_)) => x509::request_in(csr_pem@) is Some,
                Err(_) => false,
            },
    {
        // A malformed CSR or one whose signature doesn't match the public key is
        // refused here.
        let request = match x509::read_request(csr_pem) {
            Ok(c) => c,
            Err(e) => {
                return Err(CaError::Request(e));
            },
        };
        // A fresh certificate profile from scratch. The CSR's own extensions are
        // discarded — they're agent-controlled and could otherwise be used to widen
        // the issued cert's privileges. Only the CSR's public key is carried forward.
        let serial = random_serial();
        let p = build_node_profile(node_id, ttl_secs, now, &serial);
        let params = match x509::params_of(&p) {
            Ok(c) => c,
            Err(e) => {
                return Err(CaError::RequestSigning(e));
            },
        };
        match x509::sign_request(params, request, &self.ca_cert, &self.ca_key) {
            Ok(c) => {
                let cert_pem = x509::write_certificate(&c);
                Ok(IssuedCert { cert_pem, key_pem: String::new(), serial })
            },
            Err(e) => Err(CaError::RequestSigning(e)),
        }
    }

    fn issue_server_cert(&self, sans: &[String], ttl_secs: u64, now: u64) -> (r: Result<
        IssuedCert,
        CaError,
    >)
        ensures
            sans@.len() == 0 <==> (r matches Err(CaError::NoSan)),
            match r {
                Err(CaError::BadSan(s)) => first_odd(text::texts(sans@), s@),
                Err(CaError::ServerSigning(_)) => x509::all_ascii(text::texts(sans@)),
                Err(e) => e is NoSan || e is ServerKey,
                Ok(_) => true,
            },
    {
        if sans.len() == 0 {
            return Err(CaError::NoSan);
        }
        let server_key = match x509::generate_key(Curve::P256) {
            Ok(k) => k,
            Err(e) => {
                return Err(CaError::ServerKey(e));
            },
        };
        let serial = random_serial();
        if let Some(odd) = find_odd_name(sans) {
            return Err(CaError::BadSan(odd));
        }
        let mut p = build_node_profile(sans[0].as_str(), ttl_secs, now, &serial);
        p.sans = copy_names(sans);
        p.purposes = vec![Purpose::ServerAuth];
        proof {
            assert(p@.purposes =~= seq![Purpose::ServerAuth]);
            assert(text::texts(sans@)[0] == sans@[0]@);
            assert(p@ == server_profile(text::texts(sans@), ttl_secs, now, serial@));
        }
        match self.issue(&p, &server_key) {
            Ok(cert_pem) => {
                let key_pem = x509::write_key(&server_key);
                Ok(IssuedCert { cert_pem, key_pem, serial })
            },
            Err(e) => Err(CaError::ServerSigning(e)),
        }
    }
}

/// A copy of some names.
fn copy_names(names: &[String]) -> (v: Vec<String>)
    ensures
        text::texts(v@) == text::texts(names@),
{
    let mut v: Vec<String> = Vec::new();
    let mut i: usize = 0;
    while i < names.len()
        invariant
            i <= names@.len(),
            v@.len() == i,
            forall|j: int| 0 <= j < i ==> (#[trigger] v@[j])@ == names@[j]@,
        decreases names@.len() - i,
    {
        v.push(names[i].clone());
        i = i + 1;
    }
    assert(text::texts(v@) =~= text::texts(names@));
    v
}

} // verus!
