//! What a certificate certifies, and the certificates that `rcgen` makes, and
//! `rustls_pemfile` and `x509_parser` read.

use crate::store::records;
use crate::text;
use rcgen::{
    BasicConstraints, CertificateParams, DnType, ExtendedKeyUsagePurpose, IsCa, KeyUsagePurpose,
    SerialNumber,
};
use time::OffsetDateTime;
use vstd::prelude::*;
use x509_parser::certificate::X509Certificate;
use x509_parser::certification_request::X509CertificationRequest;
use x509_parser::error::X509Error;
use x509_parser::prelude::FromDer;

verus! {

broadcast use vstd::string::group_string_axioms;

/// What the key of a certificate may be used for.
#[derive(Clone, Copy, Debug, PartialEq, Eq, Structural)]
pub enum KeyUse {
    DigitalSignature,
    KeyCertSign,
    CrlSign,
}

/// Which side of a TLS connection a certificate identifies.
#[derive(Clone, Copy, Debug, PartialEq, Eq, Structural)]
pub enum Purpose {
    ClientAuth,
    ServerAuth,
}

/// Which curve a key lies on.
#[derive(Clone, Copy, Debug, PartialEq, Eq, Structural)]
pub enum Curve {
    P256,
    P384,
}

/// What a certificate says of its subject.
pub struct CertProfile {
    pub common_name: String,
    /// Alternative names: an IP address where the text is one, else a DNS name.
    pub sans: Vec<String>,
    /// Whether the subject may issue certificates itself.
    pub authority: bool,
    /// Unix seconds; the default of `rcgen` where there is none.
    pub not_before: Option<i64>,
    /// Unix seconds.
    pub not_after: i64,
    pub key_uses: Vec<KeyUse>,
    pub purposes: Vec<Purpose>,
    /// The serial, big-endian; derived from the key where there is none.
    pub serial: Option<Vec<u8>>,
}

/// An alternative name in a certificate, by the text that it was made from.
pub enum SanView {
    /// An IP address.
    Ip(Seq<char>),
    /// A DNS name.
    Dns(Seq<char>),
}

/// Whether `CertificateParams::new` of `rcgen` takes a text for an IP address.
pub uninterp spec fn ip_name(t: Seq<char>) -> bool;

/// The alternative name that a text makes: an IP address where it is one, else a DNS name.
pub open spec fn san_view(t: Seq<char>) -> SanView {
    if ip_name(t) {
        SanView::Ip(t)
    } else {
        SanView::Dns(t)
    }
}

/// The alternative names that texts make.
pub open spec fn san_views(ts: Seq<Seq<char>>) -> Seq<SanView> {
    ts.map_values(|t: Seq<char>| san_view(t))
}

/// What a certificate says of its subject.
pub struct ProfileView {
    pub common_name: Seq<char>,
    pub sans: Seq<SanView>,
    pub authority: bool,
    pub not_before: Option<i64>,
    pub not_after: i64,
    pub key_uses: Seq<KeyUse>,
    pub purposes: Seq<Purpose>,
    pub serial: Option<Seq<u8>>,
}

impl View for CertProfile {
    type V = ProfileView;

    open spec fn view(&self) -> ProfileView {
        ProfileView {
            common_name: self.common_name@,
            sans: san_views(text::texts(self.sans@)),
            authority: self.authority,
            not_before: self.not_before,
            not_after: self.not_after,
            key_uses: self.key_uses@,
            purposes: self.purposes@,
            serial: records::opt_bytes(self.serial),
        }
    }
}

/// What a certificate says, whose key it certifies, and who signed it.
pub struct CertificateView {
    pub profile: ProfileView,
    /// The public key of the subject.
    pub public_key: Seq<u8>,
    /// The common name of the issuer.
    pub issuer: Seq<char>,
    /// The public key that verifies the signature.
    pub signer: Seq<u8>,
}

/// The last second of the year 9999, behind which no certificate lasts.
pub const MAX_UNIX_TS: i64 = 253_402_300_799;

/// Whether a certificate can name the second, counted from 1970.
pub open spec fn datable(t: i64) -> bool {
    0 <= t <= MAX_UNIX_TS
}

/// Whether the serial is written as it stands: 16 bytes, the first of which is
/// neither zero nor has its high bit set.
pub open spec fn serial_shaped(s: Seq<u8>) -> bool {
    s.len() == 16 && 1 <= s[0] < 128
}

/// Whether all names are plain ASCII.
pub open spec fn all_ascii(names: Seq<Seq<char>>) -> bool {
    forall|i: int| 0 <= i < names.len() ==> text::ascii(#[trigger] names[i])
}

/// The type of key pairs in `rcgen`.
#[verifier::external_type_specification]
#[verifier::external_body]
pub struct ExKeyPair(rcgen::KeyPair);

/// The type of certificates in `rcgen`.
#[verifier::external_type_specification]
#[verifier::external_body]
pub struct ExCertificate(rcgen::Certificate);

/// The type of certificates to be signed in `rcgen`.
#[verifier::external_type_specification]
#[verifier::external_body]
pub struct ExParams(rcgen::CertificateParams);

/// The type of signing requests in `rcgen`.
#[verifier::external_type_specification]
#[verifier::external_body]
pub struct ExCsr(rcgen::CertificateSigningRequestParams);

/// What a certificate to be signed will say.
pub uninterp spec fn params_hold(p: rcgen::CertificateParams) -> ProfileView;

/// The public key of a key pair.
pub uninterp spec fn public_key(k: rcgen::KeyPair) -> Seq<u8>;

/// The curve of a key pair.
pub uninterp spec fn key_curve(k: rcgen::KeyPair) -> Curve;

/// Whether the private half of a key pair is at hand, rather than with a remote signer.
pub uninterp spec fn private_at_hand(k: rcgen::KeyPair) -> bool;

/// What a certificate holds.
pub uninterp spec fn certificate_holds(c: rcgen::Certificate) -> CertificateView;

/// The public key in a signing request.
pub uninterp spec fn requested_key(c: rcgen::CertificateSigningRequestParams) -> Seq<u8>;

/// Whether a PEM text is that of a certificate made to hold this. One text may be that of
/// several: the uses of a key have no order in it, an address has one notation, and a
/// serial or a start that was left open stands in it like one that was given.
pub uninterp spec fn pem_certifies(pem: Seq<char>, held: CertificateView) -> bool;

/// The public key of the private key in a PEM text, if it holds one.
pub uninterp spec fn key_in(pem: Seq<char>) -> Option<Seq<u8>>;

/// The public key in the signing request in a PEM text, if `rcgen` can read one and
/// its signature is that of the key.
pub uninterp spec fn request_in(pem: Seq<char>) -> Option<Seq<u8>>;

/// One certificate section of a PEM text: its bytes, or the text of the error with
/// which it was refused.
pub enum PemView {
    Der(Seq<u8>),
    Refused(Seq<char>),
}

/// The certificate sections that `rustls_pemfile` finds in a PEM text, one after
/// the other.
pub uninterp spec fn pem_certificates(pem: Seq<char>) -> Seq<PemView>;

/// What reading a certificate gives: its serial as it is written, the seconds from and
/// to which it is valid, and its first common name, if that is text; or the text of an
/// error.
pub enum X509View {
    Read { serial: Seq<u8>, not_before: i64, not_after: i64, common_name: Option<Seq<char>> },
    Refused(Seq<char>),
}

/// What `x509_parser` reads from the bytes of a certificate.
pub uninterp spec fn x509_reading(der: Seq<u8>) -> X509View;

/// `KeyPair::generate_for` of `rcgen`: a fresh key pair on the curve, or the text of
/// an error. Which key it is rests on chance.
#[verifier::external_body]
pub(crate) fn generate_key(curve: Curve) -> (r: Result<rcgen::KeyPair, String>)
    ensures
        r matches Ok(k) ==> key_curve(k) == curve && private_at_hand(k),
{
    rcgen::KeyPair::generate_for(
        match curve {
            Curve::P256 => &rcgen::PKCS_ECDSA_P256_SHA256,
            Curve::P384 => &rcgen::PKCS_ECDSA_P384_SHA384,
        },
    ).map_err(|e| e.to_string())
}

/// `KeyPair::from_pem` of `rcgen`: the key pair whose private key the text holds, or the
/// text of an error. Taking a key in draws random bytes from the system, so that whether
/// it comes about rests on the machine.
#[verifier::external_body]
pub(crate) fn read_key(pem: &str) -> (r: Result<rcgen::KeyPair, String>)
    ensures
        r matches Ok(k) ==> key_in(pem@) == Some(public_key(k)),
{
    rcgen::KeyPair::from_pem(pem).map_err(|e| e.to_string())
}

/// `KeyPair::serialize_pem` of `rcgen`: a text from which the key pair is read back. A
/// remote key pair has no such text.
#[verifier::external_body]
pub(crate) fn write_key(key: &rcgen::KeyPair) -> (s: String)
    requires
        private_at_hand(*key),
    ensures
        key_in(s@) == Some(public_key(*key)),
{
    key.serialize_pem()
}

/// `CertificateParams::new` of `rcgen` and its fields: a certificate to be signed that
/// will say what the profile says, but for the uses of its key. It comes about where
/// every alternative name is ASCII, as an IP address is and a DNS name has to be. A name
/// that is the text of an IP address becomes one, and any other a DNS name.
#[verifier::external_body]
fn build_params(p: &CertProfile) -> (r: Result<CertificateParams, String>)
    requires
        p.not_before is Some ==> datable(p.not_before->0),
        datable(p.not_after),
    ensures
        match r {
            Ok(c) => all_ascii(text::texts(p.sans@)) && params_hold(c) == (ProfileView {
                key_uses: Seq::empty(),
                purposes: Seq::empty(),
                ..p@
            }),
            Err(_) => !all_ascii(text::texts(p.sans@)),
        },
        r matches Ok(c) ==> forall|i: int|
            0 <= i < p.sans@.len() ==> #[trigger] params_hold(c).sans[i] == (if ip_name(
                p.sans@[i]@,
            ) {
                SanView::Ip(p.sans@[i]@)
            } else {
                SanView::Dns(p.sans@[i]@)
            }),
{
    let mut c = CertificateParams::new(p.sans.clone()).map_err(|e| e.to_string())?;
    c.distinguished_name.push(DnType::CommonName, p.common_name.as_str());
    c.is_ca = match p.authority {
        true => IsCa::Ca(BasicConstraints::Unconstrained),
        false => IsCa::ExplicitNoCa,
    };
    if let Some(t) = p.not_before {
        c.not_before = OffsetDateTime::from_unix_timestamp(t).map_err(|e| e.to_string())?;
    }
    c.not_after = OffsetDateTime::from_unix_timestamp(p.not_after).map_err(|e| e.to_string())?;
    c.serial_number = p.serial.as_ref().map(|s| SerialNumber::from_slice(s));
    Ok(c)
}

/// The `key_usages` and `extended_key_usages` of `CertificateParams` of `rcgen`, one
/// of its words for each of ours.
#[verifier::external_body]
fn with_uses(params: CertificateParams, uses: &[KeyUse], purposes: &[Purpose]) -> (r:
    CertificateParams)
    ensures
        params_hold(r) == (ProfileView {
            key_uses: uses@,
            purposes: purposes@,
            ..params_hold(params)
        }),
{
    let mut c = params;
    c.key_usages = uses.iter().map(|u| match u {
        KeyUse::DigitalSignature => KeyUsagePurpose::DigitalSignature,
        KeyUse::KeyCertSign => KeyUsagePurpose::KeyCertSign,
        KeyUse::CrlSign => KeyUsagePurpose::CrlSign,
    }).collect();
    c.extended_key_usages = purposes.iter().map(|u| match u {
        Purpose::ClientAuth => ExtendedKeyUsagePurpose::ClientAuth,
        Purpose::ServerAuth => ExtendedKeyUsagePurpose::ServerAuth,
    }).collect();
    c
}

/// A certificate to be signed that will say what the profile says; none where one of
/// its alternative names is not ASCII.
pub(crate) fn params_of(p: &CertProfile) -> (r: Result<CertificateParams, String>)
    requires
        p.not_before is Some ==> datable(p.not_before->0),
        datable(p.not_after),
    ensures
        match r {
            Ok(c) => all_ascii(text::texts(p.sans@)) && params_hold(c) == p@,
            Err(_) => !all_ascii(text::texts(p.sans@)),
        },
{
    match build_params(p) {
        Ok(c) => Ok(with_uses(c, p.key_uses.as_slice(), p.purposes.as_slice())),
        Err(e) => Err(e),
    }
}

/// `CertificateParams::signed_by` of `rcgen`: the certificate that certifies the key
/// and is signed by the issuer, or the text of an error. A signature takes a random
/// number from the system, so that whether one comes about rests on the machine.
#[verifier::external_body]
pub(crate) fn sign(
    params: CertificateParams,
    key: &rcgen::KeyPair,
    issuer: &rcgen::Certificate,
    issuer_key: &rcgen::KeyPair,
) -> (r: Result<rcgen::Certificate, String>)
    ensures
        r matches Ok(c) ==> certificate_holds(c) == (CertificateView {
            profile: params_hold(params),
            public_key: public_key(*key),
            issuer: certificate_holds(*issuer).profile.common_name,
            signer: public_key(*issuer_key),
        }),
{
    params.signed_by(key, issuer, issuer_key).map_err(|e| e.to_string())
}

/// `CertificateParams::self_signed` of `rcgen`: the certificate that certifies the
/// key and is signed by it, or the text of an error. A signature takes a random
/// number from the system, so that whether one comes about rests on the machine.
#[verifier::external_body]
pub(crate) fn self_sign(params: CertificateParams, key: &rcgen::KeyPair) -> (r: Result<
    rcgen::Certificate,
    String,
>)
    ensures
        r matches Ok(c) ==> certificate_holds(c) == (CertificateView {
            profile: params_hold(params),
            public_key: public_key(*key),
            issuer: params_hold(params).common_name,
            signer: public_key(*key),
        }),
{
    params.self_signed(key).map_err(|e| e.to_string())
}

/// `CertificateSigningRequestParams::from_pem` of `rcgen`: a signing request whose
/// signature is that of the key in it, or the text of an error.
#[verifier::external_body]
pub(crate) fn read_request(pem: &str) -> (r: Result<
    rcgen::CertificateSigningRequestParams,
    String,
>)
    ensures
        match r {
            Ok(c) => request_in(pem@) == Some(requested_key(c)),
            Err(_) => request_in(pem@) is None,
        },
{
    rcgen::CertificateSigningRequestParams::from_pem(pem).map_err(|e| e.to_string())
}

/// `CertificateSigningRequestParams::signed_by` of `rcgen`: the certificate that
/// certifies the key of the request, says what the parameters say and not what the
/// request says, and is signed by the issuer; or the text of an error.
#[verifier::external_body]
pub(crate) fn sign_request(
    params: CertificateParams,
    request: rcgen::CertificateSigningRequestParams,
    issuer: &rcgen::Certificate,
    issuer_key: &rcgen::KeyPair,
) -> (r: Result<rcgen::Certificate, String>)
    ensures
        r matches Ok(c) ==> certificate_holds(c) == (CertificateView {
            profile: params_hold(params),
            public_key: requested_key(request),
            issuer: certificate_holds(*issuer).profile.common_name,
            signer: public_key(*issuer_key),
        }),
{
    let mut request = request;
    request.params = params;
    request.signed_by(issuer, issuer_key).map_err(|e| e.to_string())
}

/// The bytes of the first certificate in a PEM text.
pub open spec fn first_der(pem: Seq<char>) -> Seq<u8> {
    pem_certificates(pem)[0]->Der_0
}

/// Whether what a certificate says is read back from it as it was put in.
pub open spec fn reads_back(p: ProfileView) -> bool {
    &&& p.serial matches Some(s) && serial_shaped(s)
    &&& p.not_before matches Some(t) && datable(t)
    &&& datable(p.not_after)
}

/// `Certificate::pem` of `rcgen`: a text that holds the certificate in its only
/// section. A serial of the right shape, the seconds of the validity and the common
/// name are written as they are, so that a reader finds them there.
#[verifier::external_body]
pub(crate) fn write_certificate(c: &rcgen::Certificate) -> (s: String)
    ensures
        pem_certifies(s@, certificate_holds(*c)),
        pem_certificates(s@).len() == 1 && pem_certificates(s@)[0] is Der,
        reads_back(certificate_holds(*c).profile) ==> x509_reading(first_der(s@)) == (
        X509View::Read {
            serial: certificate_holds(*c).profile.serial->0,
            not_before: certificate_holds(*c).profile.not_before->0,
            not_after: certificate_holds(*c).profile.not_after,
            common_name: Some(certificate_holds(*c).profile.common_name),
        }),
{
    c.pem()
}

/// One certificate section of a PEM text.
pub enum PemSection {
    Der(Vec<u8>),
    Refused(String),
}

impl View for PemSection {
    type V = PemView;

    open spec fn view(&self) -> PemView {
        match self {
            PemSection::Der(d) => PemView::Der(d@),
            PemSection::Refused(e) => PemView::Refused(e@),
        }
    }
}

/// The views of certificate sections.
pub open spec fn section_views(v: Seq<PemSection>) -> Seq<PemView> {
    v.map_values(|s: PemSection| s@)
}

/// `certs` of `rustls_pemfile`: the certificate sections of a PEM text.
#[verifier::external_body]
pub(crate) fn read_certificates(pem: &str) -> (v: Vec<PemSection>)
    ensures
        section_views(v@) == pem_certificates(pem@),
{
    rustls_pemfile::certs(&mut pem.as_bytes()).map(|r| match r {
        Ok(der) => PemSection::Der(der.to_vec()),
        Err(e) => PemSection::Refused(e.to_string()),
    }).collect()
}

/// What is read from a certificate.
pub struct CertFacts {
    pub serial: Vec<u8>,
    pub not_before: i64,
    pub not_after: i64,
    pub common_name: Option<String>,
}

/// `X509Certificate::from_der` of `x509_parser`: the raw serial, the validity and the
/// first common name of a certificate, or the text of an error.
#[verifier::external_body]
pub(crate) fn read_x509(der: &[u8]) -> (r: Result<CertFacts, String>)
    ensures
        match r {
            Ok(f) => x509_reading(der@) == (X509View::Read {
                serial: f.serial@,
                not_before: f.not_before,
                not_after: f.not_after,
                common_name: text::opt_text(f.common_name),
            }),
            Err(e) => x509_reading(der@) == X509View::Refused(e@),
        },
{
    match <X509Certificate as FromDer<X509Error>>::from_der(der) {
        Ok((_, c)) => Ok(CertFacts {
            serial: c.tbs_certificate.raw_serial().to_vec(),
            not_before: c.validity().not_before.timestamp(),
            not_after: c.validity().not_after.timestamp(),
            common_name: c.subject().iter_common_name().next().and_then(
                |n| n.as_str().ok().map(|s| s.to_string()),
            ),
        }),
        Err(e) => Err(e.to_string()),
    }
}

/// What reading the PEM text of a signing request gives: the bytes of its first
/// section, if it has one, or the text of an error.
pub enum CsrPemView {
    Der(Seq<u8>),
    Missing,
    Refused(Seq<char>),
}

/// What `rustls_pemfile` finds in the PEM text of a signing request.
pub uninterp spec fn csr_section(pem: Seq<char>) -> CsrPemView;

/// `csr` of `rustls_pemfile`: the bytes of the first signing request in a PEM text, if
/// there is one, or the text of an error.
#[verifier::external_body]
pub(crate) fn read_csr_section(pem: &str) -> (r: Result<Option<Vec<u8>>, String>)
    ensures
        match r {
            Ok(Some(der)) => csr_section(pem@) == CsrPemView::Der(der@),
            Ok(None) => csr_section(pem@) == CsrPemView::Missing,
            Err(e) => csr_section(pem@) == CsrPemView::Refused(e@),
        },
{
    match rustls_pemfile::csr(&mut pem.as_bytes()) {
        Ok(found) => Ok(found.map(|der| der.to_vec())),
        Err(e) => Err(e.to_string()),
    }
}

/// What reading the PEM text of a private key gives: the bytes of its first private key,
/// if it has one, or the text of an error.
pub enum KeyPemView {
    Der(Seq<u8>),
    Missing,
    Refused(Seq<char>),
}

/// What `rustls_pemfile` finds in the PEM text of a private key.
pub uninterp spec fn key_section(pem: Seq<char>) -> KeyPemView;

/// `private_key` of `rustls_pemfile`: the bytes of the first private key in a PEM text,
/// of whatever form, if there is one, or the text of an error.
#[verifier::external_body]
pub(crate) fn read_key_section(pem: &str) -> (r: Result<Option<Vec<u8>>, String>)
    ensures
        match r {
            Ok(Some(der)) => key_section(pem@) == KeyPemView::Der(der@),
            Ok(None) => key_section(pem@) == KeyPemView::Missing,
            Err(e) => key_section(pem@) == KeyPemView::Refused(e@),
        },
{
    match rustls_pemfile::private_key(&mut pem.as_bytes()) {
        Ok(found) => Ok(found.map(|key| key.secret_der().to_vec())),
        Err(e) => Err(e.to_string()),
    }
}

/// What reading a signing request gives: its first common name, if that is text, or the
/// text of an error.
pub enum CsrView {
    Read(Option<Seq<char>>),
    Refused(Seq<char>),
}

/// What `x509_parser` reads from the bytes of a signing request.
pub uninterp spec fn csr_reading(der: Seq<u8>) -> CsrView;

/// `X509CertificationRequest::from_der` of `x509_parser`: the first common name in a
/// signing request, or the text of an error.
#[verifier::external_body]
pub(crate) fn read_csr(der: &[u8]) -> (r: Result<Option<String>, String>)
    ensures
        match r {
            Ok(cn) => csr_reading(der@) == CsrView::Read(text::opt_text(cn)),
            Err(e) => csr_reading(der@) == CsrView::Refused(e@),
        },
{
    match <X509CertificationRequest as FromDer<X509Error>>::from_der(der) {
        Ok((_, c)) => Ok(
            c.certification_request_info.subject.iter_common_name().next().and_then(
                |n| n.as_str().ok().map(|s| s.to_string()),
            ),
        ),
        Err(e) => Err(e.to_string()),
    }
}

} // verus!
