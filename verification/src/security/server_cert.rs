//! In-process renewal for the controller's own TLS server certificates.
//!
//! The certificate of an endpoint is re-issued when it reaches 2/3 of its lifetime,
//! the same policy as that of the agents. Without this a server certificate with a
//! validity window shorter than the uptime of the controller would expire, and no
//! agent could connect to renew its own.

use super::ca::{CaError, CertificateAuthority, IssuedCert};
use super::x509::{self, KeyPemView, PemSection, PemView, X509View};
use crate::text;
use crate::timestamp::{self, Timestamp};
use vstd::prelude::*;

verus! {

broadcast use vstd::string::group_string_axioms;

/// Configuration for the server-cert renewal task. One per renewable
/// endpoint (enrollment, management).
pub struct RenewalConfig {
    /// SANs to embed in the renewed cert (first entry is also the CN). Must
    /// cover every name/IP agents connect with, otherwise the handshake fails
    /// verification.
    pub sans: Vec<String>,
    /// TTL applied to each renewed cert.
    pub ttl_secs: u64,
    /// If `Some`, the CA cert PEM is appended to the renewed chain. Use
    /// this for the enrollment endpoint where ZTP agents walk the chain
    /// to find the pinned CA. Leave `None` for the mTLS management
    /// endpoint where agents already have the CA as a trust anchor.
    pub extra_chain_pem: Option<String>,
    /// Tag for log lines so operators can tell enrollment renewals from
    /// management renewals.
    pub label: &'static str,
}

/// How often a certificate is looked at: twelve times in its lifetime, but not more
/// often than every five seconds nor less often than every hour.
pub open spec fn check_interval(ttl_secs: u64) -> int {
    let twelfth = (ttl_secs + 11) / 12;
    if twelfth < 5 {
        5
    } else if twelfth > 3600 {
        3600
    } else {
        twelfth
    }
}

/// How many seconds lie between two looks at a certificate.
pub fn check_interval_secs(ttl_secs: u64) -> (secs: u64)
    ensures
        secs == check_interval(ttl_secs),
{
    let twelfth: u64 = if ttl_secs % 12 == 0 {
        ttl_secs / 12
    } else {
        ttl_secs / 12 + 1
    };
    if twelfth < 5 {
        5
    } else if twelfth > 3600 {
        3600
    } else {
        twelfth
    }
}

/// Why the time of renewal of a certificate could not be found.
#[derive(Debug)]
pub enum RenewAtError {
    NoCertificate,
    Pem(String),
    Der(String),
    NotBeforeRange,
    NotAfterRange,
    RenewAtRange,
}

impl RenewAtError {
    /// The text of the error.
    pub open spec fn message(self) -> Seq<char> {
        match self {
            RenewAtError::NoCertificate => "PEM contained no certificate"@,
            RenewAtError::Pem(e) => "Failed to PEM-decode server cert: "@ + e@,
            RenewAtError::Der(e) => "Failed to parse server cert DER: "@ + e@,
            RenewAtError::NotBeforeRange => "not_before out of range"@,
            RenewAtError::NotAfterRange => "not_after out of range"@,
            RenewAtError::RenewAtRange => "renew_at out of range"@,
        }
    }

    /// The text of the error.
    pub fn to_text(&self) -> (s: String)
        ensures
            s@ == self.message(),
    {
        match self {
            RenewAtError::NoCertificate => "PEM contained no certificate".to_string(),
            RenewAtError::Pem(e) => text::concat2(
                "Failed to PEM-decode server cert: ",
                e.as_str(),
            ),
            RenewAtError::Der(e) => text::concat2("Failed to parse server cert DER: ", e.as_str()),
            RenewAtError::NotBeforeRange => "not_before out of range".to_string(),
            RenewAtError::NotAfterRange => "not_after out of range".to_string(),
            RenewAtError::RenewAtRange => "renew_at out of range".to_string(),
        }
    }
}

/// Whether a date names the second.
pub open spec fn in_range(t: int) -> bool {
    timestamp::FIRST_SECOND <= t <= timestamp::LAST_SECOND
}

/// When a certificate is renewed: after two thirds of its lifetime, which is at least
/// a second.
pub open spec fn renewal_second(not_before: i64, not_after: i64) -> int {
    let lifetime = not_after - not_before;
    not_before + ((if lifetime < 1 {
        1
    } else {
        lifetime
    }) * 2) / 3
}

/// When a certificate with this validity is renewed.
pub fn renew_at(not_before: i64, not_after: i64) -> (r: Result<i64, RenewAtError>)
    ensures
        match r {
            Ok(t) => in_range(not_before as int) && in_range(not_after as int) && t
                == renewal_second(not_before, not_after) && in_range(t as int),
            Err(RenewAtError::NotBeforeRange) => !in_range(not_before as int),
            Err(RenewAtError::NotAfterRange) => in_range(not_before as int) && !in_range(
                not_after as int,
            ),
            Err(RenewAtError::RenewAtRange) => in_range(not_before as int) && in_range(
                not_after as int,
            ) && !in_range(renewal_second(not_before, not_after)),
            Err(_) => false,
        },
{
    if not_before < timestamp::FIRST_SECOND || timestamp::LAST_SECOND < not_before {
        return Err(RenewAtError::NotBeforeRange);
    }
    if not_after < timestamp::FIRST_SECOND || timestamp::LAST_SECOND < not_after {
        return Err(RenewAtError::NotAfterRange);
    }
    let span: i64 = not_after - not_before;
    let lifetime: i64 = if span < 1 {
        1
    } else {
        span
    };
    let t: i64 = not_before + (lifetime * 2) / 3;
    if t < timestamp::FIRST_SECOND || timestamp::LAST_SECOND < t {
        return Err(RenewAtError::RenewAtRange);
    }
    Ok(t)
}

/// A certificate's validity and when it is renewed, in Unix seconds.
#[derive(Clone, Copy, Debug, PartialEq, Eq, Structural)]
pub struct RenewalTimes {
    pub not_before: i64,
    pub not_after: i64,
    pub renew_at: i64,
}

/// Whether that is what the first certificate in a PEM text comes to.
pub open spec fn renewal_read(pem: Seq<char>, r: Result<RenewalTimes, RenewAtError>) -> bool {
    let sections = x509::pem_certificates(pem);
    if sections.len() == 0 {
        r matches Err(RenewAtError::NoCertificate)
    } else {
        match sections[0] {
            PemView::Refused(e) => r matches Err(RenewAtError::Pem(m)) && m@ == e,
            PemView::Der(der) => match x509::x509_reading(der) {
                X509View::Refused(e) => r matches Err(RenewAtError::Der(m)) && m@ == e,
                X509View::Read { not_before, not_after, .. } => match r {
                    Ok(t) => {
                        &&& t.not_before == not_before
                        &&& t.not_after == not_after
                        &&& t.renew_at == renewal_second(not_before, not_after)
                        &&& in_range(not_before as int)
                        &&& in_range(not_after as int)
                        &&& in_range(t.renew_at as int)
                    },
                    Err(RenewAtError::NotBeforeRange) => !in_range(not_before as int),
                    Err(RenewAtError::NotAfterRange) => in_range(not_before as int) && !in_range(
                        not_after as int,
                    ),
                    Err(RenewAtError::RenewAtRange) => in_range(not_before as int) && in_range(
                        not_after as int,
                    ) && !in_range(renewal_second(not_before, not_after)),
                    Err(_) => false,
                },
            },
        }
    }
}

/// The validity of the first cert in `pem`, and when it is renewed.
pub fn parse_renew_at(pem: &str) -> (r: Result<RenewalTimes, RenewAtError>)
    ensures
        renewal_read(pem@, r),
{
    let sections = x509::read_certificates(pem);
    if sections.len() == 0 {
        return Err(RenewAtError::NoCertificate);
    }
    assert(x509::section_views(sections@)[0] == sections@[0]@);
    let der = match &sections[0] {
        PemSection::Der(der) => der,
        PemSection::Refused(e) => {
            return Err(RenewAtError::Pem(e.clone()));
        },
    };
    match x509::read_x509(der.as_slice()) {
        Ok(f) => match renew_at(f.not_before, f.not_after) {
            Ok(t) => Ok(
                RenewalTimes { not_before: f.not_before, not_after: f.not_after, renew_at: t },
            ),
            Err(e) => Err(e),
        },
        Err(e) => Err(RenewAtError::Der(e)),
    }
}

/// Whether a certificate is due for renewal. One that cannot be read is.
pub fn is_due(times: &Result<RenewalTimes, RenewAtError>, now: &Timestamp) -> (due: bool)
    requires
        now.wf(),
    ensures
        due == match times {
            Ok(t) => t.renew_at * 1_000_000_000 <= now.instant(),
            Err(_) => true,
        },
{
    match times {
        Ok(t) => t.renew_at <= now.secs,
        Err(_) => true,
    }
}

/// What one look at the current certificate asks for.
pub enum RenewalStep {
    /// Nothing; look again later.
    Wait,
    /// Install this certificate.
    Install(IssuedCert),
    /// The authority refused; look again later.
    Failed(CaError),
}

/// The seconds of a point in time since the Unix epoch; those of the epoch for an earlier
/// one.
pub open spec fn unix_secs(now: Timestamp) -> u64 {
    if now.secs < 0 {
        0
    } else {
        now.secs as u64
    }
}

/// One look at the current certificate: if it is due, a new one is asked for.
pub fn renewal_step<C: CertificateAuthority>(
    current_pem: &str,
    cfg: &RenewalConfig,
    ca: &C,
    now: &Timestamp,
) -> (r: RenewalStep)
    requires
        now.wf(),
    ensures
        exists|times: Result<RenewalTimes, RenewAtError>| #[trigger]
            renewal_read(current_pem@, times) && match r {
                RenewalStep::Wait => times matches Ok(t) && t.renew_at > now.secs,
                RenewalStep::Install(c) => (times matches Ok(t) ==> t.renew_at <= now.secs)
                    && ca.may_serve(text::texts(cfg.sans@), cfg.ttl_secs, unix_secs(*now), c@),
                RenewalStep::Failed(_) => times matches Ok(t) ==> t.renew_at <= now.secs,
            },
{
    let times = parse_renew_at(current_pem);
    if !is_due(&times, now) {
        return RenewalStep::Wait;
    }
    let secs: u64 = if now.secs < 0 {
        0
    } else {
        now.secs as u64
    };
    match ca.issue_server_cert(cfg.sans.as_slice(), cfg.ttl_secs, secs) {
        Ok(c) => RenewalStep::Install(c),
        Err(e) => RenewalStep::Failed(e),
    }
}

/// The certificate that is looked at next: the new one where it was installed, else
/// still the old one, so that the next look tries again.
pub fn after_install(current_pem: String, new_pem: String, installed: bool) -> (s: String)
    ensures
        s == (if installed {
            new_pem
        } else {
            current_pem
        }),
{
    if installed {
        new_pem
    } else {
        current_pem
    }
}

/// Why the chain of an endpoint could not be put together.
#[derive(Debug)]
pub enum ChainError {
    Certificate(String),
    Empty,
    Extension(String),
}

impl ChainError {
    /// The text of the error.
    pub open spec fn message(self) -> Seq<char> {
        match self {
            ChainError::Certificate(e) => "Failed to parse server cert PEM: "@ + e@,
            ChainError::Empty => "Server cert PEM contained no certificates"@,
            ChainError::Extension(e) => "Failed to parse chain-extension cert PEM: "@ + e@,
        }
    }

    /// The text of the error.
    pub fn to_text(&self) -> (s: String)
        ensures
            s@ == self.message(),
    {
        match self {
            ChainError::Certificate(e) => text::concat2(
                "Failed to parse server cert PEM: ",
                e.as_str(),
            ),
            ChainError::Empty => "Server cert PEM contained no certificates".to_string(),
            ChainError::Extension(e) => text::concat2(
                "Failed to parse chain-extension cert PEM: ",
                e.as_str(),
            ),
        }
    }
}

/// Why the key of an endpoint could not be read.
#[derive(Debug)]
pub enum ServerKeyError {
    Pem(String),
    Missing,
}

impl ServerKeyError {
    /// The text of the error.
    pub open spec fn message(self) -> Seq<char> {
        match self {
            ServerKeyError::Pem(e) => "Failed to parse server key PEM: "@ + e@,
            ServerKeyError::Missing => "Server key PEM contained no private key"@,
        }
    }

    /// The text of the error.
    pub fn to_text(&self) -> (s: String)
        ensures
            s@ == self.message(),
    {
        match self {
            ServerKeyError::Pem(e) => text::concat2("Failed to parse server key PEM: ", e.as_str()),
            ServerKeyError::Missing => "Server key PEM contained no private key".to_string(),
        }
    }
}

/// The private key of an endpoint, once its PEM text was read.
pub fn key_of_section(found: Result<Option<Vec<u8>>, String>) -> (r: Result<Vec<u8>, ServerKeyError>)
    ensures
        match found {
            Ok(Some(der)) => r == Ok::<Vec<u8>, ServerKeyError>(der),
            Ok(None) => r == Err::<Vec<u8>, ServerKeyError>(ServerKeyError::Missing),
            Err(e) => r == Err::<Vec<u8>, ServerKeyError>(ServerKeyError::Pem(e)),
        },
{
    match found {
        Ok(Some(der)) => Ok(der),
        Ok(None) => Err(ServerKeyError::Missing),
        Err(e) => Err(ServerKeyError::Pem(e)),
    }
}

/// The private key of an endpoint: the bytes of the first one in its PEM text.
pub fn server_key_of(key_pem: &str) -> (r: Result<Vec<u8>, ServerKeyError>)
    ensures
        match x509::key_section(key_pem@) {
            KeyPemView::Der(d) => r matches Ok(der) && der@ == d,
            KeyPemView::Missing => r matches Err(ServerKeyError::Missing),
            KeyPemView::Refused(t) => r matches Err(ServerKeyError::Pem(e)) && e@ == t,
        },
{
    key_of_section(x509::read_key_section(key_pem))
}

/// The certificates in sections, if all of them can be read; else the first error.
pub open spec fn all_ders(sections: Seq<PemView>) -> Result<Seq<Seq<u8>>, Seq<char>>
    decreases sections.len(),
{
    if sections.len() == 0 {
        Ok(Seq::empty())
    } else {
        match all_ders(sections.drop_last()) {
            Ok(earlier) => match sections.last() {
                PemView::Der(d) => Ok(earlier.push(d)),
                PemView::Refused(e) => Err(e),
            },
            Err(e) => Err(e),
        }
    }
}

/// All certificates in a PEM text, or the first error.
pub fn certificates_of(pem: &str) -> (r: Result<Vec<Vec<u8>>, String>)
    ensures
        match r {
            Ok(v) => all_ders(x509::pem_certificates(pem@)) == Ok::<Seq<Seq<u8>>, Seq<char>>(
                crate::store::byte_views(v@),
            ),
            Err(e) => all_ders(x509::pem_certificates(pem@)) == Err::<Seq<Seq<u8>>, Seq<char>>(e@),
        },
{
    let sections = x509::read_certificates(pem);
    let ghost all = x509::section_views(sections@);
    let mut out: Vec<Vec<u8>> = Vec::new();
    let mut i: usize = 0;
    assert(all.take(0) =~= Seq::<PemView>::empty());
    assert(crate::store::byte_views(out@) =~= Seq::<Seq<u8>>::empty());
    while i < sections.len()
        invariant
            i <= sections@.len(),
            all == x509::section_views(sections@),
            all == x509::pem_certificates(pem@),
            all_ders(all.take(i as int)) == Ok::<Seq<Seq<u8>>, Seq<char>>(
                crate::store::byte_views(out@),
            ),
        decreases sections@.len() - i,
    {
        let ghost before = crate::store::byte_views(out@);
        proof {
            assert(all.take(i + 1).drop_last() =~= all.take(i as int));
            assert(all.take(i + 1).last() == sections@[i as int]@);
        }
        match &sections[i] {
            PemSection::Der(d) => {
                out.push(crate::store::records::copy_bytes(d.as_slice()));
                assert(crate::store::byte_views(out@) =~= before.push(d@));
            },
            PemSection::Refused(e) => {
                proof {
                    lemma_first_error(all, i + 1);
                }
                return Err(e.clone());
            },
        }
        i = i + 1;
    }
    assert(all.take(i as int) =~= all);
    Ok(out)
}

/// An error among the first sections is the error of all of them.
proof fn lemma_first_error(sections: Seq<PemView>, n: int)
    requires
        0 <= n <= sections.len(),
        all_ders(sections.take(n)) is Err,
    ensures
        all_ders(sections) == all_ders(sections.take(n)),
    decreases sections.len(),
{
    if n == sections.len() {
        assert(sections.take(n) =~= sections);
    } else {
        assert(sections.drop_last().take(n) =~= sections.take(n));
        lemma_first_error(sections.drop_last(), n);
    }
}

/// The chain that an endpoint presents: its own certificates, of which there is at
/// least one, and behind them those of the extension.
pub open spec fn presented_chain(cert_pem: Seq<char>, extra: Option<Seq<char>>) -> Option<
    Seq<Seq<u8>>,
> {
    match all_ders(x509::pem_certificates(cert_pem)) {
        Ok(own) => if own.len() == 0 {
            None
        } else {
            match extra {
                None => Some(own),
                Some(e) => match all_ders(x509::pem_certificates(e)) {
                    Ok(more) => Some(own + more),
                    Err(_) => None,
                },
            }
        },
        Err(_) => None,
    }
}

/// The chain that an endpoint presents.
pub fn build_chain(cert_pem: &str, extra_chain_pem: Option<&str>) -> (r: Result<
    Vec<Vec<u8>>,
    ChainError,
>)
    ensures
        match r {
            Ok(v) => presented_chain(cert_pem@, text::opt_str(extra_chain_pem)) == Some(
                crate::store::byte_views(v@),
            ),
            Err(ChainError::Certificate(e)) => all_ders(x509::pem_certificates(cert_pem@))
                == Err::<Seq<Seq<u8>>, Seq<char>>(e@),
            Err(ChainError::Empty) => all_ders(x509::pem_certificates(cert_pem@)) == Ok::<
                Seq<Seq<u8>>,
                Seq<char>,
            >(Seq::empty()),
            Err(ChainError::Extension(e)) => {
                &&& all_ders(x509::pem_certificates(cert_pem@)) matches Ok(own) && own.len() > 0
                &&& extra_chain_pem matches Some(x) && all_ders(x509::pem_certificates(x@))
                    == Err::<Seq<Seq<u8>>, Seq<char>>(e@)
            },
        },
{
    let mut chain = match certificates_of(cert_pem) {
        Ok(v) => v,
        Err(e) => {
            return Err(ChainError::Certificate(e));
        },
    };
    if chain.len() == 0 {
        assert(crate::store::byte_views(chain@) =~= Seq::<Seq<u8>>::empty());
        return Err(ChainError::Empty);
    }
    if let Some(extra) = extra_chain_pem {
        match certificates_of(extra) {
            Ok(mut more) => {
                let ghost own = crate::store::byte_views(chain@);
                let ghost added = crate::store::byte_views(more@);
                chain.append(&mut more);
                assert(crate::store::byte_views(chain@) =~= own + added);
            },
            Err(e) => {
                return Err(ChainError::Extension(e));
            },
        }
    }
    Ok(chain)
}

} // verus!
