//! What holds of the certificates that are issued and of when they are renewed.

use super::ca;
use super::server_cert::{self, RenewAtError, RenewalTimes};
use super::x509::{self, CertProfile, KeyUse, PemView, Purpose, X509View};
use vstd::prelude::*;

verus! {

/// The certificate of a node names the node, serves to authenticate a client and nothing
/// else, is no authority, and is valid from the second of its issue on for its lifetime.
pub proof fn node_certificate_is_for_a_client(
    p: CertProfile,
    node_id: Seq<char>,
    ttl_secs: u64,
    now: u64,
    serial: Seq<u8>,
)
    requires
        p@ == ca::node_profile(node_id, ttl_secs, now, serial),
    ensures
        p.common_name@ == node_id,
        !p.authority,
        p.sans@.len() == 0,
        forall|u: Purpose| #[trigger] p.purposes@.contains(u) <==> u is ClientAuth,
        forall|u: KeyUse| #[trigger] p.key_uses@.contains(u) <==> u is DigitalSignature,
        p.serial is Some && p.serial->0@ == serial,
        now + ttl_secs <= x509::MAX_UNIX_TS ==> p.not_before is Some && p.not_before->0 == now
            && p.not_after == now + ttl_secs,
        p.not_after <= x509::MAX_UNIX_TS,
{
    assert(x509::san_views(crate::text::texts(p.sans@)).len() == p.sans@.len());
    assert(p.purposes@[0] == Purpose::ClientAuth);
    assert(p.key_uses@[0] == KeyUse::DigitalSignature);
}

/// The certificate of a server names each of its names, the first as its common name, too;
/// it serves to authenticate a server and nothing else, is no authority, and is valid from
/// the second of its issue on for its lifetime.
pub proof fn server_certificate_is_for_a_server(
    p: CertProfile,
    sans: Seq<Seq<char>>,
    ttl_secs: u64,
    now: u64,
    serial: Seq<u8>,
)
    requires
        p@ == ca::server_profile(sans, ttl_secs, now, serial),
        sans.len() > 0,
    ensures
        p.common_name@ == sans[0],
        !p.authority,
        p.sans@.len() == sans.len(),
        forall|i: int| 0 <= i < sans.len() ==> (#[trigger] p.sans@[i])@ == sans[i],
        forall|u: Purpose| #[trigger] p.purposes@.contains(u) <==> u is ServerAuth,
        forall|u: KeyUse| #[trigger] p.key_uses@.contains(u) <==> u is DigitalSignature,
        p.serial is Some && p.serial->0@ == serial,
        now + ttl_secs <= x509::MAX_UNIX_TS ==> p.not_before is Some && p.not_before->0 == now
            && p.not_after == now + ttl_secs,
{
    let ours = x509::san_views(crate::text::texts(p.sans@));
    let theirs = x509::san_views(sans);
    assert(ours.len() == p.sans@.len() && theirs.len() == sans.len());
    assert forall|i: int| 0 <= i < sans.len() implies (#[trigger] p.sans@[i])@ == sans[i] by {
        assert(ours[i] == x509::san_view(p.sans@[i]@));
        assert(theirs[i] == x509::san_view(sans[i]));
    }
    assert(p.purposes@[0] == Purpose::ServerAuth);
    assert(p.key_uses@[0] == KeyUse::DigitalSignature);
}

/// The certificate of the authority is that of an authority: it may sign certificates and
/// lists of revoked ones.
pub proof fn authority_certificate_is_for_an_authority(p: CertProfile, common_name: Seq<char>)
    requires
        p@ == ca::ca_profile(common_name),
    ensures
        p.common_name@ == common_name,
        p.authority,
        p.sans@.len() == 0,
        p.purposes@.len() == 0,
        forall|u: KeyUse| #[trigger] p.key_uses@.contains(u),
        p.serial is None,
{
    assert(x509::san_views(crate::text::texts(p.sans@)).len() == p.sans@.len());
    assert(p.key_uses@[0] == KeyUse::KeyCertSign);
    assert(p.key_uses@[1] == KeyUse::CrlSign);
    assert(p.key_uses@[2] == KeyUse::DigitalSignature);
}

/// A certificate is renewed once two thirds of its lifetime are over, to the second, and
/// so before it expires.
pub proof fn renewed_after_two_thirds(not_before: i64, not_after: i64)
    requires
        not_before < not_after,
    ensures
        ({
            let t = server_cert::renewal_second(not_before, not_after);
            let lifetime = not_after - not_before;
            &&& 3 * (t - not_before) <= 2 * lifetime
            &&& 2 * lifetime < 3 * (t + 1 - not_before)
            &&& not_before <= t < not_after
        }),
{
}

/// A certificate is looked at at least every hour and at most every five seconds; within
/// these bounds at least twelve times in its lifetime, but no more often than that takes.
pub proof fn certificate_is_looked_at_in_time(ttl_secs: u64)
    ensures
        ({
            let secs = server_cert::check_interval(ttl_secs);
            &&& 5 <= secs <= 3600
            &&& secs < 3600 ==> ttl_secs <= 12 * secs
            &&& secs > 5 ==> 12 * (secs - 1) < ttl_secs
        }),
{
}

/// A serial made from random bytes has no sign and no leading zero, and all its bytes but
/// the first are those that were drawn; the first one is too where it was such already.
pub proof fn serial_keeps_what_was_drawn(bytes: Seq<u8>)
    requires
        bytes.len() > 0,
    ensures
        ({
            let serial = ca::serial_of(bytes);
            &&& serial.len() == bytes.len()
            &&& 1 <= serial[0] < 128
            &&& 1 <= bytes[0] < 128 ==> serial[0] == bytes[0]
            &&& bytes[0] > 128 ==> serial[0] == bytes[0] - 128
            &&& forall|i: int| 0 < i < bytes.len() ==> #[trigger] serial[i] == bytes[i]
        }),
{
}

/// The chain that an endpoint presents is the certificates of its own text in their order,
/// and behind them those of the extension in theirs; none where a section cannot be read or
/// the endpoint has no certificate of its own.
pub proof fn chain_is_own_and_extension(cert_pem: Seq<char>, extra: Option<Seq<char>>)
    ensures
        ({
            let own = x509::pem_certificates(cert_pem);
            let more = match extra {
                Some(e) => x509::pem_certificates(e),
                None => Seq::empty(),
            };
            let chain = server_cert::presented_chain(cert_pem, extra);
            &&& chain is Some <==> own.len() > 0 && all_read(own) && all_read(more)
            &&& chain is Some ==> chain->0.len() == own.len() + more.len()
            &&& chain is Some ==> forall|i: int|
                0 <= i < own.len() ==> #[trigger] chain->0[i] == own[i]->Der_0
            &&& chain is Some ==> forall|i: int|
                0 <= i < more.len() ==> chain->0[own.len() + i] == (#[trigger] more[i])->Der_0
        }),
{
    lemma_ders(x509::pem_certificates(cert_pem));
    if extra is Some {
        lemma_ders(x509::pem_certificates(extra->0));
    }
}

/// Whether every section of a PEM text can be read.
pub open spec fn all_read(sections: Seq<PemView>) -> bool {
    forall|i: int| 0 <= i < sections.len() ==> (#[trigger] sections[i]) is Der
}

/// The certificates of sections that can all be read.
proof fn lemma_ders(sections: Seq<PemView>)
    ensures
        server_cert::all_ders(sections) is Ok <==> all_read(sections),
        server_cert::all_ders(sections) matches Ok(v) ==> v.len() == sections.len() && forall|i: int|
            0 <= i < v.len() ==> #[trigger] v[i] == sections[i]->Der_0,
    decreases sections.len(),
{
    if sections.len() > 0 {
        let front = sections.drop_last();
        lemma_ders(front);
        assert(sections[sections.len() - 1] == sections.last());
        if all_read(sections) {
            assert forall|i: int| 0 <= i < front.len() implies (#[trigger] front[i]) is Der by {
                assert(sections[i] is Der);
            }
        }
        if all_read(front) && sections.last() is Der {
            assert forall|i: int| 0 <= i < sections.len() implies (#[trigger] sections[i])
                is Der by {
                if i < front.len() {
                    assert(front[i] is Der);
                }
            }
        }
    }
}

/// The certificate that a server presents is renewed once two thirds of the lifetime that
/// is written in it are over.
pub proof fn presented_certificate_is_renewed_in_time(pem: Seq<char>, t: RenewalTimes)
    requires
        server_cert::renewal_read(pem, Ok::<RenewalTimes, RenewAtError>(t)),
        t.not_before < t.not_after,
    ensures
        x509::pem_certificates(pem).len() > 0,
        x509::pem_certificates(pem)[0] matches PemView::Der(der) && (x509::x509_reading(
            der,
        ) matches X509View::Read { not_before, not_after, .. } && not_before == t.not_before
            && not_after == t.not_after),
        3 * (t.renew_at - t.not_before) <= 2 * (t.not_after - t.not_before),
        2 * (t.not_after - t.not_before) < 3 * (t.renew_at + 1 - t.not_before),
        t.renew_at < t.not_after,
{
}

} // verus!
