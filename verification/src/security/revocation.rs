//! TLS-handshake-layer certificate revocation.
//!
//! A handshake whose trust chain is valid is still rejected if the presented leaf
//! cert's serial appears in an in-memory mirror of the revoked serials. The mirror is
//! seeded once at startup from the store and kept current with every revocation.

use super::x509::{self, X509View};
use crate::store::{self, records};
use crate::text;
use vstd::prelude::*;

verus! {

broadcast use vstd::string::group_string_axioms;

/// A snapshot of the revoked-serial set.
pub struct RevokedSerials {
    inner: Vec<Vec<u8>>,
}

impl View for RevokedSerials {
    type V = Set<Seq<u8>>;

    closed spec fn view(&self) -> Set<Seq<u8>> {
        store::byte_views(self.inner@).to_set()
    }
}

/// The place of a serial among some.
fn position(v: &Vec<Vec<u8>>, serial: &[u8]) -> (r: Option<usize>)
    ensures
        match r {
            Some(i) => i < v@.len() && v@[i as int]@ == serial@,
            None => !store::byte_views(v@).contains(serial@),
        },
{
    let mut i: usize = 0;
    while i < v.len()
        invariant
            i <= v@.len(),
            forall|j: int| 0 <= j < i ==> #[trigger] store::byte_views(v@)[j] != serial@,
        decreases v@.len() - i,
    {
        assert(store::byte_views(v@)[i as int] == v@[i as int]@);
        if records::same_bytes(v[i].as_slice(), serial) {
            return Some(i);
        }
        i = i + 1;
    }
    None
}

/// Adds a serial to some, unless it is there.
fn add_serial(v: &mut Vec<Vec<u8>>, serial: Vec<u8>) -> (added: bool)
    requires
        store::byte_views(old(v)@).no_duplicates(),
    ensures
        store::byte_views(final(v)@).no_duplicates(),
        store::byte_views(final(v)@).to_set() == store::byte_views(old(v)@).to_set().insert(
            serial@,
        ),
        added == !store::byte_views(old(v)@).to_set().contains(serial@),
{
    let ghost before = store::byte_views(v@);
    if let Some(i) = position(v, serial.as_slice()) {
        assert(before[i as int] == serial@);
        assert(before.to_set() =~= before.to_set().insert(serial@));
        return false;
    }
    v.push(serial);
    proof {
        let after = store::byte_views(v@);
        assert(after =~= before.push(serial@));
        assert forall|i: int, j: int| 0 <= i < j < after.len() implies after[i] != after[j] by {
            if j == before.len() {
                assert(before.contains(before[i]));
            }
        }
        assert forall|s: Seq<u8>| after.to_set().contains(s) == before.to_set().insert(
            serial@,
        ).contains(s) by {
            if after.contains(s) {
                let i = choose|i: int| 0 <= i < after.len() && after[i] == s;
                if i < before.len() {
                    assert(before[i] == s);
                }
            }
            if before.contains(s) {
                let i = choose|i: int| 0 <= i < before.len() && before[i] == s;
                assert(after[i] == s);
            }
            if s == serial@ {
                assert(after[before.len() as int] == s);
            }
        }
        assert(after.to_set() =~= before.to_set().insert(serial@));
    }
    true
}

impl RevokedSerials {
    #[verifier::type_invariant]
    spec fn inv(self) -> bool {
        store::byte_views(self.inner@).no_duplicates()
    }

    /// The set of some serials, each once.
    pub fn from_serials(serials: Vec<Vec<u8>>) -> (r: Self)
        ensures
            r@ == store::byte_views(serials@).to_set(),
    {
        let mut inner: Vec<Vec<u8>> = Vec::new();
        let ghost given = store::byte_views(serials@);
        assert(store::byte_views(inner@) =~= Seq::<Seq<u8>>::empty());
        assert(store::byte_views(inner@).to_set() =~= given.take(0).to_set());
        let mut i: usize = 0;
        while i < serials.len()
            invariant
                i <= serials@.len(),
                given == store::byte_views(serials@),
                store::byte_views(inner@).no_duplicates(),
                store::byte_views(inner@).to_set() == given.take(i as int).to_set(),
            decreases serials@.len() - i,
        {
            add_serial(&mut inner, records::copy_bytes(serials[i].as_slice()));
            proof {
                let a = given.take(i as int);
                let b = given.take(i + 1);
                assert(b =~= a.push(given[i as int]));
                assert forall|s: Seq<u8>| b.to_set().contains(s) == a.to_set().insert(
                    given[i as int],
                ).contains(s) by {
                    if b.contains(s) {
                        let j = choose|j: int| 0 <= j < b.len() && b[j] == s;
                        if j < i {
                            assert(a[j] == s);
                        }
                    }
                    if a.contains(s) {
                        let j = choose|j: int| 0 <= j < a.len() && a[j] == s;
                        assert(b[j] == s);
                    }
                    if s == given[i as int] {
                        assert(b[i as int] == s);
                    }
                }
                assert(b.to_set() =~= a.to_set().insert(given[i as int]));
            }
            i = i + 1;
        }
        assert(given.take(i as int) =~= given);
        RevokedSerials { inner }
    }

    pub fn contains(&self, serial: &[u8]) -> (r: bool)
        ensures
            r == self@.contains(serial@),
    {
        match position(&self.inner, serial) {
            Some(i) => {
                assert(store::byte_views(self.inner@)[i as int] == serial@);
                true
            },
            None => false,
        }
    }

    pub fn len(&self) -> (n: usize)
        ensures
            self@.finite(),
            n == self@.len(),
    {
        proof {
            use_type_invariant(self);
            store::byte_views(self.inner@).unique_seq_to_set();
        }
        self.inner.len()
    }

    pub fn is_empty(&self) -> (r: bool)
        ensures
            r == (self@ == Set::<Seq<u8>>::empty()),
    {
        let n = self.len();
        proof {
            if n == 0 {
                assert(self@ =~= Set::<Seq<u8>>::empty());
            }
        }
        n == 0
    }

    /// Whether every serial of this set is in another.
    fn within(&self, other: &RevokedSerials) -> (r: bool)
        ensures
            r == self@.subset_of(other@),
    {
        let ghost views = store::byte_views(self.inner@);
        let mut i: usize = 0;
        while i < self.inner.len()
            invariant
                i <= self.inner@.len(),
                views == store::byte_views(self.inner@),
                forall|j: int| 0 <= j < i ==> other@.contains(#[trigger] views[j]),
            decreases self.inner@.len() - i,
        {
            assert(views[i as int] == self.inner@[i as int]@);
            if !other.contains(self.inner[i].as_slice()) {
                assert(self@.contains(views[i as int]));
                return false;
            }
            i = i + 1;
        }
        proof {
            assert forall|s: Seq<u8>| self@.contains(s) implies other@.contains(s) by {
                let j = choose|j: int| 0 <= j < views.len() && views[j] == s;
                assert(other@.contains(views[j]));
            }
        }
        true
    }

    /// Whether two snapshots are of the same set.
    pub fn same_as(&self, other: &RevokedSerials) -> (r: bool)
        ensures
            r == (self@ == other@),
    {
        let r = self.within(other) && other.within(self);
        assert(r ==> self@ =~= other@);
        r
    }
}

impl Clone for RevokedSerials {
    fn clone(&self) -> (r: Self)
        ensures
            r@ == self@,
    {
        let mut inner: Vec<Vec<u8>> = Vec::new();
        let mut i: usize = 0;
        while i < self.inner.len()
            invariant
                i <= self.inner@.len(),
                inner@.len() == i,
                forall|j: int| 0 <= j < i ==> (#[trigger] inner@[j])@ == self.inner@[j]@,
            decreases self.inner@.len() - i,
        {
            inner.push(records::copy_bytes(self.inner[i].as_slice()));
            i = i + 1;
        }
        proof {
            use_type_invariant(self);
            assert(store::byte_views(inner@) =~= store::byte_views(self.inner@));
        }
        RevokedSerials { inner }
    }
}

/// Owner side of the revocation mirror.
///
/// Revoking a certificate adds its serial here after the store write, which replaces
/// the snapshot as a whole. There is a narrow window between the two; the check on
/// the management stream covers that window.
pub struct RevocationWatch {
    current: RevokedSerials,
}

impl View for RevocationWatch {
    type V = Set<Seq<u8>>;

    closed spec fn view(&self) -> Set<Seq<u8>> {
        self.current@
    }
}

impl RevocationWatch {
    pub fn new(initial: RevokedSerials) -> (w: Self)
        ensures
            w@ == initial@,
    {
        RevocationWatch { current: initial }
    }

    /// Add a serial to the revoked set. The result is `false`, and the snapshot is
    /// the same, when the serial is already present.
    pub fn insert(&mut self, serial: Vec<u8>) -> (changed: bool)
        ensures
            final(self)@ == old(self)@.insert(serial@),
            changed == !old(self)@.contains(serial@),
    {
        let mut next = self.current.clone();
        proof {
            use_type_invariant(&next);
        }
        let mut inner: Vec<Vec<u8>> = Vec::new();
        std::mem::swap(&mut inner, &mut next.inner);
        let changed = add_serial(&mut inner, serial);
        self.current = RevokedSerials { inner };
        changed
    }

    /// Snapshot the current set.
    pub fn snapshot(&self) -> (r: RevokedSerials)
        ensures
            r@ == self@,
    {
        self.current.clone()
    }
}

/// Extract a certificate's serial number (big-endian, unsigned, no leading
/// zero) from its DER encoding.
///
/// Serials are issued with the high bit cleared, so the raw bytes match exactly what
/// [`super::ca::IssuedCert::serial`] recorded — no normalization needed.
pub fn extract_serial(cert_der: &[u8]) -> (r: Result<Vec<u8>, String>)
    ensures
        match r {
            Ok(serial) => x509::x509_reading(cert_der@) matches X509View::Read { serial: s, .. }
                && serial@ == s,
            Err(e) => x509::x509_reading(cert_der@) matches X509View::Refused(m) && e@
                == "x509 parse: "@ + m,
        },
{
    match x509::read_x509(cert_der) {
        Ok(f) => Ok(f.serial),
        Err(e) => Err(text::concat2("x509 parse: ", e.as_str())),
    }
}

/// Why a handshake is refused though the chain is valid, if it is.
pub open spec fn refusal(serial: Result<Vec<u8>, String>, revoked: Set<Seq<u8>>) -> Option<
    Seq<char>,
> {
    match serial {
        Ok(s) => if revoked.contains(s@) {
            Some("client certificate has been revoked"@)
        } else {
            None
        },
        Err(e) => Some("Failed to extract client cert serial: "@ + e@),
    }
}

/// The decision on a handshake whose chain is valid, from the serial of the client
/// certificate or the reason why it could not be read.
pub fn decide_handshake(serial: &Result<Vec<u8>, String>, revoked: &RevokedSerials) -> (r: Result<(), String>)
    ensures
        match r {
            Ok(()) => refusal(*serial, revoked@) is None,
            Err(e) => refusal(*serial, revoked@) == Some(e@),
        },
{
    match serial {
        Ok(s) => if revoked.contains(s.as_slice()) {
            Err("client certificate has been revoked".to_string())
        } else {
            Ok(())
        },
        Err(e) => Err(text::concat2("Failed to extract client cert serial: ", e.as_str())),
    }
}

/// Whether a client certificate can be read and is not revoked.
pub open spec fn unrevoked(cert_der: Seq<u8>, revoked: Set<Seq<u8>>) -> bool {
    x509::x509_reading(cert_der) matches X509View::Read { serial, .. } && !revoked.contains(serial)
}

/// The check of a client certificate after — and only after — its chain was found
/// valid.
pub fn check_revocation(cert_der: &[u8], revoked: &RevokedSerials) -> (r: Result<(), String>)
    ensures
        r is Ok <==> unrevoked(cert_der@, revoked@),
        x509::x509_reading(cert_der@) matches X509View::Read { serial, .. } && revoked@.contains(
            serial,
        ) ==> (r matches Err(e) && e@ == "client certificate has been revoked"@),
        x509::x509_reading(cert_der@) matches X509View::Refused(m) ==> (r matches Err(e) && e@
            == "Failed to extract client cert serial: "@ + ("x509 parse: "@ + m)),
{
    let serial = extract_serial(cert_der);
    decide_handshake(&serial, revoked)
}

} // verus!
