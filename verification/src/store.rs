//! The certificate store: a mutation-aware view over the authoritative
//! certificate set.
//!
//! The store owns the in-memory certificate set and applies the
//! append-only merge policy on `update`.  Locking (shared readers, one
//! exclusive writer) and the durable backend live at the edge of the
//! system; `mega_flush` takes the freshly re-read contents as plain
//! values and replaces the cache wholesale, so read-after-write
//! consistency across cooperating writers is restored by reload.

use vstd::prelude::*;

use crate::cert::{
    lemma_merge_seq_subsumed, merge_cert, merge_seq, Certificate, CertificateV,
};
use crate::InternalErr;

verus! {

/// Fingerprints are unique across the store.
pub open spec fn store_wf(s: Seq<CertificateV>) -> bool {
    forall|i: int, j: int|
        0 <= i < j < s.len() ==> s[i].fingerprint != s[j].fingerprint
}

/// No stored certificate carries secret material: private bytes stay in
/// the vault, never in the shared certificate store.
pub open spec fn store_public(s: Seq<CertificateV>) -> bool {
    forall|i: int| 0 <= i < s.len() ==> (#[trigger] s[i]).secret is None
}

/// A certificate with its secret material removed.
pub open spec fn strip_secret_v(c: CertificateV) -> CertificateV {
    CertificateV { secret: None, ..c }
}

/// Whether some certificate in `s` carries the fingerprint `fpr`.
pub open spec fn has_fpr(s: Seq<CertificateV>, fpr: Seq<char>) -> bool {
    exists|i: int| 0 <= i < s.len() && s[i].fingerprint == fpr
}

/// The position of the certificate carrying `fpr`; meaningful when
/// `has_fpr(s, fpr)` holds and the store is well formed.
pub open spec fn fpr_index(s: Seq<CertificateV>, fpr: Seq<char>) -> int {
    choose|i: int| 0 <= i < s.len() && s[i].fingerprint == fpr
}

/// The certificate of `s` carrying `fpr`.
pub open spec fn cert_with_fpr(s: Seq<CertificateV>, fpr: Seq<char>) -> CertificateV {
    s[fpr_index(s, fpr)]
}

/// The merge policy of the store: a new fingerprint is inserted with its
/// secret material stripped; an existing certificate absorbs the incoming
/// one by the public-only append-only union, discarding nothing.
pub open spec fn store_update(s: Seq<CertificateV>, c: CertificateV) -> Seq<CertificateV> {
    if has_fpr(s, c.fingerprint) {
        let i = fpr_index(s, c.fingerprint);
        s.update(i, merge_cert(s[i], c))
    } else {
        s.push(strip_secret_v(c))
    }
}

/// Merging a certificate with itself changes nothing.
pub proof fn lemma_merge_cert_self(c: CertificateV)
    ensures
        merge_cert(c, c) =~= c,
{
    lemma_merge_seq_subsumed(c.user_ids, c.user_ids);
    lemma_merge_seq_subsumed(c.subkeys, c.subkeys);
    lemma_merge_seq_subsumed(c.certifications, c.certifications);
}

/// `store_update` keeps fingerprints unique and the store free of
/// secret material.
pub proof fn lemma_store_update_wf(s: Seq<CertificateV>, c: CertificateV)
    requires
        store_wf(s),
    ensures
        store_wf(store_update(s, c)),
        has_fpr(store_update(s, c), c.fingerprint),
        store_public(s) ==> store_public(store_update(s, c)),
{
    let s2 = store_update(s, c);
    if has_fpr(s, c.fingerprint) {
        let i = fpr_index(s, c.fingerprint);
        assert(s2[i].fingerprint == c.fingerprint);
        if store_public(s) {
            assert forall|k: int| 0 <= k < s2.len() implies (#[trigger] s2[k]).secret
                is None by {
                if k != i {
                    assert(s2[k] == s[k]);
                }
            }
        }
    } else {
        assert(s2[s.len() as int].fingerprint == c.fingerprint);
        assert forall|i: int, j: int| 0 <= i < j < s2.len() implies s2[i].fingerprint
            != s2[j].fingerprint by {
            if j < s.len() {
            } else {
                assert(s2[j] == strip_secret_v(c));
                assert(!(0 <= i < s.len() && s[i].fingerprint == c.fingerprint));
            }
        }
        if store_public(s) {
            assert forall|k: int| 0 <= k < s2.len() implies (#[trigger] s2[k]).secret
                is None by {
                if k < s.len() {
                    assert(s2[k] == s[k]);
                }
            }
        }
    }
}

/// Re-applying the same certificate to the store is idempotent: the
/// stored certificate's user-identity set and certification set are
/// unchanged by the second application.
pub proof fn lemma_store_update_idempotent(s: Seq<CertificateV>, c: CertificateV)
    requires
        store_wf(s),
    ensures
        store_update(store_update(s, c), c) =~= store_update(s, c),
{
    lemma_store_update_wf(s, c);
    let s1 = store_update(s, c);
    let i1 = fpr_index(s1, c.fingerprint);
    assert(0 <= i1 < s1.len() && s1[i1].fingerprint == c.fingerprint) by {
        assert(has_fpr(s1, c.fingerprint));
    }
    if has_fpr(s, c.fingerprint) {
        let i = fpr_index(s, c.fingerprint);
        assert(0 <= i < s.len() && s[i].fingerprint == c.fingerprint);
        assert(s1[i].fingerprint == c.fingerprint) by {
            crate::cert::lemma_merge_cert_idempotent(s[i], c);
        }
        assert(i1 == i) by {
            if i1 != i {
                assert(s1[i1] == s[i1]);
                assert(s[i1].fingerprint == s[i].fingerprint);
            }
        }
        crate::cert::lemma_merge_cert_idempotent(s[i], c);
        assert(store_update(s1, c) =~= s1);
    } else {
        let n = s.len() as int;
        assert(s1[n].fingerprint == c.fingerprint);
        assert(i1 == n) by {
            if i1 != n {
                assert(s1[i1] == s[i1]);
                assert(has_fpr(s, c.fingerprint));
            }
        }
        assert(s1[n] == strip_secret_v(c));
        lemma_merge_seq_subsumed(c.user_ids, c.user_ids);
        lemma_merge_seq_subsumed(c.subkeys, c.subkeys);
        lemma_merge_seq_subsumed(c.certifications, c.certifications);
        assert(merge_cert(strip_secret_v(c), c) =~= strip_secret_v(c));
        assert(store_update(s1, c) =~= s1);
    }
}

/// The position in `certs` of the certificate carrying `fpr`, if any.
pub fn find_cert(certs: &Vec<Certificate>, fpr: &String) -> (r: Option<usize>)
    requires
        store_wf(certs.deep_view()),
    ensures
        match r {
            Some(i) => i < certs.deep_view().len() && certs.deep_view()[i as int].fingerprint
                == fpr@ && i as int == fpr_index(certs.deep_view(), fpr@),
            None => !has_fpr(certs.deep_view(), fpr@),
        },
{
    let ghost s = certs.deep_view();
    let mut i: usize = 0;
    while i < certs.len()
        invariant
            store_wf(s),
            s == certs.deep_view(),
            i <= certs@.len(),
            forall|j: int| 0 <= j < i ==> s[j].fingerprint != fpr@,
        decreases certs@.len() - i,
    {
        proof {
            assert(s[i as int] == certs@[i as int].deep_view());
        }
        if certs[i].fingerprint.eq(fpr) {
            proof {
                let k = fpr_index(s, fpr@);
                assert(has_fpr(s, fpr@)) by {
                    assert(s[i as int].fingerprint == fpr@);
                }
                assert(0 <= k < s.len() && s[k].fingerprint == fpr@);
                if k != i as int {
                    assert(s[k].fingerprint == s[i as int].fingerprint);
                }
            }
            return Some(i);
        }
        i += 1;
    }
    None
}

/// The in-memory certificate store.  The `certs` field is the
/// authoritative set; its fingerprints are unique whenever `wf` holds.
pub struct MutStore {
    pub certs: Vec<Certificate>,
}

impl MutStore {
    /// The mathematical contents of the store.
    pub open spec fn view_certs(&self) -> Seq<CertificateV> {
        self.certs.deep_view()
    }

    /// Store invariant: one certificate per fingerprint, and no secret
    /// material in the store.
    pub open spec fn wf(&self) -> bool {
        store_wf(self.view_certs()) && store_public(self.view_certs())
    }

    /// An empty store.
    pub fn new() -> (r: MutStore)
        ensures
            r.wf(),
            r.view_certs() == Seq::<CertificateV>::empty(),
    {
        let r = MutStore { certs: Vec::new() };
        proof {
            assert(r.view_certs() =~= Seq::<CertificateV>::empty());
        }
        r
    }

    /// An empty store not backed by any durable directory.
    pub fn new_in_memory() -> (r: MutStore)
        ensures
            r.wf(),
            r.view_certs() == Seq::<CertificateV>::empty(),
    {
        MutStore::new()
    }

    /// The position of the certificate carrying `fpr`, if any.
    pub fn find_index(&self, fpr: &String) -> (r: Option<usize>)
        requires
            self.wf(),
        ensures
            match r {
                Some(i) => i < self.view_certs().len()
                    && self.view_certs()[i as int].fingerprint == fpr@ && i as int == fpr_index(
                    self.view_certs(),
                    fpr@,
                ),
                None => !has_fpr(self.view_certs(), fpr@),
            },
    {
        find_cert(&self.certs, fpr)
    }

    /// Merge a new or updated certificate into the store: insert it if
    /// its fingerprint is new, otherwise take the append-only union with
    /// the certificate already present.
    pub fn update(&mut self, cert: Certificate)
        requires
            old(self).wf(),
        ensures
            final(self).wf(),
            final(self).view_certs() == store_update(old(self).view_certs(), cert.deep_view()),
    {
        proof {
            lemma_store_update_wf(self.view_certs(), cert.deep_view());
        }
        let ghost s0 = self.view_certs();
        match self.find_index(&cert.fingerprint) {
            Some(i) => {
                let slot = &mut self.certs[i];
                slot.merge_from(&cert);
                proof {
                    assert(self.view_certs() =~= s0.update(
                        i as int,
                        merge_cert(s0[i as int], cert.deep_view()),
                    ));
                    assert(self.view_certs() =~= store_update(s0, cert.deep_view()));
                }
            },
            None => {
                let ghost cv = cert.deep_view();
                let mut stub = cert;
                stub.secret = None;
                proof {
                    assert(stub.deep_view() =~= strip_secret_v(cv));
                }
                self.certs.push(stub);
                proof {
                    assert(self.view_certs() =~= s0.push(strip_secret_v(cv)));
                    assert(self.view_certs() =~= store_update(s0, cv));
                }
            },
        }
    }

    /// Fetch the certificate carrying `fpr`, or `NotFound`.
    pub fn lookup_by_cert_fpr(&self, fpr: &String) -> (r: Result<Certificate, InternalErr>)
        requires
            self.wf(),
        ensures
            match r {
                Ok(c) => has_fpr(self.view_certs(), fpr@) && c.deep_view() == cert_with_fpr(
                    self.view_certs(),
                    fpr@,
                ),
                Err(e) => !has_fpr(self.view_certs(), fpr@) && e matches InternalErr::NotFound(_),
            },
    {
        match self.find_index(fpr) {
            Some(i) => Ok(self.certs[i].clone()),
            None => Err(InternalErr::NotFound("no certificate with this fingerprint")),
        }
    }

    /// All fingerprints currently stored, in store order.
    pub fn fingerprints(&self) -> (r: Vec<String>)
        ensures
            r.deep_view().len() == self.view_certs().len(),
            forall|i: int|
                0 <= i < r.deep_view().len() ==> r.deep_view()[i] == self.view_certs()[
                i].fingerprint,
    {
        let mut out: Vec<String> = Vec::new();
        let mut i: usize = 0;
        while i < self.certs.len()
            invariant
                i <= self.certs@.len(),
                out.deep_view().len() == i,
                forall|j: int|
                    0 <= j < i ==> out.deep_view()[j] == self.view_certs()[j].fingerprint,
            decreases self.certs@.len() - i,
        {
            let ghost opre = out.deep_view();
            out.push(self.certs[i].fingerprint.clone());
            proof {
                assert(self.view_certs()[i as int] == self.certs@[i as int].deep_view());
                assert(out.deep_view() =~= opre.push(self.certs@[i as int].fingerprint@));
            }
            i += 1;
        }
        out
    }

    /// Remove the certificate carrying `fpr`; `NotFound` if absent.
    pub fn delete_fingerprint(&mut self, fpr: &String) -> (r: Result<(), InternalErr>)
        requires
            old(self).wf(),
        ensures
            final(self).wf(),
            !has_fpr(final(self).view_certs(), fpr@),
            match r {
                Ok(()) => has_fpr(old(self).view_certs(), fpr@) && final(self).view_certs()
                    =~= old(self).view_certs().remove(fpr_index(old(self).view_certs(), fpr@)),
                Err(e) => !has_fpr(old(self).view_certs(), fpr@) && *final(self) == *old(self)
                    && e matches InternalErr::NotFound(_),
            },
    {
        let ghost s0 = self.view_certs();
        match self.find_index(fpr) {
            Some(i) => {
                self.certs.remove(i);
                proof {
                    assert(self.view_certs() =~= s0.remove(i as int));
                    assert forall|a: int, b: int|
                        0 <= a < b < self.view_certs().len() implies self.view_certs()[
                    a].fingerprint != self.view_certs()[b].fingerprint by {
                        let sa = if a < i as int { a } else { a + 1 };
                        let sb = if b < i as int { b } else { b + 1 };
                        assert(self.view_certs()[a] == s0[sa]);
                        assert(self.view_certs()[b] == s0[sb]);
                    }
                    assert forall|j: int| 0 <= j < self.view_certs().len()
                        implies self.view_certs()[j].fingerprint != fpr@ by {
                        let sj = if j < i as int { j } else { j + 1 };
                        assert(self.view_certs()[j] == s0[sj]);
                        if s0[sj].fingerprint == fpr@ {
                            assert(s0[i as int].fingerprint == fpr@);
                        }
                    }
                }
                Ok(())
            },
            None => Err(InternalErr::NotFound("no certificate with this fingerprint")),
        }
    }

    /// The "mega flush": discard the in-memory cache and replace it with
    /// the contents re-read from the source of truth, folding every
    /// certificate in through the merge policy so that fingerprints stay
    /// unique.  All-or-nothing: the caller hands the fresh contents in as
    /// a whole.
    pub fn mega_flush(&mut self, fresh: Vec<Certificate>)
        ensures
            final(self).wf(),
            final(self).view_certs() == store_load(fresh.deep_view()),
    {
        self.certs = Vec::new();
        proof {
            assert(self.view_certs() =~= Seq::<CertificateV>::empty());
        }
        let mut i: usize = 0;
        while i < fresh.len()
            invariant
                i <= fresh@.len(),
                self.wf(),
                self.view_certs() == store_load(fresh.deep_view().subrange(0, i as int)),
            decreases fresh@.len() - i,
        {
            let ghost pre = fresh.deep_view().subrange(0, i as int);
            proof {
                assert(fresh.deep_view()[i as int] == fresh@[i as int].deep_view());
                assert(fresh.deep_view().subrange(0, i + 1).drop_last() =~= pre);
                assert(fresh.deep_view().subrange(0, i + 1).last() == fresh.deep_view()[i as int]);
            }
            self.update(fresh[i].clone());
            i += 1;
        }
        proof {
            assert(fresh.deep_view().subrange(0, fresh@.len() as int) =~= fresh.deep_view());
        }
    }
}

/// Folding a freshly read sequence of certificates into an empty store.
pub open spec fn store_load(s: Seq<CertificateV>) -> Seq<CertificateV>
    decreases s.len(),
{
    if s.len() == 0 {
        Seq::empty()
    } else {
        store_update(store_load(s.drop_last()), s.last())
    }
}

/// Folding a sequence of incoming certificates into an existing store.
pub open spec fn store_add_all(s: Seq<CertificateV>, incoming: Seq<CertificateV>) -> Seq<
    CertificateV,
>
    decreases incoming.len(),
{
    if incoming.len() == 0 {
        s
    } else {
        store_update(store_add_all(s, incoming.drop_last()), incoming.last())
    }
}

/// The store dressed for serialization: certificates go out through the
/// verified wire format and come back in through the monotonic merge.
pub struct PgpServiceStore {
    pub store: MutStore,
}

impl PgpServiceStore {
    /// Take ownership of a store.
    pub fn new(store: MutStore) -> (r: PgpServiceStore)
        ensures
            r.store == store,
    {
        PgpServiceStore { store }
    }

    /// Serialize every stored certificate's public core.
    pub fn export_bytes(&self) -> (r: Result<Vec<u8>, InternalErr>)
        ensures
            crate::codec::certs_encodable(self.store.view_certs()) ==> r is Ok,
            r matches Ok(b) ==> crate::codec::certs_encodable(self.store.view_certs()) && b@
                == crate::codec::enc_certs(self.store.view_certs()),
            r is Err ==> r matches Err(InternalErr::Generic(_)),
    {
        crate::codec::encode_certs(&self.store.certs)
    }

    /// Parse a serialized certificate set and merge every certificate
    /// into the store; `ParseError` on malformed bytes, and then the
    /// store is untouched.
    pub fn import_bytes(&mut self, bytes: &Vec<u8>) -> (r: Result<(), InternalErr>)
        requires
            old(self).store.wf(),
        ensures
            final(self).store.wf(),
            match r {
                Ok(()) => crate::codec::dec_certs(bytes@) matches Some(cs)
                    && final(self).store.view_certs() == store_add_all(
                    old(self).store.view_certs(),
                    cs,
                ),
                Err(e) => crate::codec::dec_certs(bytes@) is None && (e
                    matches InternalErr::ParseError) && *final(self) == *old(self),
            },
    {
        let incoming = match crate::codec::decode_certs(bytes) {
            Ok(cs) => cs,
            Err(_) => {
                return Err(InternalErr::ParseError);
            },
        };
        let ghost csv = incoming.deep_view();
        let ghost s0 = self.store.view_certs();
        let mut i: usize = 0;
        while i < incoming.len()
            invariant
                i <= incoming@.len(),
                csv == incoming.deep_view(),
                self.store.wf(),
                self.store.view_certs() == store_add_all(s0, csv.subrange(0, i as int)),
            decreases incoming@.len() - i,
        {
            proof {
                assert(csv[i as int] == incoming@[i as int].deep_view());
                assert(csv.subrange(0, i + 1).drop_last() =~= csv.subrange(0, i as int));
                assert(csv.subrange(0, i + 1).last() == csv[i as int]);
            }
            self.store.update(incoming[i].clone());
            i += 1;
        }
        proof {
            assert(csv.subrange(0, incoming@.len() as int) =~= csv);
        }
        Ok(())
    }
}

} // verus!
