//! Issuing certifications: one owned identity vouches for another with a
//! caller-chosen trust level and delegation depth.
//!
//! `PgpApp` composes the certificate store and the secret vault.  A
//! usable, secret-bearing certificate is always a transient merge of the
//! two (`materialize`); signing requires it, appends the new
//! certification to the target through the store's monotonic merge, and
//! leaves notification to the edge of the system.

use vstd::prelude::*;

use crate::cert::{lemma_merge_seq_contains, merge_cert, merge_seq, Certificate, Certification};
use crate::store::{cert_with_fpr, fpr_index, has_fpr, store_update, MutStore};
use crate::vault::{vault_has, vault_index, SecretVault};
use crate::wot::cert_edge_amount;
use crate::InternalErr;

verus! {

/// The caller-facing trust levels, mapped to canonical byte amounts.
#[derive(Debug, Clone, Copy)]
pub enum TrustLevel {
    Ultimate,
    Full,
    Partial,
    Custom(u8),
}

/// The canonical numeric amount of a trust level: ultimate is twice
/// full trust, full is 120, partial is 60, and custom amounts pass
/// through unchanged.
pub open spec fn trust_amount_of(level: TrustLevel) -> u8 {
    match level {
        TrustLevel::Ultimate => 240,
        TrustLevel::Full => 120,
        TrustLevel::Partial => 60,
        TrustLevel::Custom(v) => v,
    }
}

impl TrustLevel {
    /// The numeric trust amount carried by certifications at this level.
    pub fn get_trust(&self) -> (r: u8)
        ensures
            r == trust_amount_of(*self),
    {
        match self {
            TrustLevel::Ultimate => 240,
            TrustLevel::Full => 120,
            TrustLevel::Partial => 60,
            TrustLevel::Custom(v) => *v,
        }
    }
}

/// The composition of the public certificate store and the private
/// vault.
pub struct PgpApp {
    pub store: MutStore,
    pub vault: SecretVault,
}

impl PgpApp {
    /// Both halves keep their invariants.
    pub open spec fn wf(&self) -> bool {
        self.store.wf() && self.vault.wf()
    }

    /// An empty application state.
    pub fn new() -> (r: PgpApp)
        ensures
            r.wf(),
            r.store.view_certs() == Seq::<crate::cert::CertificateV>::empty(),
            r.vault.view_rows() == Seq::<crate::vault::SecretRecordV>::empty(),
    {
        PgpApp { store: MutStore::new(), vault: SecretVault::new() }
    }

    /// The transient, secret-bearing certificate for `fpr`: the public
    /// certificate from the store merged with the private blob from the
    /// vault.  Fails with `NotFound` when either half is missing; a
    /// certificate with no vault row is a pure stub and cannot be
    /// materialized.
    pub fn materialize(&self, fpr: &String) -> (r: Result<Certificate, InternalErr>)
        requires
            self.wf(),
        ensures
            match r {
                Ok(c) => {
                    &&& has_fpr(self.store.view_certs(), fpr@)
                    &&& vault_has(self.vault.view_rows(), fpr@)
                    &&& c.deep_view() == crate::cert::CertificateV {
                        secret: Some(
                            self.vault.view_rows()[vault_index(self.vault.view_rows(), fpr@)].cert.data,
                        ),
                        ..cert_with_fpr(self.store.view_certs(), fpr@)
                    }
                    &&& c.deep_view().secret is Some
                },
                Err(e) => (!has_fpr(self.store.view_certs(), fpr@) || !vault_has(
                    self.vault.view_rows(),
                    fpr@,
                )) && e matches InternalErr::NotFound(_),
            },
    {
        let mut cert = match self.store.lookup_by_cert_fpr(fpr) {
            Ok(c) => c,
            Err(_) => {
                return Err(InternalErr::NotFound("no certificate with this fingerprint"));
            },
        };
        let row = match self.vault.get_by_fingerprint(fpr) {
            Ok(c) => c,
            Err(_) => {
                return Err(InternalErr::NotFound("no private key for this fingerprint"));
            },
        };
        cert.secret = Some(row.data);
        Ok(cert)
    }

    /// Register a freshly generated key pair: the public portion enters
    /// the store through the monotonic merge, the private blob enters
    /// the vault keyed by the same fingerprint.  This is the only path
    /// by which a new fingerprint enters the system.
    pub fn register_generated(
        &mut self,
        public: Certificate,
        secret_blob: Vec<u8>,
        online: bool,
    ) -> (r: Result<(), InternalErr>)
        requires
            old(self).wf(),
            public.secret is None,
        ensures
            final(self).wf(),
            r is Ok,
            final(self).store.view_certs() == store_update(
                old(self).store.view_certs(),
                public.deep_view(),
            ),
            has_fpr(final(self).store.view_certs(), public.deep_view().fingerprint),
            vault_has(final(self).vault.view_rows(), public.deep_view().fingerprint),
            final(self).vault.view_rows() == ({
                let row = generated_row(public.deep_view(), secret_blob@, online);
                if vault_has(old(self).vault.view_rows(), public.deep_view().fingerprint) {
                    old(self).vault.view_rows().update(
                        vault_index(
                            old(self).vault.view_rows(),
                            public.deep_view().fingerprint,
                        ),
                        row,
                    )
                } else {
                    old(self).vault.view_rows().push(row)
                }
            }),
    {
        let ghost pv = public.deep_view();
        let ghost fprv = public.deep_view().fingerprint;
        let row = crate::vault::SecretRecord {
            cert: crate::vault::DbCert {
                keyid: public.keyid.clone(),
                fingerprint: public.fingerprint.clone(),
                data: secret_blob,
                has_private: true,
            },
            role: None,
            online,
        };
        proof {
            assert(row.deep_view().cert.fingerprint == fprv);
            assert(row.deep_view() =~= generated_row(public.deep_view(), secret_blob@, online));
        }
        self.store.update(public);
        proof {
            crate::store::lemma_store_update_wf(old(self).store.view_certs(), pv);
        }
        let insert_result = self.vault.insert_on_conflict(row, crate::vault::OnConflict::Update);
        proof {
            assert(insert_result is Ok);
            assert(vault_has(self.vault.view_rows(), fprv));
        }
        Ok(())
    }

    /// Issue a certification: the signer's materialized certificate
    /// vouches for the target's primary identity with the given
    /// delegation depth and trust level.  The new packet joins the
    /// target certificate through the append-only merge.
    pub fn sign_with_trust_level(
        &mut self,
        signer: &String,
        signee: &String,
        level: u8,
        trust: TrustLevel,
    ) -> (r: Result<(), InternalErr>)
        requires
            old(self).wf(),
        ensures
            final(self).wf(),
            match r {
                Ok(()) => {
                    &&& has_fpr(old(self).store.view_certs(), signer@)
                    &&& has_fpr(old(self).store.view_certs(), signee@)
                    &&& vault_has(old(self).vault.view_rows(), signer@)
                    &&& cert_with_fpr(old(self).store.view_certs(), signee@).user_ids.len() > 0
                    &&& final(self).vault == old(self).vault
                    &&& final(self).store.view_certs() == store_update(
                        old(self).store.view_certs(),
                        signing_delta(old(self).store.view_certs(), signer@, signee@, level,
                        trust),
                    )
                    &&& has_fpr(final(self).store.view_certs(), signee@)
                    &&& cert_with_fpr(final(self).store.view_certs(), signee@).user_ids
                        == cert_with_fpr(old(self).store.view_certs(), signee@).user_ids
                    &&& crate::wot::cert_edge(final(self).store.view_certs(), signer@, signee@)
                    &&& (trust_amount_of(trust) > 0 ==> cert_edge_amount(
                        final(self).store.view_certs(),
                        signer@,
                        signee@,
                        trust_amount_of(trust),
                    ))
                },
                Err(e) => {
                    &&& *final(self) == *old(self)
                    &&& e matches InternalErr::NotFound(_)
                    &&& !(has_fpr(old(self).store.view_certs(), signer@) && has_fpr(
                        old(self).store.view_certs(),
                        signee@,
                    ) && vault_has(old(self).vault.view_rows(), signer@) && cert_with_fpr(
                        old(self).store.view_certs(),
                        signee@,
                    ).user_ids.len() > 0)
                },
            },
    {
        let ghost s0 = self.store.view_certs();
        // The signer must exist publicly and carry private capability.
        let signer_idx = match self.store.find_index(signer) {
            Some(i) => i,
            None => {
                return Err(InternalErr::NotFound("no certificate with this fingerprint"));
            },
        };
        if self.materialize(signer).is_err() {
            return Err(InternalErr::NotFound("no private key for this fingerprint"));
        }
        // The target must exist and carry a primary identity to bind.
        let signee_idx = match self.store.find_index(signee) {
            Some(i) => i,
            None => {
                return Err(InternalErr::NotFound("no certificate with this fingerprint"));
            },
        };
        proof {
            assert(s0[signee_idx as int] == self.store.certs@[signee_idx as int].deep_view());
        }
        if self.store.certs[signee_idx].user_ids.len() == 0 {
            return Err(InternalErr::NotFound("target has no user identity"));
        }
        let amount = trust.get_trust();
        let packet = Certification {
            issuer: signer.clone(),
            target: signee.clone(),
            amount,
            depth: level,
        };
        let delta = Certificate {
            fingerprint: signee.clone(),
            keyid: String::new(),
            key_material: Vec::new(),
            user_ids: Vec::new(),
            subkeys: Vec::new(),
            certifications: vec_of_one(packet),
            secret: None,
        };
        proof {
            assert(delta.deep_view() =~= signing_delta(s0, signer@, signee@, level, trust));
        }
        self.store.update(delta);
        proof {
            let s1 = self.store.view_certs();
            let dv = signing_delta(s0, signer@, signee@, level, trust);
            let i = fpr_index(s0, signee@);
            assert(has_fpr(s0, dv.fingerprint));
            assert(0 <= i < s0.len() && s0[i].fingerprint == signee@);
            assert(s1 == s0.update(i, merge_cert(s0[i], dv)));
            let m = merge_cert(s0[i], dv);
            let c = dv.certifications[0];
            assert(m.certifications == merge_seq(s0[i].certifications, dv.certifications));
            lemma_merge_seq_contains(s0[i].certifications, dv.certifications, c);
            assert(dv.certifications.contains(c)) by {
                assert(dv.certifications[0] == c);
            }
            assert(m.certifications.contains(c));
            let j = choose|j: int| 0 <= j < m.certifications.len() && m.certifications[j] == c;
            assert(crate::wot::cert_edge(s1, signer@, signee@)) by {
                assert(s1[i].certifications[j].issuer == signer@ && s1[i].certifications[
                j].target == signee@);
            }
            if trust_amount_of(trust) > 0 {
                assert(cert_edge_amount(s1, signer@, signee@, trust_amount_of(trust))) by {
                    assert(s1[i].certifications[j].issuer == signer@ && s1[i].certifications[
                    j].target == signee@ && s1[i].certifications[j].amount >= trust_amount_of(
                        trust,
                    ) && s1[i].certifications[j].amount > 0);
                }
            }
            crate::store::lemma_store_update_wf(s0, dv);
            assert(has_fpr(s1, signee@));
            let i1 = fpr_index(s1, signee@);
            assert(0 <= i1 < s1.len() && s1[i1].fingerprint == signee@);
            assert(i1 == i) by {
                if i1 != i {
                    assert(s1[i1] == s0[i1]);
                    assert(s0[i1].fingerprint == s0[i].fingerprint);
                }
            }
            assert(cert_with_fpr(s1, signee@).user_ids == cert_with_fpr(s0, signee@).user_ids)
                by {
                assert(m.user_ids == merge_seq(s0[i].user_ids, dv.user_ids));
                assert(m.user_ids == s0[i].user_ids);
                assert(cert_with_fpr(s0, signee@) == s0[i]) by {
                    let iz = fpr_index(s0, signee@);
                    if iz != i {
                        assert(s0[iz].fingerprint == s0[i].fingerprint);
                    }
                }
            }
        }
        Ok(())
    }
}

/// The vault row a freshly generated key pair leaves behind: the
/// private blob keyed by the public fingerprint, no role, the caller's
/// online flag.
pub open spec fn generated_row(
    public: crate::cert::CertificateV,
    blob: Seq<u8>,
    online: bool,
) -> crate::vault::SecretRecordV {
    crate::vault::SecretRecordV {
        cert: crate::vault::DbCertV {
            keyid: public.keyid,
            fingerprint: public.fingerprint,
            data: blob,
            has_private: true,
        },
        role: None,
        online,
    }
}

/// The certificate-shaped delta that `sign_with_trust_level` merges into
/// the store: the target's fingerprint carrying exactly the new
/// certification packet.
pub open spec fn signing_delta(
    s: Seq<crate::cert::CertificateV>,
    signer: Seq<char>,
    signee: Seq<char>,
    level: u8,
    trust: TrustLevel,
) -> crate::cert::CertificateV {
    crate::cert::CertificateV {
        fingerprint: signee,
        keyid: Seq::empty(),
        key_material: Seq::empty(),
        user_ids: Seq::empty(),
        subkeys: Seq::empty(),
        certifications: seq![
            crate::cert::CertificationV {
                issuer: signer,
                target: signee,
                amount: trust_amount_of(trust),
                depth: level,
            },
        ],
        secret: None,
    }
}

/// After a certification with positive amount lands on a target that
/// carries an identity, a network rooted at the signer alone
/// authenticates the target: the updated snapshot holds the direct
/// edge, the target still has its identity, and the signer qualifies as
/// a root, which by the authenticate contract yields positive trust and
/// the rendered signer-to-target edge.
pub proof fn lemma_certified_target_authenticates(
    s0: Seq<crate::cert::CertificateV>,
    signer: Seq<char>,
    signee: Seq<char>,
    level: u8,
    trust: TrustLevel,
)
    requires
        crate::store::store_wf(s0),
        has_fpr(s0, signee),
        cert_with_fpr(s0, signee).user_ids.len() > 0,
        trust_amount_of(trust) > 0,
    ensures
        ({
            let s1 = store_update(s0, signing_delta(s0, signer, signee, level, trust));
            &&& cert_edge_amount(s1, signer, signee, 1)
            &&& has_fpr(s1, signee)
            &&& cert_with_fpr(s1, signee).user_ids.len() > 0
            &&& crate::wot::some_root_qualifies(s1, seq![signer], signee)
        }),
{
    let dv = signing_delta(s0, signer, signee, level, trust);
    let s1 = store_update(s0, dv);
    let i = fpr_index(s0, signee);
    assert(0 <= i < s0.len() && s0[i].fingerprint == signee);
    assert(s1 == s0.update(i, merge_cert(s0[i], dv)));
    let m = merge_cert(s0[i], dv);
    let c = dv.certifications[0];
    assert(m.certifications == merge_seq(s0[i].certifications, dv.certifications));
    lemma_merge_seq_contains(s0[i].certifications, dv.certifications, c);
    assert(dv.certifications.contains(c)) by {
        assert(dv.certifications[0] == c);
    }
    assert(m.certifications.contains(c));
    let j = choose|j: int| 0 <= j < m.certifications.len() && m.certifications[j] == c;
    assert(cert_edge_amount(s1, signer, signee, 1)) by {
        assert(s1[i].certifications[j].issuer == signer && s1[i].certifications[j].target
            == signee && s1[i].certifications[j].amount >= 1 && s1[i].certifications[j].amount
            > 0);
    }
    crate::store::lemma_store_update_wf(s0, dv);
    assert(has_fpr(s1, signee));
    let i1 = fpr_index(s1, signee);
    assert(0 <= i1 < s1.len() && s1[i1].fingerprint == signee);
    assert(i1 == i) by {
        if i1 != i {
            assert(s1[i1] == s0[i1]);
            assert(s0[i1].fingerprint == s0[i].fingerprint);
        }
    }
    assert(cert_with_fpr(s1, signee).user_ids == cert_with_fpr(s0, signee).user_ids) by {
        assert(m.user_ids == merge_seq(s0[i].user_ids, dv.user_ids));
        assert(m.user_ids == s0[i].user_ids);
        assert(cert_with_fpr(s0, signee) == s0[i]) by {
            let iz = fpr_index(s0, signee);
            if iz != i {
                assert(s0[iz].fingerprint == s0[i].fingerprint);
            }
        }
    }
    assert(crate::wot::some_root_qualifies(s1, seq![signer], signee)) by {
        assert(seq![signer][0] == signer);
        assert(crate::wot::root_qualifies(s1, seq![signer][0], signee));
    }
}

/// A one-element vector.
fn vec_of_one(c: Certification) -> (r: Vec<Certification>)
    ensures
        r.deep_view() =~= seq![c.deep_view()],
{
    let mut r: Vec<Certification> = Vec::new();
    r.push(c);
    proof {
        assert(r.deep_view() =~= seq![r@[0].deep_view()]);
    }
    r
}

} // verus!
