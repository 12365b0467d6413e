//! Caller-facing certificate descriptors: lightweight summaries of
//! stored certificates, built from decoded bytes and from the store's
//! certification graph.

use vstd::prelude::*;

use crate::cert::{Certificate, CertificateV, Certification, CertificationV};
use crate::handle::{KeyHandle, UserHandle};
use crate::sign::PgpApp;
use crate::store::{cert_with_fpr, has_fpr};
use crate::InternalErr;

verus! {

/// Paths to the durable stores; nothing set means in-memory only.
#[derive(Debug)]
pub struct Config {
    pub keystore_path: Option<String>,
    pub db_path: Option<String>,
}

impl Config {
    /// A configuration with no durable backing.
    pub fn new() -> (r: Config)
        ensures
            r.keystore_path is None,
            r.db_path is None,
    {
        Config { keystore_path: None, db_path: None }
    }
}

/// A signature checker supplied by the caller.
pub trait Verifier {
    fn verify(&self, data: Vec<u8>) -> bool;
}

/// The outcome of checking a received payload: who signed it, the
/// decoded content if any, the key it carried, and whether the signer is
/// only a stub locally.
#[derive(Debug)]
pub struct VerifyResult {
    pub fingerprints: Vec<String>,
    pub content: Option<QrCodeContent>,
    pub key: Option<PgpCertWithIds>,
    pub is_stub: bool,
}

/// The payload a visual code carries.
#[derive(Debug)]
pub struct QrCodeContent {
    pub resource: String,
    pub handle: Option<String>,
    pub description: Option<String>,
}

/// A visual-code frame: the signed content, and optionally a full key.
#[derive(Debug)]
pub struct QrCodeKey {
    pub content: Vec<u8>,
    pub fullkey: Option<Vec<u8>>,
}

/// A compact certificate descriptor.
#[derive(Debug)]
pub struct PgpCert {
    pub keyid: String,
    pub fingerprint: UserHandle,
    pub has_private: bool,
    pub online: bool,
}

/// A reference to a certificate that may or may not be held locally:
/// the full descriptor when it is, its bare fingerprint text when not.
#[derive(Debug)]
pub enum MaybeCert {
    Full { cert: PgpCertWithIds },
    Fingerprint { fpr: String },
}

/// A certificate descriptor with its identity labels and the resolved
/// issuers of the signatures on it.
#[derive(Debug)]
pub struct PgpCertWithIds {
    pub cert: PgpCert,
    pub ids: Vec<String>,
    pub sigs: Vec<MaybeCert>,
    pub certifications: Vec<MaybeCert>,
}

/// A certificate descriptor with its signature issuers as bare
/// fingerprint texts.
#[derive(Debug)]
pub struct PgpCertStubSigs {
    pub cert: PgpCert,
    pub ids: Vec<String>,
    pub sigs: Vec<String>,
    pub certifications: Vec<String>,
}

/// A summary of one certificate for trust computations.
#[derive(Debug)]
pub struct CertSynopsis {
    pub fingerprint: String,
    pub keyid: String,
    pub key_handle: KeyHandle,
    pub revoked: bool,
    pub userids: Vec<String>,
}

/// The certifications one issuer has placed on one target, grouped by
/// the identity label they bind.
#[derive(Debug)]
pub struct CertificationSet {
    pub issuer: String,
    pub target: String,
    pub certifications: Vec<(Option<String>, Vec<Certification>)>,
}

/// The descriptor of a decoded certificate.
fn cert_descriptor(c: &Certificate) -> (r: Result<PgpCert, InternalErr>)
    ensures
        match r {
            Ok(p) => crate::handle::hex_to_bytes(c.fingerprint@) == Some(
                p.fingerprint.bytes_view(),
            ) && p.keyid@ == c.keyid@ && p.has_private == (c.secret is Some) && !p.online,
            Err(e) => crate::handle::hex_to_bytes(c.fingerprint@) is None && e
                matches InternalErr::ParseError,
        },
{
    let handle = match UserHandle::from_hex(c.fingerprint.as_str()) {
        Ok(h) => h,
        Err(_) => {
            return Err(InternalErr::ParseError);
        },
    };
    Ok(
        PgpCert {
            keyid: c.keyid.clone(),
            fingerprint: handle,
            has_private: c.secret.is_some(),
            online: false,
        },
    )
}

/// The certifications of `cs` that target `fpr`, in order.
pub open spec fn certs_targeting(cs: Seq<CertificationV>, fpr: Seq<char>) -> Seq<CertificationV>
    decreases cs.len(),
{
    if cs.len() == 0 {
        Seq::empty()
    } else {
        let rest = certs_targeting(cs.drop_last(), fpr);
        if cs.last().target == fpr {
            rest.push(cs.last())
        } else {
            rest
        }
    }
}

/// Every certification in the snapshot targeting `fpr`, in store order.
pub open spec fn store_targeting(s: Seq<CertificateV>, fpr: Seq<char>) -> Seq<CertificationV>
    decreases s.len(),
{
    if s.len() == 0 {
        Seq::empty()
    } else {
        store_targeting(s.drop_last(), fpr) + certs_targeting(s.last().certifications, fpr)
    }
}

impl crate::store::MutStore {
    /// All certifications in the store that target `fpr`.
    #[verifier::loop_isolation(false)]
    pub fn certifications_of(&self, fpr: &String) -> (r: Vec<Certification>)
        ensures
            r.deep_view() == store_targeting(self.view_certs(), fpr@),
    {
        let ghost s = self.view_certs();
        let mut out: Vec<Certification> = Vec::new();
        let mut i: usize = 0;
        proof {
            assert(out.deep_view() =~= store_targeting(s.subrange(0, 0), fpr@));
        }
        while i < self.certs.len()
            invariant
                i <= self.certs@.len(),
                s == self.view_certs(),
                out.deep_view() == store_targeting(s.subrange(0, i as int), fpr@),
            decreases self.certs@.len() - i,
        {
            let ghost ci = s[i as int];
            proof {
                assert(ci == self.certs@[i as int].deep_view());
            }
            let cert = &self.certs[i];
            let mut j: usize = 0;
            proof {
                assert(out.deep_view() + certs_targeting(
                    ci.certifications.subrange(0, 0),
                    fpr@,
                ) =~= out.deep_view());
            }
            let ghost o_enter = out.deep_view();
            while j < cert.certifications.len()
                invariant
                    j <= cert.certifications@.len(),
                    ci == self.certs@[i as int].deep_view(),
                    out.deep_view() == o_enter + certs_targeting(
                        ci.certifications.subrange(0, j as int),
                        fpr@,
                    ),
                decreases cert.certifications@.len() - j,
            {
                let ghost pre = ci.certifications.subrange(0, j as int);
                proof {
                    assert(ci.certifications[j as int] == cert.certifications@[
                    j as int].deep_view());
                    assert(ci.certifications.subrange(0, j + 1).drop_last() =~= pre);
                    assert(ci.certifications.subrange(0, j + 1).last() == ci.certifications[
                    j as int]);
                }
                let edge = &cert.certifications[j];
                if edge.target.eq(fpr) {
                    let ghost o_old = out.deep_view();
                    out.push(edge.clone());
                    proof {
                        assert(out.deep_view() =~= o_old.push(ci.certifications[j as int]));
                    }
                }
                j += 1;
            }
            proof {
                assert(ci.certifications.subrange(0, cert.certifications@.len() as int)
                    =~= ci.certifications);
                assert(s.subrange(0, i + 1).drop_last() =~= s.subrange(0, i as int));
                assert(s.subrange(0, i + 1).last() == ci);
            }
            i += 1;
        }
        proof {
            assert(s.subrange(0, self.certs@.len() as int) =~= s);
        }
        out
    }
}

/// The issuer texts of a certification list.
fn issuer_names(cs: &Vec<Certification>) -> (r: Vec<String>)
    ensures
        r.deep_view().len() == cs.deep_view().len(),
        forall|k: int|
            0 <= k < r.deep_view().len() ==> r.deep_view()[k] == cs.deep_view()[k].issuer,
{
    let mut out: Vec<String> = Vec::new();
    let mut i: usize = 0;
    while i < cs.len()
        invariant
            i <= cs@.len(),
            out.deep_view().len() == i,
            forall|k: int| 0 <= k < i ==> out.deep_view()[k] == cs.deep_view()[k].issuer,
        decreases cs@.len() - i,
    {
        let ghost o_old = out.deep_view();
        out.push(cs[i].issuer.clone());
        proof {
            assert(cs.deep_view()[i as int] == cs@[i as int].deep_view());
            assert(out.deep_view() =~= o_old.push(cs@[i as int].issuer@));
        }
        i += 1;
    }
    out
}

impl PgpCertStubSigs {
    /// Decode a certificate and summarize it without resolving issuers:
    /// the handle and identity labels come straight from the decoded
    /// record, and no issuers are listed.
    pub fn from_bytes(bytes: Vec<u8>) -> (r: Result<PgpCertStubSigs, InternalErr>)
        ensures
            match r {
                Ok(p) => crate::codec::dec_cert(bytes@, 0) matches Some(dc)
                    && crate::handle::hex_to_bytes(dc.0.fingerprint) == Some(
                    p.cert.fingerprint.bytes_view(),
                ) && p.cert.keyid@ == dc.0.keyid && p.ids.deep_view() == dc.0.user_ids
                    && p.sigs@.len() == 0 && p.certifications@.len() == 0,
                Err(e) => (crate::codec::dec_cert(bytes@, 0) is None || (crate::codec::dec_cert(
                    bytes@,
                    0,
                ) matches Some(dc) && crate::handle::hex_to_bytes(dc.0.fingerprint) is None)) && e
                    matches InternalErr::ParseError,
            },
    {
        let (cert, _used) = match crate::codec::read_cert_at(&bytes, 0) {
            Some(x) => x,
            None => {
                return Err(InternalErr::ParseError);
            },
        };
        let descriptor = match cert_descriptor(&cert) {
            Ok(d) => d,
            Err(e) => {
                return Err(e);
            },
        };
        Ok(
            PgpCertStubSigs {
                cert: descriptor,
                ids: crate::cert::clone_vec_string(&cert.user_ids),
                sigs: Vec::new(),
                certifications: Vec::new(),
            },
        )
    }

    /// Decode a certificate and list the issuers certifying it in the
    /// given application state: the signature entries are exactly the
    /// issuers of the store's certifications targeting the decoded
    /// fingerprint, and the certification entries the issuers attached
    /// to the record itself.
    pub fn from_bytes_sig(bytes: Vec<u8>, store: &PgpApp) -> (r: Result<
        PgpCertStubSigs,
        InternalErr,
    >)
        requires
            store.wf(),
        ensures
            match r {
                Ok(p) => crate::codec::dec_cert(bytes@, 0) matches Some(dc)
                    && crate::handle::hex_to_bytes(dc.0.fingerprint) == Some(
                    p.cert.fingerprint.bytes_view(),
                ) && p.cert.keyid@ == dc.0.keyid && p.ids.deep_view() == dc.0.user_ids && ({
                    let targeting = store_targeting(store.store.view_certs(), dc.0.fingerprint);
                    &&& p.sigs.deep_view().len() == targeting.len()
                    &&& forall|k: int|
                        0 <= k < targeting.len() ==> p.sigs.deep_view()[k] == (
                        #[trigger] targeting[k]).issuer
                    &&& p.certifications.deep_view().len() == dc.0.certifications.len()
                    &&& forall|k: int|
                        0 <= k < dc.0.certifications.len() ==> p.certifications.deep_view()[k]
                            == (#[trigger] dc.0.certifications[k]).issuer
                }),
                Err(e) => (crate::codec::dec_cert(bytes@, 0) is None || (crate::codec::dec_cert(
                    bytes@,
                    0,
                ) matches Some(dc) && crate::handle::hex_to_bytes(dc.0.fingerprint) is None)) && e
                    matches InternalErr::ParseError,
            },
    {
        let (cert, _used) = match crate::codec::read_cert_at(&bytes, 0) {
            Some(x) => x,
            None => {
                return Err(InternalErr::ParseError);
            },
        };
        let descriptor = match cert_descriptor(&cert) {
            Ok(d) => d,
            Err(e) => {
                return Err(e);
            },
        };
        let targeting = store.store.certifications_of(&cert.fingerprint);
        let own = issuer_names(&cert.certifications);
        Ok(
            PgpCertStubSigs {
                cert: descriptor,
                ids: crate::cert::clone_vec_string(&cert.user_ids),
                sigs: issuer_names(&targeting),
                certifications: own,
            },
        )
    }
}

impl PgpCertWithIds {
    /// Decode a certificate and summarize it without resolving issuers:
    /// the handle and identity labels come straight from the decoded
    /// record, and no issuers are listed.
    pub fn from_bytes(bytes: Vec<u8>) -> (r: Result<PgpCertWithIds, InternalErr>)
        ensures
            match r {
                Ok(p) => crate::codec::dec_cert(bytes@, 0) matches Some(dc)
                    && crate::handle::hex_to_bytes(dc.0.fingerprint) == Some(
                    p.cert.fingerprint.bytes_view(),
                ) && p.cert.keyid@ == dc.0.keyid && p.ids.deep_view() == dc.0.user_ids
                    && p.sigs@.len() == 0 && p.certifications@.len() == 0,
                Err(e) => (crate::codec::dec_cert(bytes@, 0) is None || (crate::codec::dec_cert(
                    bytes@,
                    0,
                ) matches Some(dc) && crate::handle::hex_to_bytes(dc.0.fingerprint) is None)) && e
                    matches InternalErr::ParseError,
            },
    {
        let (cert, _used) = match crate::codec::read_cert_at(&bytes, 0) {
            Some(x) => x,
            None => {
                return Err(InternalErr::ParseError);
            },
        };
        let descriptor = match cert_descriptor(&cert) {
            Ok(d) => d,
            Err(e) => {
                return Err(e);
            },
        };
        Ok(
            PgpCertWithIds {
                cert: descriptor,
                ids: crate::cert::clone_vec_string(&cert.user_ids),
                sigs: Vec::new(),
                certifications: Vec::new(),
            },
        )
    }

    /// Decode a certificate and resolve the issuers certifying it: one
    /// entry per certification targeting the decoded fingerprint in the
    /// store, a full descriptor where the issuer is held locally, its
    /// bare fingerprint text otherwise; the record's own attached
    /// certifications are resolved the same way.
    pub fn from_bytes_sig(bytes: Vec<u8>, store: &PgpApp) -> (r: Result<
        PgpCertWithIds,
        InternalErr,
    >)
        requires
            store.wf(),
        ensures
            match r {
                Ok(p) => crate::codec::dec_cert(bytes@, 0) matches Some(dc)
                    && crate::handle::hex_to_bytes(dc.0.fingerprint) == Some(
                    p.cert.fingerprint.bytes_view(),
                ) && p.cert.keyid@ == dc.0.keyid && p.ids.deep_view() == dc.0.user_ids && ({
                    let targeting = store_targeting(store.store.view_certs(), dc.0.fingerprint);
                    &&& p.sigs@.len() == targeting.len()
                    &&& forall|k: int|
                        0 <= k < targeting.len() ==> resolved_as(
                            #[trigger] p.sigs@[k],
                            targeting[k].issuer,
                        )
                    &&& p.certifications@.len() == dc.0.certifications.len()
                    &&& forall|k: int|
                        0 <= k < dc.0.certifications.len() ==> resolved_as(
                            #[trigger] p.certifications@[k],
                            dc.0.certifications[k].issuer,
                        )
                }),
                Err(e) => (crate::codec::dec_cert(bytes@, 0) is None || (crate::codec::dec_cert(
                    bytes@,
                    0,
                ) matches Some(dc) && crate::handle::hex_to_bytes(dc.0.fingerprint) is None)) && e
                    matches InternalErr::ParseError,
            },
    {
        let (cert, _used) = match crate::codec::read_cert_at(&bytes, 0) {
            Some(x) => x,
            None => {
                return Err(InternalErr::ParseError);
            },
        };
        let descriptor = match cert_descriptor(&cert) {
            Ok(d) => d,
            Err(e) => {
                return Err(e);
            },
        };
        let targeting = store.store.certifications_of(&cert.fingerprint);
        let sigs = resolve_issuers(&issuer_names(&targeting), store);
        let certifications = resolve_issuers(&issuer_names(&cert.certifications), store);
        Ok(
            PgpCertWithIds {
                cert: descriptor,
                ids: crate::cert::clone_vec_string(&cert.user_ids),
                sigs,
                certifications,
            },
        )
    }
}

/// A resolved issuer reference stands for the given fingerprint text:
/// either it carries the text itself, or a descriptor whose handle
/// reads back from that text.
pub open spec fn resolved_as(m: MaybeCert, name: Seq<char>) -> bool {
    match m {
        MaybeCert::Fingerprint { fpr } => fpr@ == name,
        MaybeCert::Full { cert } => crate::handle::hex_to_bytes(name) == Some(
            cert.cert.fingerprint.bytes_view(),
        ),
    }
}

/// Resolve issuer fingerprints against the store: certificates held
/// locally become full descriptors, the rest stay bare fingerprints.
#[verifier::loop_isolation(false)]
fn resolve_issuers(names: &Vec<String>, store: &PgpApp) -> (r: Vec<MaybeCert>)
    requires
        store.wf(),
    ensures
        r@.len() == names@.len(),
        forall|k: int|
            0 <= k < r@.len() ==> resolved_as(#[trigger] r@[k], names.deep_view()[k]),
{
    let mut out: Vec<MaybeCert> = Vec::new();
    let mut i: usize = 0;
    while i < names.len()
        invariant
            i <= names@.len(),
            out@.len() == i,
            forall|k: int|
                0 <= k < i ==> resolved_as(#[trigger] out@[k], names.deep_view()[k]),
        decreases names@.len() - i,
    {
        proof {
            assert(names.deep_view()[i as int] == names@[i as int]@);
        }
        let name = &names[i];
        match store.store.find_index(name) {
            Some(ci) => {
                let cert = &store.store.certs[ci];
                match cert_descriptor(cert) {
                    Ok(descriptor) => {
                        let inner = PgpCertWithIds {
                            cert: descriptor,
                            ids: crate::cert::clone_vec_string(&cert.user_ids),
                            sigs: Vec::new(),
                            certifications: Vec::new(),
                        };
                        out.push(MaybeCert::Full { cert: inner });
                    },
                    Err(_) => {
                        out.push(MaybeCert::Fingerprint { fpr: name.clone() });
                    },
                }
            },
            None => {
                out.push(MaybeCert::Fingerprint { fpr: name.clone() });
            },
        }
        i += 1;
    }
    out
}

impl MaybeCert {
    /// The fingerprint behind the reference.
    pub fn fingerprint(&self) -> (r: Result<UserHandle, InternalErr>)
        ensures
            r is Err ==> r matches Err(InternalErr::ParseError),
    {
        match self {
            MaybeCert::Fingerprint { fpr } => match UserHandle::from_hex(fpr.as_str()) {
                Ok(h) => Ok(h),
                Err(_) => Err(InternalErr::ParseError),
            },
            MaybeCert::Full { cert } => {
                let b = cert.cert.fingerprint.as_bytes();
                if b.len() == 20 {
                    Ok(UserHandle::Fingerprint(b))
                } else {
                    Ok(UserHandle::KeyId(b))
                }
            },
        }
    }

    /// The identity labels, when the certificate is held locally.
    pub fn maybe_ids(&self) -> (r: Option<Vec<String>>)
        ensures
            (r is Some) == (self is Full),
    {
        match self {
            MaybeCert::Fingerprint { .. } => None,
            MaybeCert::Full { cert } => Some(crate::cert::clone_vec_string(&cert.ids)),
        }
    }
}

impl CertSynopsis {
    /// Summarize a certificate: no revocations are modeled here, so the
    /// summary is never marked revoked.
    pub fn from_certificate(c: &Certificate) -> (r: CertSynopsis)
        ensures
            r.fingerprint@ == c.fingerprint@,
            r.keyid@ == c.keyid@,
            !r.revoked,
            r.userids.deep_view() == c.user_ids.deep_view(),
    {
        CertSynopsis {
            fingerprint: c.fingerprint.clone(),
            keyid: c.keyid.clone(),
            key_handle: KeyHandle::Fingerprint(c.fingerprint.clone()),
            revoked: false,
            userids: crate::cert::clone_vec_string(&c.user_ids),
        }
    }
}

impl CertificationSet {
    /// Group every certification one issuer has placed on one target.
    /// Certifications here carry no per-identity binding, so everything
    /// lands in one unlabelled group holding exactly the given packets.
    pub fn from_parts(issuer: String, target: String, certifications: Vec<Certification>) -> (r:
        CertificationSet)
        ensures
            r.issuer@ == issuer@,
            r.target@ == target@,
            r.certifications@.len() == 1,
            r.certifications@[0].0 is None,
            r.certifications@[0].1.deep_view() == certifications.deep_view(),
    {
        let mut groups: Vec<(Option<String>, Vec<Certification>)> = Vec::new();
        groups.push((None, certifications));
        CertificationSet { issuer, target, certifications: groups }
    }
}

/// Remove everything from a certificate that an exported public stub
/// does not carry: attached certifications and secret material.
pub fn strip_cert(cert: Certificate) -> (r: Certificate)
    ensures
        r.deep_view() == (CertificateV {
            certifications: Seq::empty(),
            secret: None,
            ..cert.deep_view()
        }),
{
    let mut c = cert;
    c.certifications = Vec::new();
    c.secret = None;
    proof {
        assert(c.certifications.deep_view() =~= Seq::<CertificationV>::empty());
    }
    c
}

/// The certifications of `cs` whose issuer the vault marks online.
pub open spec fn online_certifications(
    cs: Seq<CertificationV>,
    vault: Seq<crate::vault::SecretRecordV>,
) -> Seq<CertificationV>
    decreases cs.len(),
{
    if cs.len() == 0 {
        Seq::empty()
    } else {
        let rest = online_certifications(cs.drop_last(), vault);
        if crate::vault::vault_has(vault, cs.last().issuer) && vault[crate::vault::vault_index(
            vault,
            cs.last().issuer,
        )].online {
            rest.push(cs.last())
        } else {
            rest
        }
    }
}

impl PgpApp {
    /// Keep only the certifications whose issuer is marked online:
    /// what may be exposed to third parties, e.g. on upload.
    #[verifier::loop_isolation(false)]
    pub fn filter_cert_online_sigs(&self, cert: Certificate) -> (r: Certificate)
        requires
            self.wf(),
        ensures
            r.deep_view() == (CertificateV {
                certifications: online_certifications(
                    cert.deep_view().certifications,
                    self.vault.view_rows(),
                ),
                ..cert.deep_view()
            }),
    {
        let ghost cv = cert.deep_view();
        let ghost vv = self.vault.view_rows();
        let mut kept: Vec<Certification> = Vec::new();
        let mut i: usize = 0;
        proof {
            assert(kept.deep_view() =~= online_certifications(
                cv.certifications.subrange(0, 0),
                vv,
            ));
        }
        while i < cert.certifications.len()
            invariant
                i <= cert.certifications@.len(),
                kept.deep_view() == online_certifications(
                    cv.certifications.subrange(0, i as int),
                    vv,
                ),
            decreases cert.certifications@.len() - i,
        {
            let ghost pre = cv.certifications.subrange(0, i as int);
            proof {
                assert(cv.certifications[i as int] == cert.certifications@[
                i as int].deep_view());
                assert(cv.certifications.subrange(0, i + 1).drop_last() =~= pre);
                assert(cv.certifications.subrange(0, i + 1).last() == cv.certifications[
                i as int]);
            }
            let edge = &cert.certifications[i];
            if self.vault.check_online(&edge.issuer) {
                let ghost k_old = kept.deep_view();
                kept.push(edge.clone());
                proof {
                    assert(kept.deep_view() =~= k_old.push(cv.certifications[i as int]));
                }
            }
            i += 1;
        }
        proof {
            assert(cv.certifications.subrange(0, cert.certifications@.len() as int)
                =~= cv.certifications);
        }
        let mut out = cert;
        out.certifications = kept;
        out
    }
}

/// The certificates of `s` carrying the exact identity label `uid`,
/// in store order.
pub open spec fn certs_with_uid(s: Seq<CertificateV>, uid: Seq<char>) -> Seq<CertificateV>
    decreases s.len(),
{
    if s.len() == 0 {
        Seq::empty()
    } else {
        let rest = certs_with_uid(s.drop_last(), uid);
        if s.last().user_ids.contains(uid) {
            rest.push(s.last())
        } else {
            rest
        }
    }
}

impl crate::store::MutStore {
    /// The certificates carrying the exact identity label `uid`:
    /// precisely the store's matches, in store order, without
    /// duplicates.
    #[verifier::loop_isolation(false)]
    pub fn lookup_by_userid(&self, uid: &String) -> (r: Vec<Certificate>)
        ensures
            r.deep_view() == certs_with_uid(self.view_certs(), uid@),
    {
        let ghost s = self.view_certs();
        let mut out: Vec<Certificate> = Vec::new();
        let mut i: usize = 0;
        proof {
            assert(out.deep_view() =~= certs_with_uid(s.subrange(0, 0), uid@));
        }
        while i < self.certs.len()
            invariant
                i <= self.certs@.len(),
                s == self.view_certs(),
                out.deep_view() == certs_with_uid(s.subrange(0, i as int), uid@),
            decreases self.certs@.len() - i,
        {
            proof {
                assert(s[i as int] == self.certs@[i as int].deep_view());
                assert(s.subrange(0, i + 1).drop_last() =~= s.subrange(0, i as int));
                assert(s.subrange(0, i + 1).last() == s[i as int]);
            }
            if crate::cert::contains_string(&self.certs[i].user_ids, uid) {
                let ghost o_old = out.deep_view();
                let c = self.certs[i].clone();
                out.push(c);
                proof {
                    assert(out.deep_view() =~= o_old.push(s[i as int]));
                }
            }
            i += 1;
        }
        proof {
            assert(s.subrange(0, self.certs@.len() as int) =~= s);
        }
        out
    }
}

impl PgpApp {
    /// Whether the certificate at `fpr` is a pure stub: no private key
    /// available locally and no attached certifications beyond what a
    /// stripped export carries.  An identity whose private blob sits in
    /// the vault is never a stub, however bare its public half.
    pub fn is_stub(&self, fpr: &String) -> (r: Result<bool, InternalErr>)
        requires
            self.wf(),
        ensures
            match r {
                Ok(b) => has_fpr(self.store.view_certs(), fpr@) && b == (!crate::vault::vault_has(
                    self.vault.view_rows(),
                    fpr@,
                ) && cert_with_fpr(self.store.view_certs(), fpr@).certifications.len() == 0),
                Err(e) => !has_fpr(self.store.view_certs(), fpr@) && e
                    matches InternalErr::NotFound(_),
            },
    {
        match self.store.find_index(fpr) {
            Some(i) => {
                let cert = &self.store.certs[i];
                proof {
                    assert(self.store.view_certs()[i as int] == self.store.certs@[
                    i as int].deep_view());
                }
                Ok(!self.vault.contains(fpr) && cert.certifications.len() == 0)
            },
            None => Err(InternalErr::NotFound("no certificate with this fingerprint")),
        }
    }
}

} // verus!
