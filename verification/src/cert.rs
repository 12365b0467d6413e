//! Certificate and certification value types.
//!
//! A `Certificate` is identified by a content-derived fingerprint (held
//! here in its canonical hex form) and carries user identities, public key
//! material, subkeys, attached certifications and, optionally, secret key
//! material.  A `Certification` is a directed trust edge between two
//! fingerprints, carrying a trust amount and a delegation depth.

use vstd::prelude::*;

verus! {

/// A signed trust assertion: `issuer` vouches for `target`'s identity,
/// granting `amount` trust (0..=255) and authorizing `depth` further
/// delegation hops.  Certifications are immutable once issued.
#[derive(Debug)]
pub struct Certification {
    pub issuer: String,
    pub target: String,
    pub amount: u8,
    pub depth: u8,
}

/// Mathematical image of a `Certification`.
#[verifier::ext_equal]
pub struct CertificationV {
    pub issuer: Seq<char>,
    pub target: Seq<char>,
    pub amount: u8,
    pub depth: u8,
}

impl DeepView for Certification {
    type V = CertificationV;

    open spec fn deep_view(&self) -> CertificationV {
        CertificationV {
            issuer: self.issuer@,
            target: self.target@,
            amount: self.amount,
            depth: self.depth,
        }
    }
}

impl Clone for Certification {
    fn clone(&self) -> (r: Self)
        ensures
            r.deep_view() == self.deep_view(),
    {
        Certification {
            issuer: self.issuer.clone(),
            target: self.target.clone(),
            amount: self.amount,
            depth: self.depth,
        }
    }
}

impl Certification {
    /// Field-wise equality, usable in verified code.
    pub fn same_as(&self, other: &Certification) -> (r: bool)
        ensures
            r == (self.deep_view() == other.deep_view()),
    {
        let r = self.issuer.eq(&other.issuer) && self.target.eq(&other.target)
            && self.amount == other.amount && self.depth == other.depth;
        proof {
            if r {
                assert(self.deep_view() == other.deep_view());
            }
        }
        r
    }
}

/// A certificate: a fingerprint-identified public key with user
/// identities, subkeys, attached certifications and optional secret key
/// material.  A certificate without secret material is a "public stub".
#[derive(Debug)]
pub struct Certificate {
    pub fingerprint: String,
    pub keyid: String,
    pub key_material: Vec<u8>,
    pub user_ids: Vec<String>,
    pub subkeys: Vec<Vec<u8>>,
    pub certifications: Vec<Certification>,
    pub secret: Option<Vec<u8>>,
}

/// Mathematical image of a `Certificate`.
#[verifier::ext_equal]
pub struct CertificateV {
    pub fingerprint: Seq<char>,
    pub keyid: Seq<char>,
    pub key_material: Seq<u8>,
    pub user_ids: Seq<Seq<char>>,
    pub subkeys: Seq<Seq<u8>>,
    pub certifications: Seq<CertificationV>,
    pub secret: Option<Seq<u8>>,
}

impl DeepView for Certificate {
    type V = CertificateV;

    open spec fn deep_view(&self) -> CertificateV {
        CertificateV {
            fingerprint: self.fingerprint@,
            keyid: self.keyid@,
            key_material: self.key_material@,
            user_ids: self.user_ids.deep_view(),
            subkeys: self.subkeys.deep_view(),
            certifications: self.certifications.deep_view(),
            secret: self.secret.deep_view(),
        }
    }
}

/// Append to `a` those elements of `b` that `a` does not already hold:
/// the order-preserving union used by the monotonic merge.
pub open spec fn merge_seq<T>(a: Seq<T>, b: Seq<T>) -> Seq<T>
    decreases b.len(),
{
    if b.len() == 0 {
        a
    } else {
        let m = merge_seq(a, b.drop_last());
        if a.contains(b.last()) {
            m
        } else {
            m.push(b.last())
        }
    }
}

/// The append-only merge policy of the store: the union of user
/// identities, subkeys and certification packets; nothing of the existing
/// certificate is discarded.  The merge is public-only: incoming secret
/// material is ignored, so private bytes never enter the shared store
/// through an update.
pub open spec fn merge_cert(a: CertificateV, b: CertificateV) -> CertificateV {
    CertificateV {
        fingerprint: a.fingerprint,
        keyid: a.keyid,
        key_material: a.key_material,
        user_ids: merge_seq(a.user_ids, b.user_ids),
        subkeys: merge_seq(a.subkeys, b.subkeys),
        certifications: merge_seq(a.certifications, b.certifications),
        secret: a.secret,
    }
}

/// What the union holds: an element is in `merge_seq(a, b)` exactly
/// when it is in `a` or in `b`.
pub proof fn lemma_merge_seq_contains<T>(a: Seq<T>, b: Seq<T>, x: T)
    ensures
        merge_seq(a, b).contains(x) == (a.contains(x) || b.contains(x)),
    decreases b.len(),
{
    if b.len() == 0 {
        assert(!b.contains(x));
    } else {
        lemma_merge_seq_contains(a, b.drop_last(), x);
        let m = merge_seq(a, b.drop_last());
        if b.contains(x) {
            if x == b.last() {
                if a.contains(x) {
                    assert(merge_seq(a, b).contains(x));
                } else {
                    assert(merge_seq(a, b) == m.push(b.last()));
                    assert(merge_seq(a, b)[m.len() as int] == x);
                }
            } else {
                let i = choose|i: int| 0 <= i < b.len() && b[i] == x;
                assert(b.drop_last()[i] == x);
                assert(b.drop_last().contains(x));
                assert(m.contains(x));
                let j = choose|j: int| 0 <= j < m.len() && m[j] == x;
                assert(merge_seq(a, b)[j] == x);
            }
        } else {
            assert(!b.drop_last().contains(x)) by {
                if b.drop_last().contains(x) {
                    let i = choose|i: int| 0 <= i < b.drop_last().len() && b.drop_last()[i] == x;
                    assert(b[i] == x);
                }
            }
            assert(b.last() != x) by {
                assert(b[b.len() - 1] == b.last());
            }
            if a.contains(x) {
                let j = choose|j: int| 0 <= j < m.len() && m[j] == x;
                assert(merge_seq(a, b)[j] == x);
            } else {
                if merge_seq(a, b).contains(x) {
                    let j = choose|j: int|
                        0 <= j < merge_seq(a, b).len() && merge_seq(a, b)[j] == x;
                    if !a.contains(b.last()) && j == m.len() {
                        assert(x == b.last());
                    } else {
                        assert(m[j] == x);
                    }
                }
            }
        }
    }
}

/// Merging a sequence whose elements are all already present changes
/// nothing.
pub proof fn lemma_merge_seq_subsumed<T>(a: Seq<T>, b: Seq<T>)
    requires
        forall|x: T| b.contains(x) ==> a.contains(x),
    ensures
        merge_seq(a, b) == a,
    decreases b.len(),
{
    if b.len() > 0 {
        assert(forall|x: T| b.drop_last().contains(x) ==> b.contains(x)) by {
            assert forall|x: T| b.drop_last().contains(x) implies b.contains(x) by {
                let i = choose|i: int| 0 <= i < b.drop_last().len() && b.drop_last()[i] == x;
                assert(b[i] == x);
            }
        }
        lemma_merge_seq_subsumed(a, b.drop_last());
        assert(b.contains(b.last())) by {
            assert(b[b.len() - 1] == b.last());
        }
    }
}

/// Merging the same sequence a second time changes nothing.
pub proof fn lemma_merge_seq_idempotent<T>(a: Seq<T>, b: Seq<T>)
    ensures
        merge_seq(merge_seq(a, b), b) == merge_seq(a, b),
{
    let m = merge_seq(a, b);
    assert forall|x: T| b.contains(x) implies m.contains(x) by {
        lemma_merge_seq_contains(a, b, x);
    }
    lemma_merge_seq_subsumed(m, b);
}

/// Re-applying the same certificate to an already merged one leaves the
/// result unchanged: the monotonic merge is idempotent.
pub proof fn lemma_merge_cert_idempotent(a: CertificateV, b: CertificateV)
    ensures
        merge_cert(merge_cert(a, b), b) =~= merge_cert(a, b),
{
    lemma_merge_seq_idempotent(a.user_ids, b.user_ids);
    lemma_merge_seq_idempotent(a.subkeys, b.subkeys);
    lemma_merge_seq_idempotent(a.certifications, b.certifications);
}

/// Byte-for-byte equality of two byte vectors.
pub fn bytes_eq(a: &Vec<u8>, b: &Vec<u8>) -> (r: bool)
    ensures
        r == (a@ == b@),
{
    if a.len() != b.len() {
        return false;
    }
    let mut i: usize = 0;
    while i < a.len()
        invariant
            i <= a.len(),
            a@.len() == b@.len(),
            forall|j: int| 0 <= j < i ==> a@[j] == b@[j],
        decreases a.len() - i,
    {
        if a[i] != b[i] {
            return false;
        }
        i += 1;
    }
    proof {
        assert(a@ =~= b@);
    }
    true
}

/// Whether `v` holds a string equal to `x`.
pub fn contains_string(v: &Vec<String>, x: &String) -> (r: bool)
    ensures
        r == v.deep_view().contains(x@),
{
    let mut i: usize = 0;
    while i < v.len()
        invariant
            i <= v.len(),
            forall|j: int| 0 <= j < i ==> v.deep_view()[j] != x@,
        decreases v.len() - i,
    {
        proof {
            assert(v.deep_view()[i as int] == v@[i as int].deep_view());
        }
        if v[i].eq(x) {
            assert(v.deep_view()[i as int] == x@);
            return true;
        }
        i += 1;
    }
    false
}

/// Whether `v` holds a byte vector equal to `x`.
pub fn contains_bytes(v: &Vec<Vec<u8>>, x: &Vec<u8>) -> (r: bool)
    ensures
        r == v.deep_view().contains(x@),
{
    let mut i: usize = 0;
    while i < v.len()
        invariant
            i <= v.len(),
            forall|j: int| 0 <= j < i ==> v.deep_view()[j] != x@,
        decreases v.len() - i,
    {
        proof {
            assert(v.deep_view()[i as int] == v@[i as int].deep_view());
            assert(v@[i as int].deep_view() =~= v@[i as int]@);
        }
        if bytes_eq(&v[i], x) {
            assert(v.deep_view()[i as int] == x@);
            return true;
        }
        i += 1;
    }
    false
}

/// Whether `v` holds a certification equal to `x`.
pub fn contains_certification(v: &Vec<Certification>, x: &Certification) -> (r: bool)
    ensures
        r == v.deep_view().contains(x.deep_view()),
{
    let mut i: usize = 0;
    while i < v.len()
        invariant
            i <= v.len(),
            forall|j: int| 0 <= j < i ==> v.deep_view()[j] != x.deep_view(),
        decreases v.len() - i,
    {
        proof {
            assert(v.deep_view()[i as int] == v@[i as int].deep_view());
        }
        if v[i].same_as(x) {
            assert(v.deep_view()[i as int] == x.deep_view());
            return true;
        }
        i += 1;
    }
    false
}

/// Whether the first `n` entries of `v` hold a string equal to `x`.
fn contains_string_prefix(v: &Vec<String>, n: usize, x: &String) -> (r: bool)
    requires
        n <= v@.len(),
    ensures
        r == v.deep_view().subrange(0, n as int).contains(x@),
{
    let ghost pre = v.deep_view().subrange(0, n as int);
    let mut i: usize = 0;
    while i < n
        invariant
            i <= n <= v@.len(),
            pre == v.deep_view().subrange(0, n as int),
            forall|j: int| 0 <= j < i ==> pre[j] != x@,
        decreases n - i,
    {
        proof {
            assert(pre[i as int] == v@[i as int].deep_view());
        }
        if v[i].eq(x) {
            assert(pre[i as int] == x@);
            return true;
        }
        i += 1;
    }
    false
}

/// Whether the first `n` entries of `v` hold a byte vector equal to `x`.
fn contains_bytes_prefix(v: &Vec<Vec<u8>>, n: usize, x: &Vec<u8>) -> (r: bool)
    requires
        n <= v@.len(),
    ensures
        r == v.deep_view().subrange(0, n as int).contains(x@),
{
    let ghost pre = v.deep_view().subrange(0, n as int);
    let mut i: usize = 0;
    while i < n
        invariant
            i <= n <= v@.len(),
            pre == v.deep_view().subrange(0, n as int),
            forall|j: int| 0 <= j < i ==> pre[j] != x@,
        decreases n - i,
    {
        proof {
            assert(pre[i as int] == v@[i as int].deep_view());
            assert(v@[i as int].deep_view() =~= v@[i as int]@);
        }
        if bytes_eq(&v[i], x) {
            assert(pre[i as int] == x@);
            return true;
        }
        i += 1;
    }
    false
}

/// Whether the first `n` entries of `v` hold a certification equal to `x`.
fn contains_certification_prefix(v: &Vec<Certification>, n: usize, x: &Certification) -> (r: bool)
    requires
        n <= v@.len(),
    ensures
        r == v.deep_view().subrange(0, n as int).contains(x.deep_view()),
{
    let ghost pre = v.deep_view().subrange(0, n as int);
    let mut i: usize = 0;
    while i < n
        invariant
            i <= n <= v@.len(),
            pre == v.deep_view().subrange(0, n as int),
            forall|j: int| 0 <= j < i ==> pre[j] != x.deep_view(),
        decreases n - i,
    {
        proof {
            assert(pre[i as int] == v@[i as int].deep_view());
        }
        if v[i].same_as(x) {
            assert(pre[i as int] == x.deep_view());
            return true;
        }
        i += 1;
    }
    false
}

/// Append to `a` the strings of `b` that `a` does not already hold.
fn merge_vec_string(a: &mut Vec<String>, b: &Vec<String>)
    ensures
        final(a).deep_view() == merge_seq(old(a).deep_view(), b.deep_view()),
{
    let ghost a0 = old(a).deep_view();
    let n0 = a.len();
    let mut i: usize = 0;
    while i < b.len()
        invariant
            i <= b@.len(),
            n0 <= a@.len(),
            a.deep_view().subrange(0, n0 as int) == a0,
            a.deep_view() == merge_seq(a0, b.deep_view().subrange(0, i as int)),
        decreases b@.len() - i,
    {
        let ghost apre = a.deep_view();
        let ghost bi = b.deep_view()[i as int];
        proof {
            assert(bi == b@[i as int].deep_view());
            assert(b.deep_view().subrange(0, i + 1).drop_last() =~= b.deep_view().subrange(
                0,
                i as int,
            ));
            assert(b.deep_view().subrange(0, i + 1).last() == bi);
        }
        if !contains_string_prefix(a, n0, &b[i]) {
            let x = b[i].clone();
            proof {
                assert(x.deep_view() == bi);
                assert(!a0.contains(bi));
            }
            a.push(x);
            proof {
                assert(a.deep_view() =~= apre.push(bi));
                assert(a.deep_view() == merge_seq(a0, b.deep_view().subrange(0, i + 1)));
                assert(a.deep_view().subrange(0, n0 as int) =~= a0);
            }
        } else {
            proof {
                assert(a0.contains(bi));
                assert(apre == merge_seq(a0, b.deep_view().subrange(0, i + 1)));
            }
        }
        i += 1;
    }
    proof {
        assert(b.deep_view().subrange(0, b@.len() as int) =~= b.deep_view());
    }
}

/// Append to `a` the byte vectors of `b` that `a` does not already hold.
fn merge_vec_bytes(a: &mut Vec<Vec<u8>>, b: &Vec<Vec<u8>>)
    ensures
        final(a).deep_view() == merge_seq(old(a).deep_view(), b.deep_view()),
{
    let ghost a0 = old(a).deep_view();
    let n0 = a.len();
    let mut i: usize = 0;
    while i < b.len()
        invariant
            i <= b@.len(),
            n0 <= a@.len(),
            a.deep_view().subrange(0, n0 as int) == a0,
            a.deep_view() == merge_seq(a0, b.deep_view().subrange(0, i as int)),
        decreases b@.len() - i,
    {
        let ghost apre = a.deep_view();
        let ghost bi = b.deep_view()[i as int];
        proof {
            assert(bi == b@[i as int].deep_view());
            assert(b@[i as int].deep_view() =~= b@[i as int]@);
            assert(b.deep_view().subrange(0, i + 1).drop_last() =~= b.deep_view().subrange(
                0,
                i as int,
            ));
            assert(b.deep_view().subrange(0, i + 1).last() == bi);
        }
        if !contains_bytes_prefix(a, n0, &b[i]) {
            let x = b[i].clone();
            proof {
                assert(x@ =~= b@[i as int]@);
                assert(x.deep_view() =~= bi);
                assert(!a0.contains(bi));
            }
            a.push(x);
            proof {
                assert(a.deep_view() =~= apre.push(bi));
                assert(a.deep_view() == merge_seq(a0, b.deep_view().subrange(0, i + 1)));
                assert(a.deep_view().subrange(0, n0 as int) =~= a0);
            }
        } else {
            proof {
                assert(a0.contains(bi));
                assert(apre == merge_seq(a0, b.deep_view().subrange(0, i + 1)));
            }
        }
        i += 1;
    }
    proof {
        assert(b.deep_view().subrange(0, b@.len() as int) =~= b.deep_view());
    }
}

/// Append to `a` the certifications of `b` that `a` does not already hold.
fn merge_vec_certification(a: &mut Vec<Certification>, b: &Vec<Certification>)
    ensures
        final(a).deep_view() == merge_seq(old(a).deep_view(), b.deep_view()),
{
    let ghost a0 = old(a).deep_view();
    let n0 = a.len();
    let mut i: usize = 0;
    while i < b.len()
        invariant
            i <= b@.len(),
            n0 <= a@.len(),
            a.deep_view().subrange(0, n0 as int) == a0,
            a.deep_view() == merge_seq(a0, b.deep_view().subrange(0, i as int)),
        decreases b@.len() - i,
    {
        let ghost apre = a.deep_view();
        let ghost bi = b.deep_view()[i as int];
        proof {
            assert(bi == b@[i as int].deep_view());
            assert(b.deep_view().subrange(0, i + 1).drop_last() =~= b.deep_view().subrange(
                0,
                i as int,
            ));
            assert(b.deep_view().subrange(0, i + 1).last() == bi);
        }
        if !contains_certification_prefix(a, n0, &b[i]) {
            let x = b[i].clone();
            proof {
                assert(x.deep_view() =~= bi);
                assert(!a0.contains(bi));
            }
            a.push(x);
            proof {
                assert(a.deep_view() =~= apre.push(bi));
                assert(a.deep_view() == merge_seq(a0, b.deep_view().subrange(0, i + 1)));
                assert(a.deep_view().subrange(0, n0 as int) =~= a0);
            }
        } else {
            proof {
                assert(a0.contains(bi));
                assert(apre == merge_seq(a0, b.deep_view().subrange(0, i + 1)));
            }
        }
        i += 1;
    }
    proof {
        assert(b.deep_view().subrange(0, b@.len() as int) =~= b.deep_view());
    }
}

impl Clone for Certificate {
    fn clone(&self) -> (r: Self)
        ensures
            r.deep_view() == self.deep_view(),
    {
        let r = Certificate {
            fingerprint: self.fingerprint.clone(),
            keyid: self.keyid.clone(),
            key_material: self.key_material.clone(),
            user_ids: clone_vec_string(&self.user_ids),
            subkeys: clone_vec_bytes(&self.subkeys),
            certifications: clone_vec_certification(&self.certifications),
            secret: clone_opt_bytes(&self.secret),
        };
        proof {
            assert(r.key_material@ =~= self.key_material@);
            assert(r.deep_view() =~= self.deep_view());
        }
        r
    }
}

/// Duplicate a vector of strings.
pub fn clone_vec_string(v: &Vec<String>) -> (r: Vec<String>)
    ensures
        r.deep_view() == v.deep_view(),
{
    let mut out: Vec<String> = Vec::new();
    let mut i: usize = 0;
    while i < v.len()
        invariant
            i <= v@.len(),
            out.deep_view() == v.deep_view().subrange(0, i as int),
        decreases v@.len() - i,
    {
        let ghost opre = out.deep_view();
        let x = v[i].clone();
        out.push(x);
        proof {
            assert(v.deep_view()[i as int] == v@[i as int].deep_view());
            assert(out.deep_view() =~= opre.push(v.deep_view()[i as int]));
            assert(out.deep_view() =~= v.deep_view().subrange(0, i + 1));
        }
        i += 1;
    }
    proof {
        assert(v.deep_view().subrange(0, v@.len() as int) =~= v.deep_view());
    }
    out
}

/// Duplicate a vector of byte vectors.
pub fn clone_vec_bytes(v: &Vec<Vec<u8>>) -> (r: Vec<Vec<u8>>)
    ensures
        r.deep_view() == v.deep_view(),
{
    let mut out: Vec<Vec<u8>> = Vec::new();
    let mut i: usize = 0;
    while i < v.len()
        invariant
            i <= v@.len(),
            out.deep_view() == v.deep_view().subrange(0, i as int),
        decreases v@.len() - i,
    {
        let ghost opre = out.deep_view();
        let x = v[i].clone();
        proof {
            assert(v.deep_view()[i as int] == v@[i as int].deep_view());
            assert(x.deep_view() =~= v.deep_view()[i as int]);
        }
        out.push(x);
        proof {
            assert(out.deep_view() =~= opre.push(v.deep_view()[i as int]));
            assert(out.deep_view() =~= v.deep_view().subrange(0, i + 1));
        }
        i += 1;
    }
    proof {
        assert(v.deep_view().subrange(0, v@.len() as int) =~= v.deep_view());
    }
    out
}

/// Duplicate a vector of certifications.
pub fn clone_vec_certification(v: &Vec<Certification>) -> (r: Vec<Certification>)
    ensures
        r.deep_view() == v.deep_view(),
{
    let mut out: Vec<Certification> = Vec::new();
    let mut i: usize = 0;
    while i < v.len()
        invariant
            i <= v@.len(),
            out.deep_view() == v.deep_view().subrange(0, i as int),
        decreases v@.len() - i,
    {
        let ghost opre = out.deep_view();
        let x = v[i].clone();
        out.push(x);
        proof {
            assert(v.deep_view()[i as int] == v@[i as int].deep_view());
            assert(out.deep_view() =~= opre.push(v.deep_view()[i as int]));
            assert(out.deep_view() =~= v.deep_view().subrange(0, i + 1));
        }
        i += 1;
    }
    proof {
        assert(v.deep_view().subrange(0, v@.len() as int) =~= v.deep_view());
    }
    out
}

impl Certificate {
    /// The append-only merge of `other` into `self`: user identities,
    /// subkeys and certifications are unioned, nothing already present is
    /// discarded, and incoming secret material is ignored.
    pub fn merge_from(&mut self, other: &Certificate)
        ensures
            final(self).deep_view() == merge_cert(old(self).deep_view(), other.deep_view()),
    {
        merge_vec_string(&mut self.user_ids, &other.user_ids);
        merge_vec_bytes(&mut self.subkeys, &other.subkeys);
        merge_vec_certification(&mut self.certifications, &other.certifications);
        proof {
            assert(final(self).deep_view() =~= merge_cert(
                old(self).deep_view(),
                other.deep_view(),
            ));
        }
    }
}

/// Duplicate an optional byte vector.
fn clone_opt_bytes(v: &Option<Vec<u8>>) -> (r: Option<Vec<u8>>)
    ensures
        r.deep_view() == v.deep_view(),
{
    match v {
        Some(b) => {
            let c = b.clone();
            proof {
                assert(c@ =~= b@);
            }
            Some(c)
        },
        None => None,
    }
}

/// Duplicate a vector of certificates.
pub fn clone_vec_certificate(v: &Vec<Certificate>) -> (r: Vec<Certificate>)
    ensures
        r.deep_view() == v.deep_view(),
{
    let mut out: Vec<Certificate> = Vec::new();
    let mut i: usize = 0;
    while i < v.len()
        invariant
            i <= v@.len(),
            out.deep_view() == v.deep_view().subrange(0, i as int),
        decreases v@.len() - i,
    {
        let ghost opre = out.deep_view();
        let x = v[i].clone();
        proof {
            assert(v.deep_view()[i as int] == v@[i as int].deep_view());
        }
        out.push(x);
        proof {
            assert(out.deep_view() =~= opre.push(v.deep_view()[i as int]));
            assert(out.deep_view() =~= v.deep_view().subrange(0, i + 1));
        }
        i += 1;
    }
    proof {
        assert(v.deep_view().subrange(0, v@.len() as int) =~= v.deep_view());
    }
    out
}

} // verus!
