//! The certificate wire format used by export and import.
//!
//! A certificate set is framed as a count followed by one record per
//! certificate: the fingerprint, the user-identity labels and the
//! attached certifications, each string as a character count plus one
//! big-endian 32-bit scalar per character.  The decoder is proved to
//! invert the encoder, so an export/import round trip preserves
//! fingerprints, identity labels and certifications exactly.

use vstd::prelude::*;

use crate::cert::{Certificate, CertificateV, Certification, CertificationV};
use crate::InternalErr;

verus! {

/// Relies on char::from_u32: the conversion succeeds exactly for
/// Unicode scalar values (not a surrogate, at most 0x10FFFF) and then
/// returns the character with that code.
pub assume_specification[ char::from_u32 ](v: u32) -> (r: Option<char>)
    ensures
        r is Some <==> is_scalar_value(v),
        r matches Some(c) ==> c as u32 == v,
;

/// Relies on String::push: the character is appended at the end.
pub assume_specification[ String::push ](s: &mut String, c: char)
    ensures
        final(s)@ == old(s)@.push(c),
;

/// The four big-endian bytes of a 32-bit value.
pub open spec fn enc_u32(v: u32) -> Seq<u8> {
    seq![
        (v / 0x1000000) as u8,
        ((v / 0x10000) % 0x100) as u8,
        ((v / 0x100) % 0x100) as u8,
        (v % 0x100) as u8,
    ]
}

/// The 32-bit value carried by four big-endian bytes.
pub open spec fn u32_of(b0: u8, b1: u8, b2: u8, b3: u8) -> u32 {
    (b0 * 0x1000000 + b1 * 0x10000 + b2 * 0x100 + b3) as u32
}

/// Reading four bytes undoes writing them.
pub proof fn lemma_u32_round_trip(v: u32)
    ensures
        u32_of(
            (v / 0x1000000) as u8,
            ((v / 0x10000) % 0x100) as u8,
            ((v / 0x100) % 0x100) as u8,
            (v % 0x100) as u8,
        ) == v,
{
    assert(((v / 0x1000000) as u8) * 0x1000000 + (((v / 0x10000) % 0x100) as u8) * 0x10000 + (((v
        / 0x100) % 0x100) as u8) * 0x100 + ((v % 0x100) as u8) == v) by (bit_vector);
}

/// Concatenation of byte sequences is associative.
proof fn lemma_assoc(a: Seq<u8>, b: Seq<u8>, c: Seq<u8>)
    ensures
        (a + b) + c == a + (b + c),
{
    assert((a + b) + c =~= a + (b + c));
}

/// Four bytes reading back to `v` are exactly `v`'s big-endian bytes.
pub proof fn lemma_u32_inverse(b0: u8, b1: u8, b2: u8, b3: u8)
    ensures
        seq![b0, b1, b2, b3] == enc_u32(u32_of(b0, b1, b2, b3)),
{
    let v = u32_of(b0, b1, b2, b3);
    assert(b0 == (v / 0x1000000) as u8 && b1 == ((v / 0x10000) % 0x100) as u8 && b2 == ((v
        / 0x100) % 0x100) as u8 && b3 == (v % 0x100) as u8) by (bit_vector)
        requires
            v == (b0 * 0x1000000 + b1 * 0x10000 + b2 * 0x100 + b3) as u32,
    ;
    assert(seq![b0, b1, b2, b3] =~= enc_u32(v));
}

/// Decode a 32-bit value at `pos`.
pub open spec fn dec_u32(b: Seq<u8>, pos: int) -> Option<(u32, int)> {
    if 0 <= pos && pos + 4 <= b.len() {
        Some((u32_of(b[pos], b[pos + 1], b[pos + 2], b[pos + 3]), pos + 4))
    } else {
        None
    }
}

/// Decoding finds exactly the value that was encoded.
pub proof fn lemma_dec_enc_u32(pre: Seq<u8>, v: u32, rest: Seq<u8>)
    ensures
        dec_u32(pre + enc_u32(v) + rest, pre.len() as int) == Some((v, pre.len() as int + 4)),
{
    let b = pre + enc_u32(v) + rest;
    assert(b[pre.len() as int] == enc_u32(v)[0]);
    assert(b[pre.len() as int + 1] == enc_u32(v)[1]);
    assert(b[pre.len() as int + 2] == enc_u32(v)[2]);
    assert(b[pre.len() as int + 3] == enc_u32(v)[3]);
    lemma_u32_round_trip(v);
}

/// Whether `v` is a Unicode scalar value, i.e. the code of some `char`.
pub open spec fn is_scalar_value(v: u32) -> bool {
    (v < 0xD800 || v >= 0xE000) && v <= 0x10FFFF
}

/// One big-endian scalar per character.
pub open spec fn enc_chars(s: Seq<char>) -> Seq<u8>
    decreases s.len(),
{
    if s.len() == 0 {
        Seq::empty()
    } else {
        enc_u32(s[0] as u32) + enc_chars(s.drop_first())
    }
}

/// Decode `n` characters starting at `pos`.
pub open spec fn dec_chars(b: Seq<u8>, pos: int, n: nat) -> Option<(Seq<char>, int)>
    decreases n,
{
    if n == 0 {
        Some((Seq::empty(), pos))
    } else {
        match dec_u32(b, pos) {
            Some((v, p)) => {
                if is_scalar_value(v) {
                    match dec_chars(b, p, (n - 1) as nat) {
                        Some((cs, p2)) => Some((seq![v as char] + cs, p2)),
                        None => None,
                    }
                } else {
                    None
                }
            },
            None => None,
        }
    }
}

/// A string: its character count, then its characters.
pub open spec fn enc_str(s: Seq<char>) -> Seq<u8> {
    enc_u32(s.len() as u32) + enc_chars(s)
}

/// Decode a string at `pos`.
pub open spec fn dec_str(b: Seq<u8>, pos: int) -> Option<(Seq<char>, int)> {
    match dec_u32(b, pos) {
        Some((n, p)) => dec_chars(b, p, n as nat),
        None => None,
    }
}

/// Decoding finds exactly the characters that were encoded.
pub proof fn lemma_dec_enc_chars(pre: Seq<u8>, s: Seq<char>, rest: Seq<u8>)
    ensures
        dec_chars(pre + enc_chars(s) + rest, pre.len() as int, s.len() as nat) == Some(
            (s, pre.len() as int + enc_chars(s).len()),
        ),
    decreases s.len(),
{
    let b = pre + enc_chars(s) + rest;
    if s.len() == 0 {
        assert(enc_chars(s) =~= Seq::<u8>::empty());
    } else {
        let c0 = s[0] as u32;
        assert(enc_chars(s) == enc_u32(c0) + enc_chars(s.drop_first()));
        assert(b =~= pre + enc_u32(c0) + (enc_chars(s.drop_first()) + rest));
        lemma_dec_enc_u32(pre, c0, enc_chars(s.drop_first()) + rest);
        assert(dec_u32(b, pre.len() as int) == Some((c0, pre.len() as int + 4)));
        vstd::utf8::char_is_scalar(s[0]);
        assert(is_scalar_value(c0));
        let pre2 = pre + enc_u32(c0);
        assert(b =~= pre2 + enc_chars(s.drop_first()) + rest);
        lemma_dec_enc_chars(pre2, s.drop_first(), rest);
        assert(dec_chars(b, pre.len() as int + 4, (s.len() - 1) as nat) == Some(
            (s.drop_first(), pre2.len() as int + enc_chars(s.drop_first()).len()),
        ));
        vstd::utf8::char_u32_cast(s[0], c0);
        assert(seq![c0 as char] + s.drop_first() =~= s);
        assert(enc_chars(s).len() == 4 + enc_chars(s.drop_first()).len());
    }
}

/// Decoding finds exactly the string that was encoded.
pub proof fn lemma_dec_enc_str(pre: Seq<u8>, s: Seq<char>, rest: Seq<u8>)
    requires
        s.len() <= 0xFFFFFFFF,
    ensures
        dec_str(pre + enc_str(s) + rest, pre.len() as int) == Some(
            (s, pre.len() as int + enc_str(s).len()),
        ),
{
    let b = pre + enc_str(s) + rest;
    let n = s.len() as u32;
    assert(b =~= pre + enc_u32(n) + (enc_chars(s) + rest));
    lemma_dec_enc_u32(pre, n, enc_chars(s) + rest);
    let pre2 = pre + enc_u32(n);
    assert(b =~= pre2 + enc_chars(s) + rest);
    lemma_dec_enc_chars(pre2, s, rest);
}

/// One certification: issuer, target, amount, depth.
pub open spec fn enc_certification(c: CertificationV) -> Seq<u8> {
    enc_str(c.issuer) + enc_str(c.target) + seq![c.amount, c.depth]
}

/// Decode one certification at `pos`.
pub open spec fn dec_certification(b: Seq<u8>, pos: int) -> Option<(CertificationV, int)> {
    match dec_str(b, pos) {
        Some((issuer, p1)) => match dec_str(b, p1) {
            Some((target, p2)) => {
                if p2 + 2 <= b.len() {
                    Some(
                        (
                            CertificationV {
                                issuer,
                                target,
                                amount: b[p2],
                                depth: b[p2 + 1],
                            },
                            p2 + 2,
                        ),
                    )
                } else {
                    None
                }
            },
            None => None,
        },
        None => None,
    }
}

/// A certification whose strings fit the length fields.
pub open spec fn certification_encodable(c: CertificationV) -> bool {
    c.issuer.len() <= 0xFFFFFFFF && c.target.len() <= 0xFFFFFFFF
}

/// Decoding finds exactly the certification that was encoded.
#[verifier::rlimit(100)]
pub proof fn lemma_dec_enc_certification(pre: Seq<u8>, c: CertificationV, rest: Seq<u8>)
    requires
        certification_encodable(c),
    ensures
        dec_certification(pre + enc_certification(c) + rest, pre.len() as int) == Some(
            (c, pre.len() as int + enc_certification(c).len()),
        ),
{
    let b = pre + enc_certification(c) + rest;
    assert(b =~= pre + enc_str(c.issuer) + (enc_str(c.target) + seq![c.amount, c.depth] + rest));
    lemma_dec_enc_str(pre, c.issuer, enc_str(c.target) + seq![c.amount, c.depth] + rest);
    let pre2 = pre + enc_str(c.issuer);
    assert(b =~= pre2 + enc_str(c.target) + (seq![c.amount, c.depth] + rest));
    lemma_dec_enc_str(pre2, c.target, seq![c.amount, c.depth] + rest);
    let p2 = pre2.len() + enc_str(c.target).len();
    assert(b[p2 as int] == c.amount);
    assert(b[p2 as int + 1] == c.depth);
    assert(dec_certification(b, pre.len() as int) matches Some(r) && r.0 =~= c && r.1 == pre.len()
        + enc_certification(c).len());
}

/// A list of certifications, one after the other.
pub open spec fn enc_certifications(cs: Seq<CertificationV>) -> Seq<u8>
    decreases cs.len(),
{
    if cs.len() == 0 {
        Seq::empty()
    } else {
        enc_certification(cs[0]) + enc_certifications(cs.drop_first())
    }
}

/// Decode `n` certifications at `pos`.
pub open spec fn dec_certifications(b: Seq<u8>, pos: int, n: nat) -> Option<
    (Seq<CertificationV>, int),
>
    decreases n,
{
    if n == 0 {
        Some((Seq::empty(), pos))
    } else {
        match dec_certification(b, pos) {
            Some((c, p)) => match dec_certifications(b, p, (n - 1) as nat) {
                Some((cs, p2)) => Some((seq![c] + cs, p2)),
                None => None,
            },
            None => None,
        }
    }
}

/// Decoding finds exactly the certifications that were encoded.
#[verifier::rlimit(100)]
pub proof fn lemma_dec_enc_certifications(pre: Seq<u8>, cs: Seq<CertificationV>, rest: Seq<u8>)
    requires
        forall|i: int| 0 <= i < cs.len() ==> certification_encodable(#[trigger] cs[i]),
    ensures
        dec_certifications(pre + enc_certifications(cs) + rest, pre.len() as int, cs.len() as nat)
            == Some((cs, pre.len() as int + enc_certifications(cs).len())),
    decreases cs.len(),
{
    let b = pre + enc_certifications(cs) + rest;
    if cs.len() == 0 {
        assert(enc_certifications(cs) =~= Seq::<u8>::empty());
    } else {
        assert(b =~= pre + enc_certification(cs[0]) + (enc_certifications(cs.drop_first())
            + rest));
        lemma_dec_enc_certification(pre, cs[0], enc_certifications(cs.drop_first()) + rest);
        let pre2 = pre + enc_certification(cs[0]);
        assert(b =~= pre2 + enc_certifications(cs.drop_first()) + rest);
        assert(forall|i: int|
            0 <= i < cs.drop_first().len() ==> certification_encodable(
                #[trigger] cs.drop_first()[i],
            ));
        lemma_dec_enc_certifications(pre2, cs.drop_first(), rest);
        assert(seq![cs[0]] + cs.drop_first() =~= cs);
    }
}

/// A list of strings, one after the other.
pub open spec fn enc_strs(ss: Seq<Seq<char>>) -> Seq<u8>
    decreases ss.len(),
{
    if ss.len() == 0 {
        Seq::empty()
    } else {
        enc_str(ss[0]) + enc_strs(ss.drop_first())
    }
}

/// Decode `n` strings at `pos`.
pub open spec fn dec_strs(b: Seq<u8>, pos: int, n: nat) -> Option<(Seq<Seq<char>>, int)>
    decreases n,
{
    if n == 0 {
        Some((Seq::empty(), pos))
    } else {
        match dec_str(b, pos) {
            Some((s, p)) => match dec_strs(b, p, (n - 1) as nat) {
                Some((ss, p2)) => Some((seq![s] + ss, p2)),
                None => None,
            },
            None => None,
        }
    }
}

/// Decoding finds exactly the strings that were encoded.
#[verifier::rlimit(100)]
pub proof fn lemma_dec_enc_strs(pre: Seq<u8>, ss: Seq<Seq<char>>, rest: Seq<u8>)
    requires
        forall|i: int| 0 <= i < ss.len() ==> (#[trigger] ss[i]).len() <= 0xFFFFFFFF,
    ensures
        dec_strs(pre + enc_strs(ss) + rest, pre.len() as int, ss.len() as nat) == Some(
            (ss, pre.len() as int + enc_strs(ss).len()),
        ),
    decreases ss.len(),
{
    let b = pre + enc_strs(ss) + rest;
    if ss.len() == 0 {
        assert(enc_strs(ss) =~= Seq::<u8>::empty());
    } else {
        assert(b =~= pre + enc_str(ss[0]) + (enc_strs(ss.drop_first()) + rest));
        lemma_dec_enc_str(pre, ss[0], enc_strs(ss.drop_first()) + rest);
        let pre2 = pre + enc_str(ss[0]);
        assert(b =~= pre2 + enc_strs(ss.drop_first()) + rest);
        assert(forall|i: int|
            0 <= i < ss.drop_first().len() ==> (#[trigger] ss.drop_first()[i]).len()
                <= 0xFFFFFFFF);
        lemma_dec_enc_strs(pre2, ss.drop_first(), rest);
        assert(seq![ss[0]] + ss.drop_first() =~= ss);
    }
}

/// The public core of a certificate that the wire format carries: its
/// fingerprint, identity labels and certifications.  Key material,
/// subkeys and secret material stay out of the export.
pub open spec fn public_core(c: CertificateV) -> CertificateV {
    CertificateV {
        fingerprint: c.fingerprint,
        keyid: Seq::empty(),
        key_material: Seq::empty(),
        user_ids: c.user_ids,
        subkeys: Seq::empty(),
        certifications: c.certifications,
        secret: None,
    }
}

/// Whether a certificate fits the wire format's length fields.
pub open spec fn cert_encodable(c: CertificateV) -> bool {
    &&& c.fingerprint.len() <= 0xFFFFFFFF
    &&& c.user_ids.len() <= 0xFFFFFFFF
    &&& c.certifications.len() <= 0xFFFFFFFF
    &&& forall|i: int| 0 <= i < c.user_ids.len() ==> (#[trigger] c.user_ids[i]).len() <= 0xFFFFFFFF
    &&& forall|i: int|
        0 <= i < c.certifications.len() ==> certification_encodable(#[trigger] c.certifications[i])
}

/// One certificate record.
pub open spec fn enc_cert(c: CertificateV) -> Seq<u8> {
    enc_str(c.fingerprint) + enc_u32(c.user_ids.len() as u32) + enc_strs(c.user_ids) + enc_u32(
        c.certifications.len() as u32,
    ) + enc_certifications(c.certifications)
}

/// Decode one certificate record at `pos`.
pub open spec fn dec_cert(b: Seq<u8>, pos: int) -> Option<(CertificateV, int)> {
    match dec_str(b, pos) {
        Some((fpr, p1)) => match dec_u32(b, p1) {
            Some((nuid, p2)) => match dec_strs(b, p2, nuid as nat) {
                Some((uids, p3)) => match dec_u32(b, p3) {
                    Some((ncert, p4)) => match dec_certifications(b, p4, ncert as nat) {
                        Some((certs, p5)) => Some(
                            (
                                CertificateV {
                                    fingerprint: fpr,
                                    keyid: Seq::empty(),
                                    key_material: Seq::empty(),
                                    user_ids: uids,
                                    subkeys: Seq::empty(),
                                    certifications: certs,
                                    secret: None,
                                },
                                p5,
                            ),
                        ),
                        None => None,
                    },
                    None => None,
                },
                None => None,
            },
            None => None,
        },
        None => None,
    }
}

/// The head of a certificate record decodes to its fingerprint and
/// identity labels.
#[verifier::rlimit(100)]
proof fn lemma_dec_enc_cert_head(pre: Seq<u8>, c: CertificateV, rest: Seq<u8>)
    requires
        cert_encodable(c),
    ensures
        ({
            let e1 = enc_str(c.fingerprint);
            let e3 = enc_strs(c.user_ids);
            let b = pre + enc_cert(c) + rest;
            &&& dec_str(b, pre.len() as int) == Some(
                (c.fingerprint, pre.len() as int + e1.len()),
            )
            &&& dec_u32(b, pre.len() as int + e1.len()) == Some(
                (c.user_ids.len() as u32, pre.len() as int + e1.len() + 4),
            )
            &&& dec_strs(b, pre.len() as int + e1.len() + 4, c.user_ids.len() as nat) == Some(
                (c.user_ids, pre.len() as int + e1.len() + 4 + e3.len()),
            )
        }),
{
    let e1 = enc_str(c.fingerprint);
    let e2 = enc_u32(c.user_ids.len() as u32);
    let e3 = enc_strs(c.user_ids);
    let e4 = enc_u32(c.certifications.len() as u32);
    let e5 = enc_certifications(c.certifications);
    let b = pre + enc_cert(c) + rest;
    assert(enc_cert(c) == e1 + e2 + e3 + e4 + e5);
    lemma_assoc(e1 + e2 + e3 + e4, e5, rest);
    lemma_assoc(e1 + e2 + e3, e4, e5 + rest);
    lemma_assoc(e1 + e2, e3, e4 + (e5 + rest));
    lemma_assoc(e1, e2, e3 + (e4 + (e5 + rest)));
    lemma_assoc(pre, enc_cert(c), rest);
    assert(b == pre + (e1 + (e2 + (e3 + (e4 + (e5 + rest))))));
    lemma_assoc(pre, e1, e2 + (e3 + (e4 + (e5 + rest))));
    assert(b == (pre + e1) + (e2 + (e3 + (e4 + (e5 + rest)))));
    lemma_assoc(pre + e1, e2, e3 + (e4 + (e5 + rest)));
    lemma_dec_enc_str(pre, c.fingerprint, e2 + (e3 + (e4 + (e5 + rest))));
    let pre2 = pre + e1;
    lemma_dec_enc_u32(pre2, c.user_ids.len() as u32, e3 + (e4 + (e5 + rest)));
    let pre3 = pre2 + e2;
    assert(b == pre3 + e3 + (e4 + (e5 + rest))) by {
        lemma_assoc(pre3, e3, e4 + (e5 + rest));
    }
    lemma_dec_enc_strs(pre3, c.user_ids, e4 + (e5 + rest));
}

/// Decoding finds exactly the public core of the encoded certificate.
#[verifier::rlimit(100)]
pub proof fn lemma_dec_enc_cert(pre: Seq<u8>, c: CertificateV, rest: Seq<u8>)
    requires
        cert_encodable(c),
    ensures
        dec_cert(pre + enc_cert(c) + rest, pre.len() as int) == Some(
            (public_core(c), pre.len() as int + enc_cert(c).len()),
        ),
{
    let e1 = enc_str(c.fingerprint);
    let e2 = enc_u32(c.user_ids.len() as u32);
    let e3 = enc_strs(c.user_ids);
    let e4 = enc_u32(c.certifications.len() as u32);
    let e5 = enc_certifications(c.certifications);
    let b = pre + enc_cert(c) + rest;
    lemma_dec_enc_cert_head(pre, c, rest);
    assert(enc_cert(c) == e1 + e2 + e3 + e4 + e5);
    lemma_assoc(pre, enc_cert(c), rest);
    lemma_assoc(e1 + e2 + e3 + e4, e5, rest);
    lemma_assoc(pre, e1 + e2 + e3 + e4, e5 + rest);
    assert(b == (pre + (e1 + e2 + e3 + e4)) + (e5 + rest));
    let pre4 = pre + e1 + e2 + e3;
    assert(pre + (e1 + e2 + e3 + e4) == pre4 + e4) by {
        lemma_assoc(e1 + e2 + e3, e4, Seq::<u8>::empty());
        assert(e1 + e2 + e3 + e4 + Seq::<u8>::empty() =~= e1 + e2 + e3 + e4);
        assert((e1 + e2 + e3) + (e4 + Seq::<u8>::empty()) =~= (e1 + e2 + e3) + e4);
        lemma_assoc(pre, e1 + e2 + e3, e4);
        assert(pre + (e1 + e2 + e3) =~= pre4);
    }
    assert(b == pre4 + e4 + (e5 + rest)) by {
        lemma_assoc(pre4, e4, e5 + rest);
    }
    lemma_dec_enc_u32(pre4, c.certifications.len() as u32, e5 + rest);
    let pre5 = pre4 + e4;
    assert(b == pre5 + e5 + rest) by {
        lemma_assoc(pre5, e5, rest);
    }
    lemma_dec_enc_certifications(pre5, c.certifications, rest);
    assert(dec_cert(b, pre.len() as int) matches Some(r) && r.0 =~= public_core(c) && r.1
        == pre.len() + enc_cert(c).len());
}

/// A certificate set: a count, then the records.
pub open spec fn enc_certs(cs: Seq<CertificateV>) -> Seq<u8> {
    enc_u32(cs.len() as u32) + enc_cert_list(cs)
}

/// The concatenated records.
pub open spec fn enc_cert_list(cs: Seq<CertificateV>) -> Seq<u8>
    decreases cs.len(),
{
    if cs.len() == 0 {
        Seq::empty()
    } else {
        enc_cert(cs[0]) + enc_cert_list(cs.drop_first())
    }
}

/// Decode `n` certificate records at `pos`.
pub open spec fn dec_cert_list(b: Seq<u8>, pos: int, n: nat) -> Option<(Seq<CertificateV>, int)>
    decreases n,
{
    if n == 0 {
        Some((Seq::empty(), pos))
    } else {
        match dec_cert(b, pos) {
            Some((c, p)) => match dec_cert_list(b, p, (n - 1) as nat) {
                Some((cs, p2)) => Some((seq![c] + cs, p2)),
                None => None,
            },
            None => None,
        }
    }
}

/// Decode a whole certificate set.
pub open spec fn dec_certs(b: Seq<u8>) -> Option<Seq<CertificateV>> {
    match dec_u32(b, 0) {
        Some((n, p)) => match dec_cert_list(b, p, n as nat) {
            Some((cs, p2)) => if p2 == b.len() {
                Some(cs)
            } else {
                None
            },
            None => None,
        },
        None => None,
    }
}

/// Whether every certificate of a set fits the wire format.
pub open spec fn certs_encodable(cs: Seq<CertificateV>) -> bool {
    cs.len() <= 0xFFFFFFFF && forall|i: int|
        0 <= i < cs.len() ==> cert_encodable(#[trigger] cs[i])
}

/// Decoding finds exactly the public cores of the encoded records.
#[verifier::rlimit(100)]
pub proof fn lemma_dec_enc_cert_list(pre: Seq<u8>, cs: Seq<CertificateV>, rest: Seq<u8>)
    requires
        forall|i: int| 0 <= i < cs.len() ==> cert_encodable(#[trigger] cs[i]),
    ensures
        dec_cert_list(pre + enc_cert_list(cs) + rest, pre.len() as int, cs.len() as nat) == Some(
            (cs.map_values(|c: CertificateV| public_core(c)), pre.len() as int + enc_cert_list(cs).len()),
        ),
    decreases cs.len(),
{
    let b = pre + enc_cert_list(cs) + rest;
    let m = cs.map_values(|c: CertificateV| public_core(c));
    if cs.len() == 0 {
        assert(enc_cert_list(cs) =~= Seq::<u8>::empty());
        assert(m =~= Seq::<CertificateV>::empty());
    } else {
        assert(b =~= pre + enc_cert(cs[0]) + (enc_cert_list(cs.drop_first()) + rest));
        lemma_dec_enc_cert(pre, cs[0], enc_cert_list(cs.drop_first()) + rest);
        let pre2 = pre + enc_cert(cs[0]);
        assert(b =~= pre2 + enc_cert_list(cs.drop_first()) + rest);
        assert(forall|i: int|
            0 <= i < cs.drop_first().len() ==> cert_encodable(#[trigger] cs.drop_first()[i]));
        lemma_dec_enc_cert_list(pre2, cs.drop_first(), rest);
        assert(seq![public_core(cs[0])] + cs.drop_first().map_values(
            |c: CertificateV| public_core(c),
        ) =~= m);
    }
}

/// The export/import round trip: decoding an encoded certificate set
/// yields exactly the public cores, preserving every fingerprint,
/// every user-identity label and every certification.
#[verifier::rlimit(100)]
pub proof fn lemma_export_import_round_trip(cs: Seq<CertificateV>)
    requires
        certs_encodable(cs),
    ensures
        dec_certs(enc_certs(cs)) == Some(cs.map_values(|c: CertificateV| public_core(c))),
        forall|i: int|
            0 <= i < cs.len() ==> {
                let d = dec_certs(enc_certs(cs)).unwrap();
                d[i].fingerprint == cs[i].fingerprint && d[i].user_ids == (#[trigger] cs[
                i]).user_ids && d[i].certifications == cs[i].certifications
            },
{
    let b = enc_certs(cs);
    let n = cs.len() as u32;
    assert(b =~= Seq::<u8>::empty() + enc_u32(n) + (enc_cert_list(cs) + Seq::<u8>::empty()));
    lemma_dec_enc_u32(Seq::empty(), n, enc_cert_list(cs) + Seq::empty());
    assert(dec_u32(b, 0) == Some((n, 4int)));
    let pre2 = Seq::<u8>::empty() + enc_u32(n);
    assert(b =~= pre2 + enc_cert_list(cs) + Seq::<u8>::empty());
    lemma_dec_enc_cert_list(pre2, cs, Seq::empty());
    assert(b.len() == pre2.len() + enc_cert_list(cs).len());
    let m = cs.map_values(|c: CertificateV| public_core(c));
    assert(dec_certs(b) == Some(m));
    assert forall|i: int| 0 <= i < cs.len() implies {
        let d = dec_certs(enc_certs(cs)).unwrap();
        d[i].fingerprint == cs[i].fingerprint && d[i].user_ids == (#[trigger] cs[i]).user_ids
            && d[i].certifications == cs[i].certifications
    } by {
        assert(m[i] == public_core(cs[i]));
    }
}

/// Appending one character extends the encoding at the end.
#[verifier::rlimit(100)]
proof fn lemma_enc_chars_push(s: Seq<char>, c: char)
    ensures
        enc_chars(s.push(c)) == enc_chars(s) + enc_u32(c as u32),
    decreases s.len(),
{
    if s.len() == 0 {
        assert(s.push(c)[0] == c);
        assert(s.push(c).drop_first() =~= Seq::<char>::empty());
        assert(enc_chars(s.push(c)) =~= enc_chars(s) + enc_u32(c as u32));
    } else {
        assert(s.push(c)[0] == s[0]);
        assert(s.push(c).drop_first() =~= s.drop_first().push(c));
        lemma_enc_chars_push(s.drop_first(), c);
        assert(enc_chars(s.push(c)) == enc_u32(s[0] as u32) + enc_chars(s.push(c).drop_first()));
        assert(enc_chars(s.push(c).drop_first()) == enc_chars(s.drop_first()) + enc_u32(
            c as u32,
        ));
        assert(enc_chars(s) == enc_u32(s[0] as u32) + enc_chars(s.drop_first()));
        assert(enc_u32(s[0] as u32) + (enc_chars(s.drop_first()) + enc_u32(c as u32)) =~= enc_u32(
            s[0] as u32,
        ) + enc_chars(s.drop_first()) + enc_u32(c as u32));
    }
}

/// Appending one string extends the encoding at the end.
#[verifier::rlimit(100)]
proof fn lemma_enc_strs_push(ss: Seq<Seq<char>>, x: Seq<char>)
    ensures
        enc_strs(ss.push(x)) == enc_strs(ss) + enc_str(x),
    decreases ss.len(),
{
    if ss.len() == 0 {
        assert(ss.push(x)[0] == x);
        assert(ss.push(x).drop_first() =~= Seq::<Seq<char>>::empty());
        assert(enc_strs(ss.push(x)) == enc_str(x) + enc_strs(ss.push(x).drop_first()));
        assert(enc_strs(ss.push(x).drop_first()) == Seq::<u8>::empty());
        assert(enc_strs(ss) == Seq::<u8>::empty());
        assert(enc_str(x) + Seq::<u8>::empty() =~= Seq::<u8>::empty() + enc_str(x));
    } else {
        assert(ss.push(x)[0] == ss[0]);
        assert(ss.push(x).drop_first() =~= ss.drop_first().push(x));
        lemma_enc_strs_push(ss.drop_first(), x);
        assert(enc_strs(ss.push(x)) == enc_str(ss[0]) + enc_strs(ss.push(x).drop_first()));
        assert(enc_strs(ss.push(x).drop_first()) == enc_strs(ss.drop_first()) + enc_str(x));
        assert(enc_strs(ss) == enc_str(ss[0]) + enc_strs(ss.drop_first()));
        lemma_assoc(enc_str(ss[0]), enc_strs(ss.drop_first()), enc_str(x));
    }
}

/// Appending one certification extends the encoding at the end.
#[verifier::rlimit(100)]
proof fn lemma_enc_certifications_push(cs: Seq<CertificationV>, c: CertificationV)
    ensures
        enc_certifications(cs.push(c)) == enc_certifications(cs) + enc_certification(c),
    decreases cs.len(),
{
    if cs.len() == 0 {
        assert(cs.push(c)[0] == c);
        assert(cs.push(c).drop_first() =~= Seq::<CertificationV>::empty());
        assert(enc_certifications(cs.push(c)) =~= enc_certifications(cs) + enc_certification(c));
    } else {
        assert(cs.push(c)[0] == cs[0]);
        assert(cs.push(c).drop_first() =~= cs.drop_first().push(c));
        lemma_enc_certifications_push(cs.drop_first(), c);
        assert(enc_certifications(cs.push(c)) == enc_certification(cs[0]) + enc_certifications(
            cs.push(c).drop_first(),
        ));
        assert(enc_certifications(cs.push(c).drop_first()) == enc_certifications(cs.drop_first())
            + enc_certification(c));
        assert(enc_certifications(cs) == enc_certification(cs[0]) + enc_certifications(
            cs.drop_first(),
        ));
        assert(enc_certification(cs[0]) + (enc_certifications(cs.drop_first())
            + enc_certification(c)) =~= enc_certification(cs[0]) + enc_certifications(
            cs.drop_first(),
        ) + enc_certification(c));
    }
}

/// Appending one certificate record extends the encoding at the end.
#[verifier::rlimit(100)]
proof fn lemma_enc_cert_list_push(cs: Seq<CertificateV>, c: CertificateV)
    ensures
        enc_cert_list(cs.push(c)) == enc_cert_list(cs) + enc_cert(c),
    decreases cs.len(),
{
    if cs.len() == 0 {
        assert(cs.push(c)[0] == c);
        assert(cs.push(c).drop_first() =~= Seq::<CertificateV>::empty());
        assert(enc_cert_list(cs.push(c)) == enc_cert(c) + enc_cert_list(cs.push(c).drop_first()));
        assert(enc_cert_list(cs.push(c).drop_first()) == Seq::<u8>::empty());
        assert(enc_cert_list(cs) == Seq::<u8>::empty());
        assert(enc_cert(c) + Seq::<u8>::empty() =~= Seq::<u8>::empty() + enc_cert(c));
    } else {
        assert(cs.push(c)[0] == cs[0]);
        assert(cs.push(c).drop_first() =~= cs.drop_first().push(c));
        lemma_enc_cert_list_push(cs.drop_first(), c);
        assert(enc_cert_list(cs.push(c)) == enc_cert(cs[0]) + enc_cert_list(
            cs.push(c).drop_first(),
        ));
        assert(enc_cert_list(cs.push(c).drop_first()) == enc_cert_list(cs.drop_first())
            + enc_cert(c));
        assert(enc_cert_list(cs) == enc_cert(cs[0]) + enc_cert_list(cs.drop_first()));
        lemma_assoc(enc_cert(cs[0]), enc_cert_list(cs.drop_first()), enc_cert(c));
    }
}

/// Write the four big-endian bytes of `v`.
pub fn push_u32(out: &mut Vec<u8>, v: u32)
    ensures
        final(out)@ == old(out)@ + enc_u32(v),
{
    out.push((v / 0x1000000) as u8);
    out.push(((v / 0x10000) % 0x100) as u8);
    out.push(((v / 0x100) % 0x100) as u8);
    out.push((v % 0x100) as u8);
    proof {
        assert(out@ =~= old(out)@ + enc_u32(v));
    }
}

/// Write the characters of `s`, one scalar each.
fn push_chars(out: &mut Vec<u8>, s: &String)
    ensures
        final(out)@ == old(out)@ + enc_chars(s@),
{
    let ghost o0 = out@;
    let n = s.as_str().unicode_len();
    let mut i: usize = 0;
    while i < n
        invariant
            i <= n,
            n == s@.len(),
            out@ == o0 + enc_chars(s@.subrange(0, i as int)),
        decreases n - i,
    {
        let c = s.as_str().get_char(i);
        push_u32(out, c as u32);
        proof {
            lemma_enc_chars_push(s@.subrange(0, i as int), s@[i as int]);
            assert(s@.subrange(0, i as int).push(s@[i as int]) =~= s@.subrange(0, i + 1));
            assert(out@ =~= o0 + enc_chars(s@.subrange(0, i + 1)));
        }
        i += 1;
    }
    proof {
        assert(s@.subrange(0, n as int) =~= s@);
    }
}

/// Write one length-prefixed string.
fn push_str(out: &mut Vec<u8>, s: &String) -> (r: Result<(), InternalErr>)
    ensures
        s@.len() <= 0xFFFFFFFF ==> r is Ok && final(out)@ == old(out)@ + enc_str(s@),
        s@.len() > 0xFFFFFFFF ==> (r matches Err(InternalErr::Generic(_))) && final(out)@ == old(
            out,
        )@,
{
    let n = s.as_str().unicode_len();
    if n > 0xFFFFFFFF as usize {
        return Err(InternalErr::Generic("string too long to encode"));
    }
    push_u32(out, n as u32);
    push_chars(out, s);
    proof {
        assert(final(out)@ =~= old(out)@ + enc_str(s@));
    }
    Ok(())
}

/// Write one certification record.
fn push_certification(out: &mut Vec<u8>, c: &Certification) -> (r: Result<(), InternalErr>)
    ensures
        r is Ok <==> certification_encodable(c.deep_view()),
        r is Ok ==> final(out)@ == old(out)@ + enc_certification(c.deep_view()),
        r is Err ==> r matches Err(InternalErr::Generic(_)),
{
    let ghost o0 = out@;
    if push_str(out, &c.issuer).is_err() {
        return Err(InternalErr::Generic("string too long to encode"));
    }
    if push_str(out, &c.target).is_err() {
        return Err(InternalErr::Generic("string too long to encode"));
    }
    out.push(c.amount);
    out.push(c.depth);
    proof {
        if certification_encodable(c.deep_view()) {
            assert(out@ =~= o0 + enc_certification(c.deep_view()));
        }
    }
    Ok(())
}

/// Write one certificate record: fingerprint, identity labels,
/// certifications.
fn push_cert(out: &mut Vec<u8>, c: &Certificate) -> (r: Result<(), InternalErr>)
    ensures
        r is Ok <==> cert_encodable(c.deep_view()),
        r is Ok ==> final(out)@ == old(out)@ + enc_cert(c.deep_view()),
        r is Err ==> r matches Err(InternalErr::Generic(_)),
{
    let ghost o0 = out@;
    let ghost cv = c.deep_view();
    if push_str(out, &c.fingerprint).is_err() {
        return Err(InternalErr::Generic("string too long to encode"));
    }
    if c.user_ids.len() > 0xFFFFFFFF as usize {
        return Err(InternalErr::Generic("too many user identities to encode"));
    }
    push_u32(out, c.user_ids.len() as u32);
    let ghost o1 = out@;
    let mut i: usize = 0;
    while i < c.user_ids.len()
        invariant
            i <= c.user_ids@.len(),
            cv == c.deep_view(),
            out@ == o1 + enc_strs(cv.user_ids.subrange(0, i as int)),
            forall|k: int| 0 <= k < i ==> (#[trigger] cv.user_ids[k]).len() <= 0xFFFFFFFF,
        decreases c.user_ids@.len() - i,
    {
        proof {
            assert(cv.user_ids[i as int] == c.user_ids@[i as int]@);
        }
        if push_str(out, &c.user_ids[i]).is_err() {
            return Err(InternalErr::Generic("string too long to encode"));
        }
        proof {
            lemma_enc_strs_push(cv.user_ids.subrange(0, i as int), cv.user_ids[i as int]);
            assert(cv.user_ids.subrange(0, i as int).push(cv.user_ids[i as int])
                =~= cv.user_ids.subrange(0, i + 1));
            assert(out@ =~= o1 + enc_strs(cv.user_ids.subrange(0, i + 1)));
        }
        i += 1;
    }
    proof {
        assert(cv.user_ids.subrange(0, c.user_ids@.len() as int) =~= cv.user_ids);
    }
    if c.certifications.len() > 0xFFFFFFFF as usize {
        return Err(InternalErr::Generic("too many certifications to encode"));
    }
    push_u32(out, c.certifications.len() as u32);
    let ghost o2 = out@;
    let mut j: usize = 0;
    while j < c.certifications.len()
        invariant
            j <= c.certifications@.len(),
            cv == c.deep_view(),
            out@ == o2 + enc_certifications(cv.certifications.subrange(0, j as int)),
            forall|k: int| 0 <= k < j ==> certification_encodable(#[trigger] cv.certifications[k]),
        decreases c.certifications@.len() - j,
    {
        proof {
            assert(cv.certifications[j as int] == c.certifications@[j as int].deep_view());
        }
        if push_certification(out, &c.certifications[j]).is_err() {
            return Err(InternalErr::Generic("string too long to encode"));
        }
        proof {
            lemma_enc_certifications_push(
                cv.certifications.subrange(0, j as int),
                cv.certifications[j as int],
            );
            assert(cv.certifications.subrange(0, j as int).push(cv.certifications[j as int])
                =~= cv.certifications.subrange(0, j + 1));
            assert(out@ =~= o2 + enc_certifications(cv.certifications.subrange(0, j + 1)));
        }
        j += 1;
    }
    proof {
        assert(cv.certifications.subrange(0, c.certifications@.len() as int)
            =~= cv.certifications);
        if cert_encodable(cv) {
            assert(out@ =~= o0 + enc_cert(cv));
        }
    }
    Ok(())
}

/// Serialize a whole certificate set.
pub fn encode_certs(certs: &Vec<Certificate>) -> (r: Result<Vec<u8>, InternalErr>)
    ensures
        certs_encodable(certs.deep_view()) ==> r is Ok,
        r matches Ok(b) ==> certs_encodable(certs.deep_view()) && b@ == enc_certs(
            certs.deep_view(),
        ),
        r is Err ==> r matches Err(InternalErr::Generic(_)),
{
    let ghost cv = certs.deep_view();
    let mut out: Vec<u8> = Vec::new();
    if certs.len() > 0xFFFFFFFF as usize {
        return Err(InternalErr::Generic("too many certificates to encode"));
    }
    push_u32(&mut out, certs.len() as u32);
    let ghost o1 = out@;
    let mut i: usize = 0;
    while i < certs.len()
        invariant
            i <= certs@.len(),
            cv == certs.deep_view(),
            cv.len() <= 0xFFFFFFFF,
            out@ == o1 + enc_cert_list(cv.subrange(0, i as int)),
            forall|k: int| 0 <= k < i ==> cert_encodable(#[trigger] cv[k]),
        decreases certs@.len() - i,
    {
        proof {
            assert(cv[i as int] == certs@[i as int].deep_view());
        }
        if push_cert(&mut out, &certs[i]).is_err() {
            return Err(InternalErr::Generic("certificate too large to encode"));
        }
        proof {
            lemma_enc_cert_list_push(cv.subrange(0, i as int), cv[i as int]);
            assert(cv.subrange(0, i as int).push(cv[i as int]) =~= cv.subrange(0, i + 1));
            assert(out@ =~= o1 + enc_cert_list(cv.subrange(0, i + 1)));
        }
        i += 1;
    }
    proof {
        assert(cv.subrange(0, certs@.len() as int) =~= cv);
        assert(out@ =~= enc_certs(cv));
    }
    Ok(out)
}

/// Read four big-endian bytes at `pos`.
fn read_u32(b: &Vec<u8>, pos: usize) -> (r: Option<(u32, usize)>)
    ensures
        match r {
            Some((v, p)) => dec_u32(b@, pos as int) == Some((v, p as int)) && p <= b@.len(),
            None => dec_u32(b@, pos as int) is None,
        },
{
    if b.len() >= 4 && pos <= b.len() - 4 {
        let v = (b[pos] as u32) * 0x1000000 + (b[pos + 1] as u32) * 0x10000 + (b[pos + 2] as u32)
            * 0x100 + (b[pos + 3] as u32);
        proof {
            assert(b@[pos as int] * 0x1000000 + b@[pos as int + 1] * 0x10000 + b@[pos as int + 2]
                * 0x100 + b@[pos as int + 3] <= 0xFFFFFFFF);
            assert(v == u32_of(b@[pos as int], b@[pos as int + 1], b@[pos as int + 2], b@[
            pos as int + 3]));
        }
        Some((v, pos + 4))
    } else {
        None
    }
}

/// Read one length-prefixed string at `pos`.
fn read_str(b: &Vec<u8>, pos: usize) -> (r: Option<(String, usize)>)
    ensures
        match r {
            Some((s, p)) => dec_str(b@, pos as int) == Some((s@, p as int)) && p <= b@.len(),
            None => dec_str(b@, pos as int) is None,
        },
{
    let (n, p0) = match read_u32(b, pos) {
        Some(x) => x,
        None => {
            return None;
        },
    };
    let mut s = String::new();
    let mut p = p0;
    let mut i: u32 = 0;
    while i < n
        invariant
            i <= n,
            p <= b@.len(),
            dec_str(b@, pos as int) == (match dec_chars(b@, p as int, (n - i) as nat) {
                Some((cs, pp)) => Some((s@ + cs, pp)),
                None => None::<(Seq<char>, int)>,
            }),
        decreases n - i,
    {
        let (v, p2) = match read_u32(b, p) {
            Some(x) => x,
            None => {
                return None;
            },
        };
        let c = match char::from_u32(v) {
            Some(c) => c,
            None => {
                return None;
            },
        };
        let ghost s_old = s@;
        s.push(c);
        proof {
            vstd::utf8::char_u32_cast(c, v);
            assert(dec_chars(b@, p as int, (n - i) as nat) == (
            match dec_chars(b@, p2 as int, (n - i - 1) as nat) {
                Some((cs2, pp)) => Some((seq![v as char] + cs2, pp)),
                None => None::<(Seq<char>, int)>,
            }));
            match dec_chars(b@, p2 as int, (n - i - 1) as nat) {
                Some((cs2, pp)) => {
                    assert(s@ + cs2 =~= s_old + (seq![v as char] + cs2));
                },
                None => {},
            }
        }
        p = p2;
        i += 1;
    }
    proof {
        assert(dec_chars(b@, p as int, 0) == Some((Seq::<char>::empty(), p as int)));
        assert(s@ + Seq::<char>::empty() =~= s@);
    }
    Some((s, p))
}

/// Read one certification record at `pos`.
fn read_certification(b: &Vec<u8>, pos: usize) -> (r: Option<(Certification, usize)>)
    ensures
        match r {
            Some((c, p)) => dec_certification(b@, pos as int) == Some((c.deep_view(), p as int))
                && p <= b@.len(),
            None => dec_certification(b@, pos as int) is None,
        },
{
    let (issuer, p1) = match read_str(b, pos) {
        Some(x) => x,
        None => {
            return None;
        },
    };
    let (target, p2) = match read_str(b, p1) {
        Some(x) => x,
        None => {
            return None;
        },
    };
    if b.len() >= 2 && p2 <= b.len() - 2 {
        let amount = b[p2];
        let depth = b[p2 + 1];
        Some((Certification { issuer, target, amount, depth }, p2 + 2))
    } else {
        None
    }
}

/// Read `n` strings at `pos`.
fn read_strs(b: &Vec<u8>, pos: usize, n: u32) -> (r: Option<(Vec<String>, usize)>)
    requires
        pos <= b@.len(),
    ensures
        match r {
            Some((ss, p)) => dec_strs(b@, pos as int, n as nat) == Some(
                (ss.deep_view(), p as int),
            ) && p <= b@.len(),
            None => dec_strs(b@, pos as int, n as nat) is None,
        },
{
    let mut out: Vec<String> = Vec::new();
    let mut p = pos;
    let mut i: u32 = 0;
    proof {
        assert(out.deep_view() =~= Seq::<Seq<char>>::empty());
    }
    while i < n
        invariant
            i <= n,
            p <= b@.len(),
            dec_strs(b@, pos as int, n as nat) == (match dec_strs(b@, p as int, (n - i) as nat) {
                Some((ss2, pp)) => Some((out.deep_view() + ss2, pp)),
                None => None::<(Seq<Seq<char>>, int)>,
            }),
        decreases n - i,
    {
        let (s, p2) = match read_str(b, p) {
            Some(x) => x,
            None => {
                return None;
            },
        };
        let ghost o_old = out.deep_view();
        let ghost sv = s@;
        out.push(s);
        proof {
            assert(out.deep_view() =~= o_old.push(sv));
            match dec_strs(b@, p2 as int, (n - i - 1) as nat) {
                Some((ss2, pp)) => {
                    assert(out.deep_view() + ss2 =~= o_old + (seq![sv] + ss2));
                },
                None => {},
            }
        }
        p = p2;
        i += 1;
    }
    proof {
        assert(out.deep_view() + Seq::<Seq<char>>::empty() =~= out.deep_view());
    }
    Some((out, p))
}

/// Read `n` certification records at `pos`.
fn read_certifications(b: &Vec<u8>, pos: usize, n: u32) -> (r: Option<(Vec<Certification>, usize)>)
    requires
        pos <= b@.len(),
    ensures
        match r {
            Some((cs, p)) => dec_certifications(b@, pos as int, n as nat) == Some(
                (cs.deep_view(), p as int),
            ) && p <= b@.len(),
            None => dec_certifications(b@, pos as int, n as nat) is None,
        },
{
    let mut out: Vec<Certification> = Vec::new();
    let mut p = pos;
    let mut i: u32 = 0;
    proof {
        assert(out.deep_view() =~= Seq::<CertificationV>::empty());
    }
    while i < n
        invariant
            i <= n,
            p <= b@.len(),
            dec_certifications(b@, pos as int, n as nat) == (match dec_certifications(
                b@,
                p as int,
                (n - i) as nat,
            ) {
                Some((cs2, pp)) => Some((out.deep_view() + cs2, pp)),
                None => None::<(Seq<CertificationV>, int)>,
            }),
        decreases n - i,
    {
        let (c, p2) = match read_certification(b, p) {
            Some(x) => x,
            None => {
                return None;
            },
        };
        let ghost o_old = out.deep_view();
        let ghost cv = c.deep_view();
        out.push(c);
        proof {
            assert(out.deep_view() =~= o_old.push(cv));
            match dec_certifications(b@, p2 as int, (n - i - 1) as nat) {
                Some((cs2, pp)) => {
                    assert(out.deep_view() + cs2 =~= o_old + (seq![cv] + cs2));
                },
                None => {},
            }
        }
        p = p2;
        i += 1;
    }
    proof {
        assert(out.deep_view() + Seq::<CertificationV>::empty() =~= out.deep_view());
    }
    Some((out, p))
}

/// Read one certificate record at `pos`.
pub fn read_cert_at(b: &Vec<u8>, pos: usize) -> (r: Option<(Certificate, usize)>)
    ensures
        match r {
            Some((c, p)) => dec_cert(b@, pos as int) == Some((c.deep_view(), p as int)) && p
                <= b@.len(),
            None => dec_cert(b@, pos as int) is None,
        },
{
    let (fingerprint, p1) = match read_str(b, pos) {
        Some(x) => x,
        None => {
            return None;
        },
    };
    let (nuid, p2) = match read_u32(b, p1) {
        Some(x) => x,
        None => {
            return None;
        },
    };
    let (user_ids, p3) = match read_strs(b, p2, nuid) {
        Some(x) => x,
        None => {
            return None;
        },
    };
    let (ncert, p4) = match read_u32(b, p3) {
        Some(x) => x,
        None => {
            return None;
        },
    };
    let (certifications, p5) = match read_certifications(b, p4, ncert) {
        Some(x) => x,
        None => {
            return None;
        },
    };
    let c = Certificate {
        fingerprint,
        keyid: String::new(),
        key_material: Vec::new(),
        user_ids,
        subkeys: Vec::new(),
        certifications,
        secret: None,
    };
    proof {
        assert(c.key_material@ =~= Seq::<u8>::empty());
        assert(c.subkeys.deep_view() =~= Seq::<Seq<u8>>::empty());
        assert(dec_cert(b@, pos as int) matches Some(dc) && dc.0 =~= c.deep_view() && dc.1
            == p5 as int);
    }
    Some((c, p5))
}

/// Deserialize a whole certificate set; `ParseError` on malformed
/// bytes.
pub fn decode_certs(b: &Vec<u8>) -> (r: Result<Vec<Certificate>, InternalErr>)
    ensures
        match r {
            Ok(cs) => dec_certs(b@) == Some(cs.deep_view()),
            Err(e) => dec_certs(b@) is None && e matches InternalErr::ParseError,
        },
{
    let (n, p0) = match read_u32(b, 0) {
        Some(x) => x,
        None => {
            return Err(InternalErr::ParseError);
        },
    };
    let mut out: Vec<Certificate> = Vec::new();
    let mut p = p0;
    let mut i: u32 = 0;
    proof {
        assert(out.deep_view() =~= Seq::<CertificateV>::empty());
    }
    while i < n
        invariant
            i <= n,
            p <= b@.len(),
            dec_u32(b@, 0) == Some((n, p0 as int)),
            dec_cert_list(b@, p0 as int, n as nat) == (match dec_cert_list(
                b@,
                p as int,
                (n - i) as nat,
            ) {
                Some((cs2, pp)) => Some((out.deep_view() + cs2, pp)),
                None => None::<(Seq<CertificateV>, int)>,
            }),
        decreases n - i,
    {
        let (c, p2) = match read_cert_at(b, p) {
            Some(x) => x,
            None => {
                return Err(InternalErr::ParseError);
            },
        };
        let ghost o_old = out.deep_view();
        let ghost cv = c.deep_view();
        out.push(c);
        proof {
            assert(out.deep_view() =~= o_old.push(cv));
            match dec_cert_list(b@, p2 as int, (n - i - 1) as nat) {
                Some((cs2, pp)) => {
                    assert(out.deep_view() + cs2 =~= o_old + (seq![cv] + cs2));
                },
                None => {},
            }
        }
        p = p2;
        i += 1;
    }
    proof {
        assert(out.deep_view() + Seq::<CertificateV>::empty() =~= out.deep_view());
    }
    if p != b.len() {
        return Err(InternalErr::ParseError);
    }
    Ok(out)
}

} // verus!
