//! Key handles: fingerprints and short key ids, with their canonical
//! uppercase-hex text form.

use vstd::prelude::*;

use crate::InternalErr;

verus! {

/// The value of a hexadecimal digit, or 16 for any other character.
pub open spec fn hex_digit_val(c: char) -> int {
    if '0' <= c && c <= '9' {
        c as int - '0' as int
    } else if 'A' <= c && c <= 'F' {
        c as int - 'A' as int + 10
    } else if 'a' <= c && c <= 'f' {
        c as int - 'a' as int + 10
    } else {
        16
    }
}

/// Whether `c` is a hexadecimal digit.
pub open spec fn is_hex_digit(c: char) -> bool {
    hex_digit_val(c) < 16
}

/// The uppercase digit for a value below 16.
pub open spec fn hex_char(v: int) -> char {
    if v == 0 {
        '0'
    } else if v == 1 {
        '1'
    } else if v == 2 {
        '2'
    } else if v == 3 {
        '3'
    } else if v == 4 {
        '4'
    } else if v == 5 {
        '5'
    } else if v == 6 {
        '6'
    } else if v == 7 {
        '7'
    } else if v == 8 {
        '8'
    } else if v == 9 {
        '9'
    } else if v == 10 {
        'A'
    } else if v == 11 {
        'B'
    } else if v == 12 {
        'C'
    } else if v == 13 {
        'D'
    } else if v == 14 {
        'E'
    } else {
        'F'
    }
}

/// The uppercase-hex text of a byte sequence, two digits per byte.
pub open spec fn bytes_to_hex(b: Seq<u8>) -> Seq<char>
    decreases b.len(),
{
    if b.len() == 0 {
        Seq::empty()
    } else {
        seq![hex_char(b[0] as int / 16), hex_char(b[0] as int % 16)] + bytes_to_hex(b.drop_first())
    }
}

/// The bytes of a hex text, or nothing if it is odd-length or holds a
/// non-digit.
pub open spec fn hex_to_bytes(s: Seq<char>) -> Option<Seq<u8>>
    decreases s.len(),
{
    if s.len() == 0 {
        Some(Seq::empty())
    } else if s.len() == 1 {
        None
    } else if is_hex_digit(s[0]) && is_hex_digit(s[1]) {
        match hex_to_bytes(s.subrange(2, s.len() as int)) {
            Some(b) => Some(
                seq![(hex_digit_val(s[0]) * 16 + hex_digit_val(s[1])) as u8] + b,
            ),
            None => None,
        }
    } else {
        None
    }
}

/// Append one uppercase hex digit.
fn push_hex_digit(s: &mut String, v: u8)
    requires
        v < 16,
    ensures
        final(s)@ == old(s)@.push(hex_char(v as int)),
{
    let c: char = match v {
        0 => '0',
        1 => '1',
        2 => '2',
        3 => '3',
        4 => '4',
        5 => '5',
        6 => '6',
        7 => '7',
        8 => '8',
        9 => '9',
        10 => 'A',
        11 => 'B',
        12 => 'C',
        13 => 'D',
        14 => 'E',
        _ => 'F',
    };
    s.push(c);
}

/// Appending one byte extends the hex text by its two digits.
proof fn lemma_bytes_to_hex_push(b: Seq<u8>, x: u8)
    ensures
        bytes_to_hex(b.push(x)) == bytes_to_hex(b) + seq![hex_char(x as int / 16), hex_char(x as int % 16)],
    decreases b.len(),
{
    if b.len() == 0 {
        assert(b.push(x)[0] == x);
        assert(b.push(x).drop_first() =~= Seq::<u8>::empty());
        assert(bytes_to_hex(b.push(x)) == seq![hex_char(x as int / 16), hex_char(x as int % 16)]
            + bytes_to_hex(b.push(x).drop_first()));
        assert(bytes_to_hex(b.push(x).drop_first()) == Seq::<char>::empty());
        assert(bytes_to_hex(b) == Seq::<char>::empty());
        assert(seq![hex_char(x as int / 16), hex_char(x as int % 16)] + Seq::<char>::empty()
            =~= Seq::<char>::empty() + seq![hex_char(x as int / 16), hex_char(x as int % 16)]);
    } else {
        assert(b.push(x)[0] == b[0]);
        assert(b.push(x).drop_first() =~= b.drop_first().push(x));
        lemma_bytes_to_hex_push(b.drop_first(), x);
        assert(bytes_to_hex(b.push(x)) =~= bytes_to_hex(b) + seq![
            hex_char(x as int / 16),
            hex_char(x as int % 16),
        ]);
    }
}

/// The uppercase-hex rendering of `b`.
pub fn encode_hex(b: &Vec<u8>) -> (r: String)
    ensures
        r@ == bytes_to_hex(b@),
{
    let mut out = String::new();
    let mut i: usize = 0;
    while i < b.len()
        invariant
            i <= b@.len(),
            out@ == bytes_to_hex(b@.subrange(0, i as int)),
        decreases b@.len() - i,
    {
        let x = b[i];
        push_hex_digit(&mut out, x / 16);
        push_hex_digit(&mut out, x % 16);
        proof {
            lemma_bytes_to_hex_push(b@.subrange(0, i as int), b@[i as int]);
            assert(b@.subrange(0, i as int).push(b@[i as int]) =~= b@.subrange(0, i + 1));
            assert(out@ =~= bytes_to_hex(b@.subrange(0, i + 1)));
        }
        i += 1;
    }
    proof {
        assert(b@.subrange(0, b@.len() as int) =~= b@);
    }
    out
}

/// The value of one hex digit character, or 16.
fn hex_val_of(c: char) -> (v: u8)
    ensures
        v as int == hex_digit_val(c),
{
    let u = c as u32;
    if u >= 48 && u <= 57 {
        (u - 48) as u8
    } else if u >= 65 && u <= 70 {
        (u - 65 + 10) as u8
    } else if u >= 97 && u <= 102 {
        (u - 97 + 10) as u8
    } else {
        16
    }
}

/// Parse a hex text into bytes; `ParseError` when it is odd-length or
/// holds a character that is no hex digit.
pub fn parse_hex(s: &str) -> (r: Result<Vec<u8>, InternalErr>)
    ensures
        match r {
            Ok(b) => hex_to_bytes(s@) == Some(b@),
            Err(e) => hex_to_bytes(s@) is None && e matches InternalErr::ParseError,
        },
{
    let n = s.unicode_len();
    if n % 2 != 0 {
        proof {
            lemma_hex_to_bytes_odd(s@);
        }
        return Err(InternalErr::ParseError);
    }
    let mut out: Vec<u8> = Vec::new();
    let mut i: usize = 0;
    proof {
        assert(s@.subrange(0, n as int) =~= s@);
        match hex_to_bytes(s@) {
            Some(b) => {
                assert(out@ + b =~= b);
            },
            None => {},
        }
    }
    while i < n
        invariant
            i <= n,
            n == s@.len(),
            i % 2 == 0,
            n % 2 == 0,
            hex_to_bytes(s@) == (match hex_to_bytes(s@.subrange(i as int, n as int)) {
                Some(b) => Some(out@ + b),
                None => None::<Seq<u8>>,
            }),
        decreases n - i,
    {
        let c0 = s.get_char(i);
        let c1 = s.get_char(i + 1);
        let v0 = hex_val_of(c0);
        let v1 = hex_val_of(c1);
        if v0 >= 16 || v1 >= 16 {
            return Err(InternalErr::ParseError);
        }
        let ghost rem = s@.subrange(i as int, n as int);
        let ghost o_old = out@;
        out.push(v0 * 16 + v1);
        proof {
            assert(rem[0] == s@[i as int]);
            assert(rem[1] == s@[i as int + 1]);
            assert(rem.subrange(2, rem.len() as int) =~= s@.subrange(i as int + 2, n as int));
            match hex_to_bytes(s@.subrange(i as int + 2, n as int)) {
                Some(b) => {
                    assert(out@ + b =~= o_old + (seq![
                        (hex_digit_val(rem[0]) * 16 + hex_digit_val(rem[1])) as u8,
                    ] + b));
                },
                None => {},
            }
        }
        i += 2;
    }
    proof {
        assert(s@.subrange(n as int, n as int) =~= Seq::<char>::empty());
        assert(out@ + Seq::<u8>::empty() =~= out@);
    }
    Ok(out)
}

/// An odd-length text has no byte reading.
proof fn lemma_hex_to_bytes_odd(s: Seq<char>)
    requires
        s.len() % 2 == 1,
    ensures
        hex_to_bytes(s) is None,
    decreases s.len(),
{
    if s.len() > 1 {
        lemma_hex_to_bytes_odd(s.subrange(2, s.len() as int));
    }
}

/// A copy of the byte range `[from, to)` of `v`.
pub fn sub_bytes(v: &Vec<u8>, from: usize, to: usize) -> (r: Vec<u8>)
    requires
        from <= to <= v@.len(),
    ensures
        r@ == v@.subrange(from as int, to as int),
{
    let mut out: Vec<u8> = Vec::new();
    let mut i = from;
    while i < to
        invariant
            from <= i <= to <= v@.len(),
            out@ == v@.subrange(from as int, i as int),
        decreases to - i,
    {
        out.push(v[i]);
        proof {
            assert(out@ =~= v@.subrange(from as int, i + 1));
        }
        i += 1;
    }
    out
}

/// A handle on an identity key: either a full fingerprint or only a
/// short key id.  A fingerprint identifies a certificate uniquely; a key
/// id does not.
#[derive(Debug, PartialEq, Eq)]
pub enum UserHandle {
    Fingerprint(Vec<u8>),
    KeyId(Vec<u8>),
}

impl UserHandle {
    /// The raw bytes behind the handle.
    pub open spec fn bytes_view(&self) -> Seq<u8> {
        match self {
            UserHandle::Fingerprint(b) => b@,
            UserHandle::KeyId(b) => b@,
        }
    }

    /// Read a handle from hex text: twenty bytes make a fingerprint,
    /// anything else a key id.
    pub fn from_hex(s: &str) -> (r: Result<UserHandle, InternalErr>)
        ensures
            match r {
                Ok(h) => hex_to_bytes(s@) == Some(h.bytes_view()) && ((h is Fingerprint)
                    <==> h.bytes_view().len() == 20),
                Err(e) => hex_to_bytes(s@) is None && e matches InternalErr::ParseError,
            },
    {
        let b = match parse_hex(s) {
            Ok(b) => b,
            Err(e) => {
                return Err(e);
            },
        };
        if b.len() == 20 {
            Ok(UserHandle::Fingerprint(b))
        } else {
            Ok(UserHandle::KeyId(b))
        }
    }

    /// The canonical uppercase-hex name of the handle.
    pub fn name(&self) -> (r: String)
        ensures
            r@ == bytes_to_hex(self.bytes_view()),
    {
        match self {
            UserHandle::Fingerprint(b) => encode_hex(b),
            UserHandle::KeyId(b) => encode_hex(b),
        }
    }

    /// A copy of the raw bytes.
    pub fn as_bytes(&self) -> (r: Vec<u8>)
        ensures
            r@ == self.bytes_view(),
    {
        let b = match self {
            UserHandle::Fingerprint(b) => b.clone(),
            UserHandle::KeyId(b) => b.clone(),
        };
        proof {
            assert(b@ =~= self.bytes_view());
        }
        b
    }

    /// The full fingerprint, or `FingerprintRequired` when only a key id
    /// is at hand.
    pub fn try_fingerprint(&self) -> (r: Result<Vec<u8>, InternalErr>)
        ensures
            match r {
                Ok(b) => self is Fingerprint && b@ == self.bytes_view(),
                Err(e) => self is KeyId && e matches InternalErr::FingerprintRequired,
            },
    {
        match self {
            UserHandle::Fingerprint(b) => {
                let c = b.clone();
                proof {
                    assert(c@ =~= self.bytes_view());
                }
                Ok(c)
            },
            UserHandle::KeyId(_) => Err(InternalErr::FingerprintRequired),
        }
    }
}

/// A textual key handle as callers supply it: a hex key id or a hex
/// fingerprint.
#[derive(Debug)]
pub enum KeyHandle {
    KeyId(String),
    Fingerprint(String),
}

impl KeyHandle {
    /// Parse the hex text into a byte-level handle, keeping its kind.
    pub fn handle(&self) -> (r: Result<UserHandle, InternalErr>)
        ensures
            match r {
                Ok(h) => match self {
                    KeyHandle::Fingerprint(f) => hex_to_bytes(f@) == Some(h.bytes_view()),
                    KeyHandle::KeyId(k) => hex_to_bytes(k@) == Some(h.bytes_view()),
                },
                Err(e) => e matches InternalErr::ParseError,
            },
    {
        match self {
            KeyHandle::Fingerprint(f) => {
                let b = match parse_hex(f.as_str()) {
                    Ok(b) => b,
                    Err(e) => {
                        return Err(e);
                    },
                };
                if b.len() == 20 {
                    Ok(UserHandle::Fingerprint(b))
                } else {
                    Ok(UserHandle::KeyId(b))
                }
            },
            KeyHandle::KeyId(k) => {
                let b = match parse_hex(k.as_str()) {
                    Ok(b) => b,
                    Err(e) => {
                        return Err(e);
                    },
                };
                Ok(UserHandle::KeyId(b))
            },
        }
    }
}

} // verus!
