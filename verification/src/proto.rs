//! Length-delimited message framing for the news transport.
//!
//! A message on the wire is two length-delimited blocks: a small type
//! prefix naming the payload kind, then the payload itself, each block
//! preceded by its big-endian 32-bit length.  The type prefix is one
//! field holding the kind's code, omitted entirely when the code is
//! zero.  Payload bytes are carried opaquely.

use vstd::prelude::*;

use crate::codec::{dec_u32, enc_u32};
use crate::InternalErr;

verus! {

/// The kinds of payload a framed message can carry.
#[derive(Debug, Clone, Copy, PartialEq, Eq, Structural)]
pub enum PostType {
    Type,
    Post,
    User,
    Newsgroup,
}

/// The wire code of a payload kind.
pub open spec fn type_code(t: PostType) -> u8 {
    match t {
        PostType::Type => 0,
        PostType::Post => 1,
        PostType::User => 2,
        PostType::Newsgroup => 3,
    }
}

/// The encoded type prefix: one tagged byte pair, or nothing for the
/// zero code.
pub open spec fn enc_type_prefix(t: PostType) -> Seq<u8> {
    if type_code(t) == 0 {
        Seq::empty()
    } else {
        seq![8u8, type_code(t)]
    }
}

/// The payload kind behind a wire code, when the code is known.
pub open spec fn kind_of_code(code: u8) -> Option<PostType> {
    if code == 0 {
        Some(PostType::Type)
    } else if code == 1 {
        Some(PostType::Post)
    } else if code == 2 {
        Some(PostType::User)
    } else if code == 3 {
        Some(PostType::Newsgroup)
    } else {
        None
    }
}

/// The exact reading of a frame: the type block's length must be zero
/// (the zero code) or a two-byte tagged code, and the payload must fit
/// inside the message.
pub open spec fn dec_frame(b: Seq<u8>) -> Option<(PostType, Seq<u8>)> {
    match dec_u32(b, 0) {
        Some((tlen, p1)) => {
            let kr = if tlen == 0 {
                Some(PostType::Type)
            } else if tlen == 2 && p1 + 2 <= b.len() && b[p1] == 8 && 1 <= b[p1 + 1] <= 3 {
                kind_of_code(b[p1 + 1])
            } else {
                None
            };
            match kr {
                Some(kind) => match dec_u32(b, p1 + tlen as int) {
                    Some((plen, p3)) => if p3 + plen <= b.len() {
                        Some((kind, b.subrange(p3, p3 + plen as int)))
                    } else {
                        None
                    },
                    None => None,
                },
                None => None,
            }
        },
        None => None,
    }
}

/// A framed message: its kind and its opaque payload bytes.
#[derive(Debug)]
pub enum SubrosaMessage {
    MessageType(Vec<u8>),
    Newsgroup(Vec<u8>),
    Post(Vec<u8>),
    User(Vec<u8>),
}

impl SubrosaMessage {
    /// The kind of the message.
    pub open spec fn kind(&self) -> PostType {
        match self {
            SubrosaMessage::MessageType(_) => PostType::Type,
            SubrosaMessage::Newsgroup(_) => PostType::Newsgroup,
            SubrosaMessage::Post(_) => PostType::Post,
            SubrosaMessage::User(_) => PostType::User,
        }
    }

    /// The payload bytes of the message.
    pub open spec fn payload(&self) -> Seq<u8> {
        match self {
            SubrosaMessage::MessageType(b) => b@,
            SubrosaMessage::Newsgroup(b) => b@,
            SubrosaMessage::Post(b) => b@,
            SubrosaMessage::User(b) => b@,
        }
    }

    /// The wire form: the length-prefixed type block, then the
    /// length-prefixed payload.
    pub open spec fn enc(&self) -> Seq<u8> {
        enc_u32(enc_type_prefix(self.kind()).len() as u32) + enc_type_prefix(self.kind())
            + enc_u32(self.payload().len() as u32) + self.payload()
    }

    /// Serialize the message; refused when the payload exceeds the
    /// length field.
    pub fn encode_to_vec(&self) -> (r: Result<Vec<u8>, InternalErr>)
        ensures
            match r {
                Ok(b) => self.payload().len() <= 0xFFFFFFFF && b@ == self.enc(),
                Err(e) => self.payload().len() > 0xFFFFFFFF && e matches InternalErr::ParseError,
            },
    {
        let payload: &Vec<u8> = match self {
            SubrosaMessage::MessageType(b) => b,
            SubrosaMessage::Newsgroup(b) => b,
            SubrosaMessage::Post(b) => b,
            SubrosaMessage::User(b) => b,
        };
        if payload.len() > 0xFFFFFFFF as usize {
            return Err(InternalErr::ParseError);
        }
        let code: u8 = match self {
            SubrosaMessage::MessageType(_) => 0,
            SubrosaMessage::Post(_) => 1,
            SubrosaMessage::User(_) => 2,
            SubrosaMessage::Newsgroup(_) => 3,
        };
        let mut out: Vec<u8> = Vec::new();
        if code == 0 {
            crate::codec::push_u32(&mut out, 0);
        } else {
            crate::codec::push_u32(&mut out, 2);
            out.push(8);
            out.push(code);
        }
        crate::codec::push_u32(&mut out, payload.len() as u32);
        let mut i: usize = 0;
        let ghost mid = out@;
        while i < payload.len()
            invariant
                i <= payload@.len(),
                out@ == mid + payload@.subrange(0, i as int),
            decreases payload@.len() - i,
        {
            out.push(payload[i]);
            proof {
                assert(out@ =~= mid + payload@.subrange(0, i + 1));
            }
            i += 1;
        }
        proof {
            assert(payload@.subrange(0, payload@.len() as int) =~= payload@);
            assert(out@ =~= self.enc());
        }
        Ok(out)
    }

    /// Read a framed message back: succeeds exactly on the frames
    /// `dec_frame` accepts, returning their kind and payload, so every
    /// encoder output parses back; `ParseError` on anything else.
    pub fn parse(message: &Vec<u8>) -> (r: Result<SubrosaMessage, InternalErr>)
        ensures
            match r {
                Ok(m) => dec_frame(message@) == Some((m.kind(), m.payload())) && m.enc().len()
                    <= message@.len() && message@.subrange(0, m.enc().len() as int) == m.enc(),
                Err(e) => dec_frame(message@) is None && e matches InternalErr::ParseError,
            },
    {
        let (tlen, p1) = match read_u32_at(message, 0) {
            Some(x) => x,
            None => {
                return Err(InternalErr::ParseError);
            },
        };
        let code: u8;
        let p2: usize;
        if tlen == 0 {
            code = 0;
            p2 = p1;
        } else if tlen == 2 {
            if message.len() < 2 || p1 > message.len() - 2 {
                return Err(InternalErr::ParseError);
            }
            if message[p1] != 8 {
                return Err(InternalErr::ParseError);
            }
            code = message[p1 + 1];
            if code == 0 || code > 3 {
                return Err(InternalErr::ParseError);
            }
            p2 = p1 + 2;
        } else {
            return Err(InternalErr::ParseError);
        }
        let (plen, p3) = match read_u32_at(message, p2) {
            Some(x) => x,
            None => {
                return Err(InternalErr::ParseError);
            },
        };
        if plen as usize > message.len() - p3 {
            return Err(InternalErr::ParseError);
        }
        let payload = crate::handle::sub_bytes(message, p3, p3 + plen as usize);
        let m = match code {
            0 => SubrosaMessage::MessageType(payload),
            1 => SubrosaMessage::Post(payload),
            2 => SubrosaMessage::User(payload),
            _ => SubrosaMessage::Newsgroup(payload),
        };
        proof {
            let mb = message@;
            crate::codec::lemma_u32_inverse(mb[0], mb[1], mb[2], mb[3]);
            assert(mb.subrange(0, 4) =~= seq![mb[0], mb[1], mb[2], mb[3]]);
            assert(mb.subrange(0, 4) == enc_u32(tlen));
            let tpfx = enc_type_prefix(m.kind());
            assert(type_code(m.kind()) == code);
            assert(tpfx.len() == tlen);
            if tlen == 2 {
                assert(mb.subrange(4, 6) =~= seq![8u8, code]);
                assert(mb.subrange(4, 6) == tpfx);
            }
            crate::codec::lemma_u32_inverse(mb[p2 as int], mb[p2 as int + 1], mb[p2 as int + 2],
            mb[p2 as int + 3]);
            assert(mb.subrange(p2 as int, p2 as int + 4) =~= seq![
                mb[p2 as int],
                mb[p2 as int + 1],
                mb[p2 as int + 2],
                mb[p2 as int + 3],
            ]);
            assert(mb.subrange(p2 as int, p2 as int + 4) == enc_u32(plen));
            assert(m.payload() == mb.subrange(p3 as int, p3 as int + plen as int));
            assert(m.enc().len() == 4 + tpfx.len() + 4 + plen);
            assert(mb.subrange(0, m.enc().len() as int) =~= m.enc());
        }
        Ok(m)
    }
}

/// Framing round trip: every encoder output is a frame `dec_frame`
/// reads back to the same kind and payload, so `parse` after
/// `encode_to_vec` returns the message unchanged.
pub proof fn lemma_parse_encode_round_trip(m: &SubrosaMessage)
    requires
        m.payload().len() <= 0xFFFFFFFF,
    ensures
        dec_frame(m.enc()) == Some((m.kind(), m.payload())),
{
    let b = m.enc();
    let tpfx = enc_type_prefix(m.kind());
    let tlen = tpfx.len() as u32;
    let plen = m.payload().len() as u32;
    assert(b =~= Seq::<u8>::empty() + enc_u32(tlen) + (tpfx + enc_u32(plen) + m.payload()));
    crate::codec::lemma_dec_enc_u32(
        Seq::empty(),
        tlen,
        tpfx + enc_u32(plen) + m.payload(),
    );
    assert(dec_u32(b, 0) == Some((tlen, 4int)));
    if tlen == 2 {
        assert(b[4] == tpfx[0]);
        assert(b[5] == tpfx[1]);
        assert(b[4] == 8u8 && 1 <= b[5] <= 3);
        assert(kind_of_code(b[5]) == Some(m.kind()));
    }
    let pre2 = Seq::<u8>::empty() + enc_u32(tlen) + tpfx;
    assert(b =~= pre2 + enc_u32(plen) + m.payload());
    crate::codec::lemma_dec_enc_u32(pre2, plen, m.payload());
    assert(dec_u32(b, 4 + tlen as int) == Some((plen, pre2.len() as int + 4)));
    assert(b.subrange(pre2.len() as int + 4, pre2.len() as int + 4 + plen as int)
        =~= m.payload());
}

/// Read a 32-bit big-endian length at `pos`.
fn read_u32_at(b: &Vec<u8>, pos: usize) -> (r: Option<(u32, usize)>)
    ensures
        match r {
            Some((v, p)) => dec_u32(b@, pos as int) == Some((v, p as int)) && p <= b@.len(),
            None => dec_u32(b@, pos as int) is None,
        },
{
    if b.len() >= 4 && pos <= b.len() - 4 {
        let v = (b[pos] as u32) * 0x1000000 + (b[pos + 1] as u32) * 0x10000 + (b[pos + 2] as u32)
            * 0x100 + (b[pos + 3] as u32);
        proof {
            assert(b@[pos as int] * 0x1000000 + b@[pos as int + 1] * 0x10000 + b@[pos as int + 2]
                * 0x100 + b@[pos as int + 3] <= 0xFFFFFFFF);
        }
        Some((v, pos + 4))
    } else {
        None
    }
}

} // verus!
