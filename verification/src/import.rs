//! Feeding certificate bytes into the system chunk by chunk.
//!
//! `PgpImportBytes` queues byte chunks handed in through `accept` and
//! plays them back through `read` and `read_exact`, keeping the unread
//! remainder of an oversized chunk in an internal buffer.  The buffer is
//! replayed from its tail, and a chunk whose length matches an exact
//! read is served as is: the replay order is part of the contract.

use vstd::prelude::*;

use crate::InternalErr;

verus! {

/// A queue of byte chunks plus the leftover buffer of partially read
/// chunks.
#[derive(Debug)]
pub struct PgpImportBytes {
    pub chunks: Vec<Vec<u8>>,
    pub buf: Vec<u8>,
}

/// A certificate import rooted at a file path; the file itself is read
/// at the edge of the system.
#[derive(Debug)]
pub struct PgpImportFile {
    pub file: String,
}

impl PgpImportFile {
    /// Remember the path to import from.
    pub fn new(path: &str) -> (r: PgpImportFile)
        ensures
            r.file@ == path@,
    {
        PgpImportFile { file: path.to_owned() }
    }
}

/// What one `read` call yields and leaves behind, given the queued
/// chunks, the leftover buffer, and the destination length `n`:
/// the tail of the buffer if it covers `n`, otherwise a prefix of the
/// next chunk, whose remainder is kept in the buffer.
pub open spec fn read_step(chunks: Seq<Seq<u8>>, buf: Seq<u8>, n: nat) -> Option<
    (Seq<u8>, Seq<Seq<u8>>, Seq<u8>),
> {
    if buf.len() >= n {
        Some(
            (
                buf.subrange(buf.len() - n, buf.len() as int),
                chunks,
                buf.subrange(0, buf.len() - n),
            ),
        )
    } else if chunks.len() == 0 {
        None
    } else {
        let c = chunks[0];
        if c.len() <= n {
            Some((c, chunks.drop_first(), buf))
        } else {
            Some((c.subrange(0, n as int), chunks.drop_first(), buf + c.subrange(n as int, c.len() as int)))
        }
    }
}

/// What `read_exact` does once the buffer alone cannot serve `n` bytes:
/// chunks are consumed in order; one whose length is exactly `n` is
/// served whole, otherwise it is folded into the buffer, whose tail is
/// served as soon as it covers `n`.
pub open spec fn read_exact_loop(chunks: Seq<Seq<u8>>, buf: Seq<u8>, n: nat) -> Option<
    (Seq<u8>, Seq<Seq<u8>>, Seq<u8>),
>
    decreases chunks.len(),
{
    if chunks.len() == 0 {
        None
    } else {
        let c = chunks[0];
        if c.len() == n {
            Some((c, chunks.drop_first(), buf))
        } else if buf.len() >= n {
            Some(
                (
                    buf.subrange(buf.len() - n, buf.len() as int),
                    chunks.drop_first(),
                    buf.subrange(0, buf.len() - n),
                ),
            )
        } else {
            read_exact_loop(chunks.drop_first(), buf + c, n)
        }
    }
}

/// The full effect of `read_exact`: the buffer tail when it already
/// covers `n`, otherwise the chunk-folding loop.
pub open spec fn read_exact_spec(chunks: Seq<Seq<u8>>, buf: Seq<u8>, n: nat) -> Option<
    (Seq<u8>, Seq<Seq<u8>>, Seq<u8>),
> {
    if buf.len() >= n {
        Some(
            (
                buf.subrange(buf.len() - n, buf.len() as int),
                chunks,
                buf.subrange(0, buf.len() - n),
            ),
        )
    } else {
        read_exact_loop(chunks, buf, n)
    }
}

/// Split the last `n` bytes off `buf`.
fn take_tail(buf: &mut Vec<u8>, n: usize) -> (r: Vec<u8>)
    requires
        n <= old(buf)@.len(),
    ensures
        r@ == old(buf)@.subrange(old(buf)@.len() - n, old(buf)@.len() as int),
        final(buf)@ == old(buf)@.subrange(0, old(buf)@.len() - n),
{
    let at = buf.len() - n;
    let r = buf.split_off(at);
    r
}

impl PgpImportBytes {
    /// An empty import queue.
    pub fn new() -> (r: PgpImportBytes)
        ensures
            r.chunks.deep_view() == Seq::<Seq<u8>>::empty(),
            r.buf@ == Seq::<u8>::empty(),
    {
        let r = PgpImportBytes { chunks: Vec::new(), buf: Vec::new() };
        proof {
            assert(r.chunks.deep_view() =~= Seq::<Seq<u8>>::empty());
        }
        r
    }

    /// Queue one chunk of bytes for later reading.
    pub fn accept(&mut self, bytes: Vec<u8>) -> (r: Result<(), InternalErr>)
        ensures
            r is Ok,
            final(self).chunks.deep_view() == old(self).chunks.deep_view().push(bytes@),
            final(self).buf == old(self).buf,
    {
        let ghost c0 = self.chunks.deep_view();
        self.chunks.push(bytes);
        proof {
            assert(self.chunks@.last().deep_view() =~= self.chunks@.last()@);
            assert(self.chunks.deep_view() =~= c0.push(self.chunks@.last().deep_view()));
        }
        Ok(())
    }

    /// Read up to `out.len()` bytes: from the buffer's tail when it
    /// covers the request, otherwise from the next queued chunk, whose
    /// overflow is kept in the buffer.  Returns how many bytes of `out`
    /// were filled, and fails only when nothing is queued.
    pub fn read(&mut self, out: &mut Vec<u8>) -> (r: Result<usize, InternalErr>)
        ensures
            match r {
                Ok(n) => {
                    &&& read_step(
                        old(self).chunks.deep_view(),
                        old(self).buf@,
                        old(out)@.len() as nat,
                    ) matches Some(step)
                    &&& n == step.0.len()
                    &&& final(out)@ == step.0 + old(out)@.subrange(
                        step.0.len() as int,
                        old(out)@.len() as int,
                    )
                    &&& final(self).chunks.deep_view() == step.1
                    &&& final(self).buf@ == step.2
                },
                Err(e) => {
                    &&& read_step(
                        old(self).chunks.deep_view(),
                        old(self).buf@,
                        old(out)@.len() as nat,
                    ) is None
                    &&& e matches InternalErr::Generic(_)
                    &&& *final(self) == *old(self)
                    &&& final(out)@ == old(out)@
                },
            },
    {
        let ghost out0 = out@;
        let n = out.len();
        if self.buf.len() >= n {
            let tail = take_tail(&mut self.buf, n);
            *out = tail;
            proof {
                assert(out@ =~= out@ + out0.subrange(n as int, out0.len() as int));
            }
            Ok(n)
        } else if self.chunks.len() == 0 {
            Err(InternalErr::Generic("no more chunks queued"))
        } else {
            let ghost cs0 = self.chunks.deep_view();
            let mut c = self.chunks.remove(0);
            proof {
                assert(c@ == cs0[0]);
                assert(self.chunks.deep_view() =~= cs0.drop_first());
            }
            if c.len() <= n {
                let clen = c.len();
                let mut filled = c;
                let mut i: usize = clen;
                while i < out.len()
                    invariant
                        clen <= i <= out@.len(),
                        filled@.len() == i,
                        filled@.subrange(0, clen as int) == cs0[0],
                        filled@.subrange(clen as int, i as int) == out@.subrange(
                            clen as int,
                            i as int,
                        ),
                    decreases out@.len() - i,
                {
                    let b = out[i];
                    filled.push(b);
                    proof {
                        assert(filled@.subrange(0, clen as int) =~= cs0[0]);
                        assert(filled@.subrange(clen as int, i + 1) =~= out@.subrange(
                            clen as int,
                            i + 1,
                        ));
                    }
                    i += 1;
                }
                proof {
                    assert(filled@ =~= cs0[0] + out0.subrange(clen as int, out0.len() as int));
                }
                *out = filled;
                Ok(clen)
            } else {
                let ghost b0 = self.buf@;
                let mut rest = c.split_off(n);
                self.buf.append(&mut rest);
                proof {
                    assert(c@ =~= cs0[0].subrange(0, n as int) + out0.subrange(
                        n as int,
                        out0.len() as int,
                    ));
                    assert(self.buf@ =~= b0 + cs0[0].subrange(n as int, cs0[0].len() as int));
                }
                *out = c;
                Ok(n)
            }
        }
    }

    /// Fill `out` exactly, consuming queued chunks as `read_exact_spec`
    /// describes; fails when the queue runs dry first.
    pub fn read_exact(&mut self, out: &mut Vec<u8>) -> (r: Result<(), InternalErr>)
        ensures
            match r {
                Ok(()) => {
                    &&& read_exact_spec(
                        old(self).chunks.deep_view(),
                        old(self).buf@,
                        old(out)@.len() as nat,
                    ) matches Some(step)
                    &&& final(out)@ == step.0
                    &&& final(self).chunks.deep_view() == step.1
                    &&& final(self).buf@ == step.2
                },
                Err(e) => {
                    &&& read_exact_spec(
                        old(self).chunks.deep_view(),
                        old(self).buf@,
                        old(out)@.len() as nat,
                    ) is None
                    &&& e matches InternalErr::Generic(_)
                    &&& final(out)@ == old(out)@
                    &&& final(self).chunks.deep_view().len() == 0
                },
            },
    {
        let n = out.len();
        if self.buf.len() >= n {
            let tail = take_tail(&mut self.buf, n);
            *out = tail;
            return Ok(());
        }
        loop
            invariant
                n == out@.len(),
                out@ == old(out)@,
                read_exact_spec(
                    old(self).chunks.deep_view(),
                    old(self).buf@,
                    n as nat,
                ) == read_exact_loop(self.chunks.deep_view(), self.buf@, n as nat),
            decreases self.chunks@.len(),
        {
            if self.chunks.len() == 0 {
                return Err(InternalErr::Generic("no more chunks queued"));
            }
            let ghost cs0 = self.chunks.deep_view();
            let ghost b0 = self.buf@;
            let mut c = self.chunks.remove(0);
            proof {
                assert(c@ == cs0[0]);
                assert(self.chunks.deep_view() =~= cs0.drop_first());
            }
            if c.len() == n {
                *out = c;
                return Ok(());
            } else if self.buf.len() >= n {
                let tail = take_tail(&mut self.buf, n);
                *out = tail;
                return Ok(());
            } else {
                self.buf.append(&mut c);
                proof {
                    assert(self.buf@ =~= b0 + cs0[0]);
                }
            }
        }
    }
}

} // verus!
