//! The gRPC message framing used on every tunneled call: one byte of
//! compression flag (always zero here) and a four-byte big-endian length,
//! then the message bytes; and the buffer that reassembles framed
//! messages from a stream of arbitrarily split chunks.

use vstd::prelude::*;

verus! {

/// The four big-endian bytes of a 32-bit length.
pub open spec fn be32(n: nat) -> Seq<u8> {
    seq![
        ((n / 0x1000000) % 256) as u8,
        ((n / 0x10000) % 256) as u8,
        ((n / 0x100) % 256) as u8,
        (n % 256) as u8,
    ]
}

/// The value the four big-endian bytes stand for.
pub open spec fn be32_value(s: Seq<u8>) -> nat
    recommends
        s.len() == 4,
{
    (s[0] as nat) * 0x1000000 + (s[1] as nat) * 0x10000 + (s[2] as nat) * 0x100 + (s[3] as nat)
}

/// A frame: zero compression flag, big-endian length, then the payload.
pub open spec fn spec_frame(payload: Seq<u8>) -> Seq<u8> {
    seq![0u8] + be32(payload.len()) + payload
}

/// Read one frame from the front: its compression flag, its payload, and
/// the remaining bytes; nothing when a whole frame is not there yet.
pub open spec fn take_frame(s: Seq<u8>) -> Option<(u8, Seq<u8>, Seq<u8>)> {
    if s.len() < 5 {
        None
    } else {
        let n = be32_value(s.subrange(1, 5));
        if s.len() >= 5 + n {
            Some((s[0], s.subrange(5, 5 + n as int), s.skip(5 + n as int)))
        } else {
            None
        }
    }
}

/// The four length bytes of a frame decode back to the length.
pub proof fn lemma_be32_roundtrip(n: nat)
    requires
        n <= u32::MAX,
    ensures
        be32_value(be32(n)) == n,
{
    vstd::arithmetic::div_mod::lemma_fundamental_div_mod(n as int, 0x100);
    vstd::arithmetic::div_mod::lemma_fundamental_div_mod(n as int / 0x100, 0x100);
    vstd::arithmetic::div_mod::lemma_fundamental_div_mod(n as int / 0x10000, 0x100);
    assert(be32_value(be32(n)) == n) by (nonlinear_arith)
        requires
            n <= 0xFFFFFFFF,
    ;
}

/// Reading a framed message gives its payload back and leaves the rest.
pub proof fn lemma_frame_roundtrip(payload: Seq<u8>, rest: Seq<u8>)
    requires
        payload.len() <= u32::MAX,
    ensures
        take_frame(spec_frame(payload) + rest) == Some((0u8, payload, rest)),
{
    let e = spec_frame(payload) + rest;
    assert(e.len() == 5 + payload.len() + rest.len());
    assert(e[0] == 0u8);
    assert(e.subrange(1, 5) =~= be32(payload.len()));
    lemma_be32_roundtrip(payload.len());
    assert(e.subrange(5, 5 + payload.len() as int) =~= payload);
    assert(e.skip(5 + payload.len() as int) =~= rest);
}

/// Wrap one message in the five-byte frame header.
pub fn frame_message(payload: &Vec<u8>) -> (r: Vec<u8>)
    requires
        payload@.len() <= u32::MAX,
    ensures
        r@ == spec_frame(payload@),
{
    let len: u32 = payload.len() as u32;
    let mut out: Vec<u8> = Vec::new();
    out.push(0u8);
    out.push(((len / 0x1000000) % 256) as u8);
    out.push(((len / 0x10000) % 256) as u8);
    out.push(((len / 0x100) % 256) as u8);
    out.push((len % 256) as u8);
    proof {
        assert(out@ =~= seq![0u8] + be32(payload@.len()));
    }
    crate::wire::write_bytes(&mut out, payload);
    out
}

/// Unwrap the single framed message of a unary request body: exactly one
/// uncompressed frame with nothing after it.
pub fn unframe_message(body: &Vec<u8>) -> (r: Option<Vec<u8>>)
    ensures
        match r {
            Some(p) => take_frame(body@) == Some((0u8, p@, Seq::<u8>::empty())),
            None => take_frame(body@) matches Some(f) ==> (f.0 != 0 || f.2.len() != 0),
        },
{
    let blen = body.len();
    if blen < 5 {
        return None;
    }
    if body[0] != 0 {
        return None;
    }
    let n: u64 = (body[1] as u64) * 0x1000000 + (body[2] as u64) * 0x10000 + (body[3] as u64)
        * 0x100 + (body[4] as u64);
    proof {
        assert(body@.subrange(1, 5)[0] == body@[1]);
        assert(body@.subrange(1, 5)[1] == body@[2]);
        assert(body@.subrange(1, 5)[2] == body@[3]);
        assert(body@.subrange(1, 5)[3] == body@[4]);
        assert(n as nat == be32_value(body@.subrange(1, 5)));
    }
    if n != (blen - 5) as u64 {
        return None;
    }
    let mut payload: Vec<u8> = Vec::new();
    let mut i: usize = 5;
    while i < blen
        invariant
            5 <= i <= blen,
            blen == body@.len(),
            payload@ =~= body@.subrange(5, i as int),
        decreases blen - i,
    {
        payload.push(body[i]);
        i += 1;
    }
    proof {
        assert(body@.subrange(5, 5 + (blen - 5)) =~= payload@);
        assert(body@.skip(5 + (blen - 5)) =~= Seq::<u8>::empty());
    }
    Some(payload)
}

/// Reassembles gRPC frames from a stream of chunks: bytes go in as they
/// arrive, whole messages come out as soon as they are complete.
pub struct FrameBuffer {
    buf: Vec<u8>,
}

impl FrameBuffer {
    /// The bytes accumulated and not yet consumed.
    pub closed spec fn spec_buf(&self) -> Seq<u8> {
        self.buf@
    }

    /// An empty reassembly buffer.
    pub fn new() -> (r: FrameBuffer)
        ensures
            r.spec_buf() == Seq::<u8>::empty(),
    {
        let r = FrameBuffer { buf: Vec::new() };
        proof {
            assert(r.spec_buf() =~= Seq::<u8>::empty());
        }
        r
    }

    /// Append one received chunk.
    pub fn push_chunk(&mut self, chunk: &Vec<u8>)
        ensures
            final(self).spec_buf() == old(self).spec_buf() + chunk@,
    {
        crate::wire::write_bytes(&mut self.buf, chunk);
    }

    /// Take the next complete frame out of the buffer: its compression
    /// flag and payload; nothing while no whole frame has arrived.
    pub fn next_message(&mut self) -> (r: Option<(u8, Vec<u8>)>)
        ensures
            match r {
                Some(m) => take_frame(old(self).spec_buf()) matches Some(f) && f.0 == m.0 && f.1
                    == m.1@ && final(self).spec_buf() == f.2,
                None => take_frame(old(self).spec_buf()) is None && final(self).spec_buf() == old(
                    self,
                ).spec_buf(),
            },
    {
        let blen = self.buf.len();
        if blen < 5 {
            return None;
        }
        let n: u64 = (self.buf[1] as u64) * 0x1000000 + (self.buf[2] as u64) * 0x10000 + (
        self.buf[3] as u64) * 0x100 + (self.buf[4] as u64);
        proof {
            assert(self.buf@.subrange(1, 5)[0] == self.buf@[1]);
            assert(self.buf@.subrange(1, 5)[1] == self.buf@[2]);
            assert(self.buf@.subrange(1, 5)[2] == self.buf@[3]);
            assert(self.buf@.subrange(1, 5)[3] == self.buf@[4]);
            assert(n as nat == be32_value(self.buf@.subrange(1, 5)));
        }
        if n > (blen - 5) as u64 {
            return None;
        }
        let flag = self.buf[0];
        let n_us = n as usize;
        let mut payload: Vec<u8> = Vec::new();
        let mut i: usize = 0;
        while i < n_us
            invariant
                blen == self.buf@.len(),
                5 + n_us <= blen,
                0 <= i <= n_us,
                payload@ =~= self.buf@.subrange(5, 5 + i),
            decreases n_us - i,
        {
            payload.push(self.buf[5 + i]);
            i += 1;
        }
        let ghost pre = self.buf@;
        let mut rest: Vec<u8> = Vec::new();
        let mut j: usize = 5 + n_us;
        while j < blen
            invariant
                5 + n_us <= j <= blen,
                blen == self.buf@.len(),
                self.buf@ == pre,
                rest@ =~= pre.subrange(5 + n_us, j as int),
            decreases blen - j,
        {
            rest.push(self.buf[j]);
            j += 1;
        }
        self.buf = rest;
        proof {
            assert(pre.subrange(5, 5 + n as int) =~= pre.subrange(5, 5 + n_us as int));
            assert(self.buf@ =~= pre.skip(5 + n as int));
        }
        Some((flag, payload))
    }
}

} // verus!
