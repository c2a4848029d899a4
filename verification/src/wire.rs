//! Protobuf wire primitives: base-128 varints, field keys, and
//! length-delimited fields, with encoders, decoders, and the lemmas that
//! make them inverse to each other.
//!
//! Encoding follows proto3: a field whose value is the default is omitted,
//! a varint is emitted least-significant group first, and a decoder that
//! meets an unknown field skips it by its wire type.

use vstd::arithmetic::div_mod::lemma_fundamental_div_mod;
use vstd::prelude::*;
use vstd::utf8::{encode_utf8, valid_utf8};

verus! {

/// Why a byte sequence failed to decode.
#[derive(Debug, Clone, Copy, PartialEq, Eq, Structural)]
pub enum DecodeError {
    /// The bytes end in the middle of a value.
    Truncated,
    /// A varint does not fit in 64 bits, or a length does not fit in memory.
    Overflow,
    /// A value is not of the shape its field requires.
    Malformed,
}

/// The varint encoding of `n`: seven bits per byte, least significant
/// group first, the high bit marking continuation.
pub open spec fn spec_varint(n: nat) -> Seq<u8>
    decreases n,
{
    if n < 128 {
        seq![n as u8]
    } else {
        seq![((n % 128) + 128) as u8] + spec_varint(n / 128)
    }
}

/// Read one varint from the front: its value and the remaining bytes.
pub open spec fn take_varint(s: Seq<u8>) -> Option<(nat, Seq<u8>)>
    decreases s.len(),
{
    if s.len() == 0 {
        None
    } else if s[0] < 128 {
        Some((s[0] as nat, s.skip(1)))
    } else {
        match take_varint(s.skip(1)) {
            None => None,
            Some((v, rest)) => Some((((s[0] - 128) as nat + 128 * v) as nat, rest)),
        }
    }
}

/// A decoded varint consumed at least one byte.
pub proof fn lemma_take_varint_len(s: Seq<u8>)
    ensures
        take_varint(s) matches Some(p) ==> p.1.len() < s.len(),
    decreases s.len(),
{
    if s.len() > 0 && s[0] >= 128 {
        lemma_take_varint_len(s.skip(1));
    }
}

/// Decoding an encoded varint gives the value back and leaves the rest.
pub proof fn lemma_varint_roundtrip(n: nat, rest: Seq<u8>)
    ensures
        take_varint(spec_varint(n) + rest) == Some((n, rest)),
    decreases n,
{
    let e = spec_varint(n) + rest;
    if n < 128 {
        assert(e[0] == n as u8);
        assert(e.skip(1) =~= rest);
    } else {
        assert(e[0] == ((n % 128) + 128) as u8);
        assert(e[0] >= 128);
        assert(e.skip(1) =~= spec_varint(n / 128) + rest);
        lemma_varint_roundtrip(n / 128, rest);
        lemma_fundamental_div_mod(n as int, 128);
        assert((e[0] - 128) as nat + 128 * (n / 128) == n);
    }
}

/// The key of a field: field number and wire type packed into one varint.
pub open spec fn spec_key(field: nat, wt: nat) -> Seq<u8> {
    spec_varint(field * 8 + wt)
}

/// Reading a key gives back its field number and wire type.
pub proof fn lemma_key_step(field: nat, wt: nat, rest: Seq<u8>)
    requires
        wt < 8,
    ensures
        take_varint(spec_key(field, wt) + rest) matches Some(p) && p.0 == field * 8 + wt && p.1
            == rest,
        (field * 8 + wt) / 8 == field,
        (field * 8 + wt) % 8 == wt,
{
    lemma_varint_roundtrip(field * 8 + wt, rest);
    assert((field * 8 + wt) / 8 == field && (field * 8 + wt) % 8 == wt) by (nonlinear_arith)
        requires
            wt < 8,
    ;
}

/// A varint-valued field, omitted when the value is zero.
pub open spec fn spec_u64_field(field: nat, v: u64) -> Seq<u8> {
    if v == 0 {
        Seq::empty()
    } else {
        spec_key(field, 0) + spec_varint(v as nat)
    }
}

/// A 32-bit varint field, omitted when the value is zero.
pub open spec fn spec_u32_field(field: nat, v: u32) -> Seq<u8> {
    spec_u64_field(field, v as u64)
}

/// A length-delimited field, omitted when the payload is empty.
pub open spec fn spec_len_field(field: nat, b: Seq<u8>) -> Seq<u8> {
    if b.len() == 0 {
        Seq::empty()
    } else {
        spec_key(field, 2) + spec_varint(b.len()) + b
    }
}

/// A length-delimited field that is always present, as an embedded
/// message must be when it exists.
pub open spec fn spec_msg_field(field: nat, b: Seq<u8>) -> Seq<u8> {
    spec_key(field, 2) + spec_varint(b.len()) + b
}

/// A string field: the UTF-8 bytes of the text, omitted when empty.
pub open spec fn spec_str_field(field: nat, s: Seq<char>) -> Seq<u8> {
    spec_len_field(field, encode_utf8(s))
}

/// Read one length-delimited payload from the front.
pub open spec fn take_len_delim(s: Seq<u8>) -> Option<(Seq<u8>, Seq<u8>)> {
    match take_varint(s) {
        None => None,
        Some((n, r)) => if r.len() >= n {
            Some((r.take(n as int), r.skip(n as int)))
        } else {
            None
        },
    }
}

/// Reading an encoded length-delimited payload gives it back whole.
pub proof fn lemma_len_delim_step(b: Seq<u8>, rest: Seq<u8>)
    ensures
        take_len_delim(spec_varint(b.len()) + b + rest) == Some((b, rest)),
{
    assert(spec_varint(b.len()) + b + rest =~= spec_varint(b.len()) + (b + rest));
    lemma_varint_roundtrip(b.len(), b + rest);
    assert((b + rest).take(b.len() as int) =~= b);
    assert((b + rest).skip(b.len() as int) =~= rest);
}

/// A decoded length-delimited field consumed at least one byte.
pub proof fn lemma_take_len_delim_len(s: Seq<u8>)
    ensures
        take_len_delim(s) matches Some(p) ==> p.1.len() < s.len(),
{
    lemma_take_varint_len(s);
}

/// Skip one value of the given wire type: varint, length-delimited,
/// 64-bit, or 32-bit; any other wire type fails.
pub open spec fn spec_skip_field(wt: nat, s: Seq<u8>) -> Option<Seq<u8>> {
    if wt == 0 {
        match take_varint(s) {
            None => None,
            Some((n, r)) => if n <= u64::MAX {
                Some(r)
            } else {
                None
            },
        }
    } else if wt == 2 {
        match take_len_delim(s) {
            None => None,
            Some((b, r)) => Some(r),
        }
    } else if wt == 1 {
        if s.len() >= 8 {
            Some(s.skip(8))
        } else {
            None
        }
    } else if wt == 5 {
        if s.len() >= 4 {
            Some(s.skip(4))
        } else {
            None
        }
    } else {
        None
    }
}

/// Skipping a value consumes nothing beyond the bytes given.
pub proof fn lemma_skip_field_len(wt: nat, s: Seq<u8>)
    ensures
        spec_skip_field(wt, s) matches Some(r) ==> r.len() <= s.len(),
{
    lemma_take_varint_len(s);
    lemma_take_len_delim_len(s);
}

/// Append the varint encoding of `v`.
pub fn write_varint(out: &mut Vec<u8>, v: u64)
    ensures
        final(out)@ == old(out)@ + spec_varint(v as nat),
{
    let ghost base = old(out)@;
    let ghost v0 = v as nat;
    let mut v = v;
    let ghost mut written: Seq<u8> = Seq::empty();
    proof {
        assert(base + written =~= base);
    }
    while v >= 128
        invariant
            out@ == base + written,
            spec_varint(v0) == written + spec_varint(v as nat),
        decreases v,
    {
        let b = ((v % 128) + 128) as u8;
        out.push(b);
        proof {
            assert(spec_varint(v as nat) == seq![b] + spec_varint((v as nat) / 128));
            assert(written + spec_varint(v as nat) =~= (written + seq![b]) + spec_varint(
                (v as nat) / 128,
            ));
            assert((v as nat) / 128 == ((v / 128) as nat));
            written = written + seq![b];
            assert(out@ =~= base + written);
        }
        v = v / 128;
    }
    out.push(v as u8);
    proof {
        assert(spec_varint(v as nat) == seq![v as u8]);
        assert(out@ =~= base + (written + seq![v as u8]));
    }
}

/// Append the key of a field.
pub fn write_key(out: &mut Vec<u8>, field: u32, wt: u32)
    requires
        wt < 8,
    ensures
        final(out)@ == old(out)@ + spec_key(field as nat, wt as nat),
{
    let tag: u64 = (field as u64) * 8 + (wt as u64);
    proof {
        assert((field as u64) * 8 + (wt as u64) <= u64::MAX) by (nonlinear_arith)
            requires
                field <= u32::MAX,
                wt < 8,
        ;
        assert(tag as nat == (field as nat) * 8 + (wt as nat));
    }
    write_varint(out, tag);
}

/// Append a varint field, omitted when zero.
pub fn write_u64_field(out: &mut Vec<u8>, field: u32, v: u64)
    ensures
        final(out)@ == old(out)@ + spec_u64_field(field as nat, v),
{
    let ghost base = old(out)@;
    if v != 0 {
        write_key(out, field, 0);
        let ghost mid = out@;
        write_varint(out, v);
        proof {
            assert(out@ =~= base + (spec_key(field as nat, 0) + spec_varint(v as nat)));
        }
    } else {
        proof {
            assert(out@ =~= base + spec_u64_field(field as nat, v));
        }
    }
}

/// Append a 32-bit varint field, omitted when zero.
pub fn write_u32_field(out: &mut Vec<u8>, field: u32, v: u32)
    ensures
        final(out)@ == old(out)@ + spec_u32_field(field as nat, v),
{
    write_u64_field(out, field, v as u64);
}

/// Append the bytes of `b` one by one.
pub fn write_bytes(out: &mut Vec<u8>, b: &Vec<u8>)
    ensures
        final(out)@ == old(out)@ + b@,
{
    let ghost base = old(out)@;
    let mut i: usize = 0;
    while i < b.len()
        invariant
            0 <= i <= b@.len(),
            out@ == base + b@.take(i as int),
        decreases b@.len() - i,
    {
        out.push(b[i]);
        proof {
            assert(base + b@.take(i as int) + seq![b@[i as int]] =~= base + b@.take(i + 1));
        }
        i += 1;
    }
    proof {
        assert(b@.take(b@.len() as int) =~= b@);
    }
}

/// Append a length-delimited field, omitted when the payload is empty.
pub fn write_len_field(out: &mut Vec<u8>, field: u32, b: &Vec<u8>)
    ensures
        final(out)@ == old(out)@ + spec_len_field(field as nat, b@),
{
    let ghost base = old(out)@;
    if b.len() != 0 {
        write_key(out, field, 2);
        write_varint(out, b.len() as u64);
        write_bytes(out, b);
        proof {
            assert(out@ =~= base + (spec_key(field as nat, 2) + spec_varint(b@.len()) + b@));
        }
    } else {
        proof {
            assert(out@ =~= base + spec_len_field(field as nat, b@));
        }
    }
}

/// Append a length-delimited field that is always present.
pub fn write_msg_field(out: &mut Vec<u8>, field: u32, b: &Vec<u8>)
    ensures
        final(out)@ == old(out)@ + spec_msg_field(field as nat, b@),
{
    let ghost base = old(out)@;
    write_key(out, field, 2);
    write_varint(out, b.len() as u64);
    write_bytes(out, b);
    proof {
        assert(out@ =~= base + (spec_key(field as nat, 2) + spec_varint(b@.len()) + b@));
    }
}

/// Append a string field: the UTF-8 bytes of the text, omitted when empty.
pub fn write_str_field(out: &mut Vec<u8>, field: u32, s: &str)
    ensures
        final(out)@ == old(out)@ + spec_len_field(field as nat, encode_utf8(s@)),
{
    let b = s.as_bytes_vec();
    write_len_field(out, field, &b)
}

/// Read one varint: its value and the position after it. Fails when the
/// bytes run out or the value does not fit in 64 bits.
pub fn read_varint(buf: &Vec<u8>, pos: usize) -> (r: Result<(u64, usize), DecodeError>)
    requires
        pos <= buf@.len(),
    ensures
        r matches Ok(p) ==> ({
            &&& take_varint(buf@.skip(pos as int)) == Some(((p.0 as nat), buf@.skip(p.1 as int)))
            &&& pos < p.1 <= buf@.len()
        }),
        r is Err ==> (take_varint(buf@.skip(pos as int)) is None || take_varint(
            buf@.skip(pos as int),
        ).unwrap().0 > u64::MAX),
    decreases buf@.len() - pos,
{
    let ghost s = buf@.skip(pos as int);
    if pos == buf.len() {
        return Err(DecodeError::Truncated);
    }
    let b = buf[pos];
    proof {
        assert(s[0] == b);
    }
    if b < 128 {
        proof {
            assert(s.skip(1) =~= buf@.skip(pos + 1));
        }
        return Ok((b as u64, pos + 1));
    }
    match read_varint(buf, pos + 1) {
        Err(e) => {
            proof {
                assert(s.skip(1) =~= buf@.skip(pos + 1));
            }
            Err(e)
        },
        Ok((v, np)) => {
            proof {
                assert(s.skip(1) =~= buf@.skip(pos + 1));
            }
            let low = (b - 128) as u64;
            let ghost n = (low as nat) + 128 * (v as nat);
            if v > (u64::MAX - low) / 128 {
                proof {
                    assert((low as nat) + 128 * (v as nat) > u64::MAX) by (nonlinear_arith)
                        requires
                            low < 128,
                            (v as nat) > ((u64::MAX - low) as nat) / 128,
                    ;
                }
                return Err(DecodeError::Overflow);
            }
            proof {
                assert((low as nat) + 128 * (v as nat) <= u64::MAX) by (nonlinear_arith)
                    requires
                        low < 128,
                        (v as nat) <= ((u64::MAX - low) as nat) / 128,
                ;
            }
            let total = low + 128 * v;
            Ok((total, np))
        },
    }
}

/// Read one length-delimited payload: its bytes and the position after.
pub fn read_len_delim(buf: &Vec<u8>, pos: usize) -> (r: Result<(Vec<u8>, usize), DecodeError>)
    requires
        pos <= buf@.len(),
    ensures
        r matches Ok(p) ==> ({
            &&& take_len_delim(buf@.skip(pos as int)) == Some((p.0@, buf@.skip(p.1 as int)))
            &&& pos < p.1 <= buf@.len()
        }),
        r is Err ==> take_len_delim(buf@.skip(pos as int)) is None,
{
    let ghost s = buf@.skip(pos as int);
    let buf_len = buf.len();
    let (n, vp) = match read_varint(buf, pos) {
        Ok(p) => p,
        Err(e) => {
            proof {
                lemma_take_varint_len(s);
                match take_varint(s) {
                    Some(q) => {
                        assert(q.0 > u64::MAX);
                        assert(q.1.len() < s.len());
                        assert(s.len() <= buf_len);
                        assert(q.1.len() < q.0);
                    },
                    None => {},
                }
            }
            return Err(e);
        },
    };
    let remaining = buf_len - vp;
    if n > remaining as u64 {
        proof {
            assert(buf@.skip(vp as int).len() < n as nat);
        }
        return Err(DecodeError::Truncated);
    }
    let n_us = n as usize;
    let mut payload: Vec<u8> = Vec::new();
    let mut k: usize = 0;
    while k < n_us
        invariant
            buf@.len() == buf_len,
            vp + n_us <= buf_len,
            0 <= k <= n_us,
            payload@ =~= buf@.subrange(vp as int, vp + k),
        decreases n_us - k,
    {
        payload.push(buf[vp + k]);
        k += 1;
    }
    proof {
        assert(buf@.skip(vp as int).take(n as int) =~= buf@.subrange(vp as int, vp + n_us));
        assert(buf@.skip(vp as int).skip(n as int) =~= buf@.skip(vp + n_us));
    }
    Ok((payload, vp + n_us))
}

/// Skip one value of the given wire type; the position after it.
pub fn skip_value(buf: &Vec<u8>, pos: usize, wt: u64) -> (r: Result<usize, DecodeError>)
    requires
        pos <= buf@.len(),
    ensures
        r matches Ok(np) ==> np <= buf@.len() && spec_skip_field(wt as nat, buf@.skip(pos as int))
            == Some(buf@.skip(np as int)) && np > pos,
        r is Err ==> spec_skip_field(wt as nat, buf@.skip(pos as int)) is None,
{
    let ghost s = buf@.skip(pos as int);
    if wt == 0 {
        match read_varint(buf, pos) {
            Ok((v, np)) => {
                proof {
                    lemma_take_varint_len(s);
                }
                Ok(np)
            },
            Err(e) => {
                proof {
                    match take_varint(s) {
                        Some(q) => {
                            assert(q.0 > u64::MAX);
                        },
                        None => {},
                    }
                }
                Err(e)
            },
        }
    } else if wt == 2 {
        match read_len_delim(buf, pos) {
            Ok((_, np)) => Ok(np),
            Err(e) => Err(e),
        }
    } else if wt == 1 {
        if buf.len() - pos >= 8 {
            proof {
                assert(s.skip(8) =~= buf@.skip(pos + 8));
            }
            Ok(pos + 8)
        } else {
            Err(DecodeError::Truncated)
        }
    } else if wt == 5 {
        if buf.len() - pos >= 4 {
            proof {
                assert(s.skip(4) =~= buf@.skip(pos + 4));
            }
            Ok(pos + 4)
        } else {
            Err(DecodeError::Truncated)
        }
    } else {
        Err(DecodeError::Malformed)
    }
}

/// Relies on String::from_utf8: it succeeds exactly on valid UTF-8 and
/// returns the text whose encoding is the given bytes.
#[verifier::external_body]
pub fn string_from_utf8(v: Vec<u8>) -> (r: Option<String>)
    ensures
        r matches Some(s) ==> encode_utf8(s@) == v@,
        (r is Some) <==> valid_utf8(v@),
{
    match String::from_utf8(v) {
        Ok(s) => Some(s),
        Err(_) => None,
    }
}

} // verus!
