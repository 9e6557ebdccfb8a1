//! Variable-length integer and byte-buffer codec.
//!
//! An unsigned integer is split into 7-bit groups, low-order group first;
//! each byte carries one group in its low bits and sets its high bit iff
//! more groups follow. A byte buffer is encoded as its length, as such an
//! integer, followed by the raw bytes. Encoding is canonical (minimal byte
//! count); decoding fails when the continuation chain exceeds the integer's
//! maximum width, when the value does not fit the integer, or when the input
//! is exhausted before termination.

use vstd::arithmetic::power2::{
    lemma2_to64, lemma_pow2_adds, lemma_pow2_pos, pow2,
};
use vstd::prelude::*;

use crate::error::DecodeError;

verus! {

/// The unsigned integer used pervasively on the wire: ids, sizes, counters.
pub type ZInt = u64;

/// A canonical encoding of a `ZInt` never takes more bytes than this:
/// ten 7-bit groups cover 70 bits.
pub const ZINT_MAX_BYTES: u64 = 10;

/// The canonical variable-length encoding of `n`: 7-bit groups, low first,
/// continuation bit on every byte but the last.
pub open spec fn zint_enc(n: nat) -> Seq<u8>
    decreases n,
{
    if n < 0x80 {
        seq![n as u8]
    } else {
        seq![(0x80 + (n % 0x80)) as u8] + zint_enc(n / 0x80)
    }
}

/// Decoding of a variable-length integer from the front of `s`, reading at
/// most `width` bytes: the value and the count of bytes consumed, or `None`
/// when the input ends, or the continuation chain is longer than `width`.
pub open spec fn zint_dec(s: Seq<u8>, width: nat) -> Option<(nat, nat)>
    decreases width,
{
    if width == 0 || s.len() == 0 {
        None
    } else if s[0] < 0x80 {
        Some((s[0] as nat, 1))
    } else {
        match zint_dec(s.skip(1), (width - 1) as nat) {
            Some((v, c)) => Some((((s[0] - 0x80) + 0x80 * v) as nat, (c + 1) as nat)),
            None => None,
        }
    }
}

/// Decoding succeeds on the front of `s` with a value that fits a `ZInt`.
pub open spec fn zint_dec_ok(s: Seq<u8>) -> bool {
    match zint_dec(s, ZINT_MAX_BYTES as nat) {
        Some((v, _)) => v <= u64::MAX,
        None => false,
    }
}

/// The value decoded from the front of `s`.
pub open spec fn zint_dec_value(s: Seq<u8>) -> nat {
    match zint_dec(s, ZINT_MAX_BYTES as nat) {
        Some((v, _)) => v,
        None => 0,
    }
}

/// The count of bytes a decoding from the front of `s` consumes.
pub open spec fn zint_dec_len(s: Seq<u8>) -> nat {
    match zint_dec(s, ZINT_MAX_BYTES as nat) {
        Some((_, c)) => c,
        None => 0,
    }
}

/// The encoding of `n` shrinks by one byte for every 7-bit shift: `n` below
/// `pow2(7 * width)` is encoded in at most `width` bytes.
proof fn lemma_zint_enc_len_bounded(n: nat, width: nat)
    requires
        1 <= width,
        n < pow2(7 * width),
    ensures
        zint_enc(n).len() <= width,
    decreases width,
{
    if n < 0x80 {
    } else {
        lemma_pow2_adds(7 * (width - 1) as nat, 7);
        lemma2_to64();
        if width == 1 {
            assert(pow2(7) == 0x80);
        }
        assert(pow2(7 * width) == pow2(7 * (width - 1) as nat) * 0x80);
        lemma_pow2_pos(7 * (width - 1) as nat);
        assert(n / 0x80 < pow2(7 * (width - 1) as nat)) by (nonlinear_arith)
            requires
                n < pow2(7 * (width - 1) as nat) * 0x80,
                pow2(7 * (width - 1) as nat) > 0,
        ;
        lemma_zint_enc_len_bounded(n / 0x80, (width - 1) as nat);
    }
}

/// A `ZInt` is encoded in at most `ZINT_MAX_BYTES` bytes.
pub proof fn lemma_zint_enc_len(n: u64)
    ensures
        1 <= zint_enc(n as nat).len() <= ZINT_MAX_BYTES,
{
    lemma2_to64();
    lemma_pow2_adds(64, 6);
    lemma_pow2_pos(6);
    assert(n < pow2(70)) by (nonlinear_arith)
        requires
            n < pow2(64),
            pow2(70) == pow2(64) * pow2(6),
            pow2(6) > 0,
    ;
    lemma_zint_enc_len_bounded(n as nat, 10);
}

/// Round trip of one integer: the decoder applied to the encoding of `n`,
/// followed by anything, reads back exactly `n`, consuming the encoding.
pub proof fn lemma_zint_round_trip(n: u64, rest: Seq<u8>)
    ensures
        zint_dec(zint_enc(n as nat) + rest, ZINT_MAX_BYTES as nat) == Some(
            (n as nat, zint_enc(n as nat).len()),
        ),
    decreases n,
{
    lemma_zint_enc_len(n);
    lemma_zint_round_trip_width(n, rest, ZINT_MAX_BYTES as nat);
}

/// As `lemma_zint_round_trip`, for any width that admits the encoding.
proof fn lemma_zint_round_trip_width(n: u64, rest: Seq<u8>, width: nat)
    requires
        zint_enc(n as nat).len() <= width,
    ensures
        zint_dec(zint_enc(n as nat) + rest, width) == Some((n as nat, zint_enc(n as nat).len())),
    decreases n,
{
    let s = zint_enc(n as nat) + rest;
    if n < 0x80 {
        assert(s[0] == n as u8);
    } else {
        let head = (0x80 + (n as nat % 0x80)) as u8;
        assert(s[0] == head);
        assert(s.skip(1) =~= zint_enc((n / 0x80) as nat) + rest);
        lemma_zint_round_trip_width(n / 0x80, rest, (width - 1) as nat);
        assert((head - 0x80) + 0x80 * ((n / 0x80) as nat) == n as nat) by (nonlinear_arith)
            requires
                head == 0x80 + (n as nat % 0x80),
                n >= 0x80,
        ;
    }
}

/// Appends the canonical encoding of `n` to `buf`.
pub fn encode_zint(buf: &mut Vec<u8>, n: ZInt)
    ensures
        final(buf)@ == old(buf)@ + zint_enc(n as nat),
    decreases n,
{
    if n < 0x80 {
        buf.push(n as u8);
        assert(buf@ =~= old(buf)@ + zint_enc(n as nat));
    } else {
        buf.push((0x80 + (n % 0x80)) as u8);
        encode_zint(buf, n / 0x80);
        assert(buf@ =~= old(buf)@ + zint_enc(n as nat));
    }
}

/// Reads a variable-length integer from `buf` at `pos`, consuming at most
/// `width` further bytes.
fn decode_zint_width(buf: &[u8], pos: usize, width: u64) -> (r: Result<(ZInt, usize), DecodeError>)
    requires
        pos <= buf@.len(),
    ensures
        match r {
            Ok((v, c)) => {
                &&& 1 <= c
                &&& pos + c <= buf@.len()
                &&& zint_dec(buf@.skip(pos as int), width as nat) == Some((v as nat, c as nat))
            },
            Err(e) => {
                &&& e == DecodeError::MalformedFrame
                &&& match zint_dec(buf@.skip(pos as int), width as nat) {
                    Some((v, _)) => v > u64::MAX,
                    None => true,
                }
            },
        },
    decreases width,
{
    if width == 0 || pos >= buf.len() {
        return Err(DecodeError::MalformedFrame);
    }
    let b = buf[pos];
    if b < 0x80 {
        Ok((b as u64, 1))
    } else {
        let ghost tail = buf@.skip(pos as int).skip(1);
        assert(tail =~= buf@.skip(pos as int + 1));
        match decode_zint_width(buf, pos + 1, width - 1) {
            Ok((v, c)) => {
                let low = (b - 0x80) as u64;
                if v <= (u64::MAX - low) / 0x80 {
                    assert(low + 0x80 * (v as nat) <= u64::MAX) by (nonlinear_arith)
                        requires
                            v <= (u64::MAX - low) / 0x80,
                            low < 0x80,
                    ;
                    let combined = low + 0x80 * v;
                    Ok((combined, c + 1))
                } else {
                    assert(low + 0x80 * (v as nat) > u64::MAX) by (nonlinear_arith)
                        requires
                            v > (u64::MAX - low) / 0x80,
                            low < 0x80,
                    ;
                    Err(DecodeError::MalformedFrame)
                }
            },
            Err(e) => {
                proof {
                    match zint_dec(tail, (width - 1) as nat) {
                        Some(p) => {
                            let v2 = p.0;
                            assert(v2 > u64::MAX);
                            assert((b - 0x80) + 0x80 * v2 > u64::MAX) by (nonlinear_arith)
                                requires
                                    v2 > u64::MAX,
                                    b >= 0x80,
                            ;
                        },
                        None => {},
                    }
                }
                Err(e)
            },
        }
    }
}

/// Reads a variable-length integer from `buf` at `pos`. Fails with
/// `MalformedFrame` exactly when no chain of at most `ZINT_MAX_BYTES` bytes
/// terminates there, or the value read does not fit a `ZInt`.
pub fn decode_zint(buf: &[u8], pos: usize) -> (r: Result<(ZInt, usize), DecodeError>)
    requires
        pos <= buf@.len(),
    ensures
        match r {
            Ok((v, c)) => {
                &&& zint_dec_ok(buf@.skip(pos as int))
                &&& 1 <= c
                &&& pos + c <= buf@.len()
                &&& v as nat == zint_dec_value(buf@.skip(pos as int))
                &&& c as nat == zint_dec_len(buf@.skip(pos as int))
            },
            Err(e) => {
                &&& e == DecodeError::MalformedFrame
                &&& !zint_dec_ok(buf@.skip(pos as int))
            },
        },
{
    decode_zint_width(buf, pos, ZINT_MAX_BYTES)
}

/// The encoding of a byte buffer: its length as a variable-length integer,
/// then the raw bytes.
pub open spec fn zbuf_enc(b: Seq<u8>) -> Seq<u8> {
    zint_enc(b.len()) + b
}

/// Whether a length-prefixed byte buffer decodes from the front of `s`.
pub open spec fn zbuf_dec_ok(s: Seq<u8>) -> bool {
    &&& zint_dec_ok(s)
    &&& zint_dec_value(s) + zint_dec_len(s) <= s.len()
}

/// The byte buffer decoded from the front of `s`.
pub open spec fn zbuf_dec_value(s: Seq<u8>) -> Seq<u8> {
    s.subrange(zint_dec_len(s) as int, (zint_dec_len(s) + zint_dec_value(s)) as int)
}

/// The count of bytes a byte-buffer decoding from the front of `s` consumes.
pub open spec fn zbuf_dec_len(s: Seq<u8>) -> nat {
    zint_dec_len(s) + zint_dec_value(s)
}

/// Round trip of one byte buffer, followed by anything.
pub proof fn lemma_zbuf_round_trip(b: Seq<u8>, rest: Seq<u8>)
    requires
        b.len() <= u64::MAX,
    ensures
        zbuf_dec_ok(zbuf_enc(b) + rest),
        zbuf_dec_value(zbuf_enc(b) + rest) == b,
        zbuf_dec_len(zbuf_enc(b) + rest) == zbuf_enc(b).len(),
{
    let s = zbuf_enc(b) + rest;
    lemma_zint_round_trip(b.len() as u64, b + rest);
    assert(s =~= zint_enc(b.len()) + (b + rest));
    let c = zint_enc(b.len()).len();
    assert(zint_dec_len(s) == c);
    assert(zint_dec_value(s) == b.len());
    assert(zbuf_dec_value(s) =~= b);
}

/// Appends the length-prefixed encoding of `b` to `buf`.
pub fn encode_zbuf(buf: &mut Vec<u8>, b: &[u8])
    requires
        b@.len() <= u64::MAX,
    ensures
        final(buf)@ == old(buf)@ + zbuf_enc(b@),
{
    encode_zint(buf, b.len() as u64);
    let ghost mid = buf@;
    let mut i: usize = 0;
    while i < b.len()
        invariant
            i <= b@.len(),
            buf@ == mid + b@.take(i as int),
        decreases b@.len() - i,
    {
        buf.push(b[i]);
        assert(buf@ =~= mid + b@.take(i + 1));
        i = i + 1;
    }
    assert(b@.take(b@.len() as int) =~= b@);
    assert(buf@ =~= old(buf)@ + zbuf_enc(b@));
}

/// Reads a length-prefixed byte buffer from `buf` at `pos`. Fails with
/// `MalformedFrame` exactly when the length does not decode or the input
/// holds fewer bytes than it announces.
pub fn decode_zbuf(buf: &[u8], pos: usize) -> (r: Result<(Vec<u8>, usize), DecodeError>)
    requires
        pos <= buf@.len(),
    ensures
        match r {
            Ok((b, c)) => {
                &&& zbuf_dec_ok(buf@.skip(pos as int))
                &&& pos + c <= buf@.len()
                &&& b@ == zbuf_dec_value(buf@.skip(pos as int))
                &&& c as nat == zbuf_dec_len(buf@.skip(pos as int))
            },
            Err(e) => {
                &&& e == DecodeError::MalformedFrame
                &&& !zbuf_dec_ok(buf@.skip(pos as int))
            },
        },
{
    let ghost s = buf@.skip(pos as int);
    match decode_zint(buf, pos) {
        Ok((len, c)) => {
            if len <= (buf.len() - (pos + c)) as u64 {
                let start = pos + c;
                let end = start + (len as usize);
                let piece = vstd::slice::slice_subrange(buf, start, end);
                let out = vstd::slice::slice_to_vec(piece);
                assert(out@ =~= zbuf_dec_value(s));
                Ok((out, c + (len as usize)))
            } else {
                Err(DecodeError::MalformedFrame)
            }
        },
        Err(e) => Err(e),
    }
}

} // verus!
