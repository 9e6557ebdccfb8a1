//! Key expressions: compact addressable resource names.
//!
//! A key expression is a pre-registered numeric id (`scope`), optionally
//! paired with a string suffix, held here as its UTF-8 bytes. An empty
//! suffix means the id alone names the resource and must already be known
//! to the peer from a prior binding; a scope of zero with a suffix means
//! the suffix alone names the resource, fully inlined.
//!
//! On the wire the owning message's `K` flag says whether a suffix follows
//! the scope; the suffix itself is length-prefixed.

use vstd::prelude::*;

use crate::error::DecodeError;
use crate::testgen;
use crate::zint::{
    decode_zbuf, decode_zint, encode_zbuf, encode_zint, lemma_zbuf_round_trip,
    lemma_zint_round_trip, zbuf_dec_len, zbuf_dec_ok, zbuf_dec_value, zbuf_enc, zint_dec_len,
    zint_dec_ok, zint_dec_value, zint_enc, ZInt,
};

verus! {

/// A key expression as carried by messages: numeric id plus optional suffix.
#[derive(Debug, Clone, PartialEq, Eq)]
pub struct WireExpr {
    pub scope: ZInt,
    pub suffix: Vec<u8>,
}

/// The mathematical model of a [`WireExpr`].
pub struct WireExprModel {
    pub scope: ZInt,
    pub suffix: Seq<u8>,
}

impl View for WireExpr {
    type V = WireExprModel;

    open spec fn view(&self) -> WireExprModel {
        WireExprModel { scope: self.scope, suffix: self.suffix@ }
    }
}

impl WireExprModel {
    /// Whether the expression carries a suffix; this drives the `K` flag.
    pub open spec fn has_suffix(self) -> bool {
        self.suffix.len() > 0
    }
}

impl WireExpr {
    /// Whether the expression carries a suffix; this drives the `K` flag.
    pub fn has_suffix(&self) -> (r: bool)
        ensures
            r == self@.has_suffix(),
    {
        self.suffix.len() > 0
    }

    /// An arbitrary valid key expression: a random scope, and with equal
    /// chance either no suffix or a short random alphanumeric one.
    pub fn rand() -> (r: WireExpr)
        ensures
            r@.suffix.len() == 0 || (2 <= r@.suffix.len() < 16),
            forall|i: int|
                0 <= i < r@.suffix.len() ==> testgen::is_alphanumeric_byte(#[trigger] r@.suffix[i]),
    {
        let scope: ZInt = testgen::random_u64();
        let suffix: Vec<u8> = if testgen::random_bool() {
            let len = testgen::random_in_range(2, 16);
            testgen::random_alphanumeric(len as usize)
        } else {
            Vec::new()
        };
        WireExpr { scope, suffix }
    }
}

/// The encoding of a key expression: the scope id, then the length-prefixed
/// suffix iff one is carried (the `K` flag of the owning message says so).
pub open spec fn keyexpr_enc(k: WireExprModel) -> Seq<u8> {
    zint_enc(k.scope as nat) + if k.has_suffix() {
        zbuf_enc(k.suffix)
    } else {
        Seq::<u8>::empty()
    }
}

/// Whether a key expression decodes from the front of `s` under flag `k`.
pub open spec fn keyexpr_dec_ok(s: Seq<u8>, k: bool) -> bool {
    &&& zint_dec_ok(s)
    &&& (k ==> zbuf_dec_ok(s.skip(zint_dec_len(s) as int)))
}

/// The key expression decoded from the front of `s` under flag `k`.
pub open spec fn keyexpr_dec_value(s: Seq<u8>, k: bool) -> WireExprModel {
    WireExprModel {
        scope: zint_dec_value(s) as ZInt,
        suffix: if k {
            zbuf_dec_value(s.skip(zint_dec_len(s) as int))
        } else {
            Seq::<u8>::empty()
        },
    }
}

/// The count of bytes a key-expression decoding from the front of `s`
/// consumes under flag `k`.
pub open spec fn keyexpr_dec_len(s: Seq<u8>, k: bool) -> nat {
    zint_dec_len(s) + if k {
        zbuf_dec_len(s.skip(zint_dec_len(s) as int))
    } else {
        0
    }
}

/// Round trip of one key expression, followed by anything: decoding under
/// the flag the expression itself induces reads it back unchanged.
pub proof fn lemma_keyexpr_round_trip(k: WireExprModel, rest: Seq<u8>)
    requires
        k.suffix.len() <= u64::MAX,
    ensures
        keyexpr_dec_ok(keyexpr_enc(k) + rest, k.has_suffix()),
        keyexpr_dec_value(keyexpr_enc(k) + rest, k.has_suffix()) == k,
        keyexpr_dec_len(keyexpr_enc(k) + rest, k.has_suffix()) == keyexpr_enc(k).len(),
{
    let s = keyexpr_enc(k) + rest;
    if k.has_suffix() {
        let tail = zbuf_enc(k.suffix) + rest;
        assert(s =~= zint_enc(k.scope as nat) + tail);
        lemma_zint_round_trip(k.scope, tail);
        assert(s.skip(zint_dec_len(s) as int) =~= tail);
        lemma_zbuf_round_trip(k.suffix, rest);
        assert(keyexpr_dec_value(s, true) == k);
    } else {
        assert(s =~= zint_enc(k.scope as nat) + rest);
        lemma_zint_round_trip(k.scope, rest);
        assert(k.suffix =~= Seq::<u8>::empty());
        assert(keyexpr_dec_value(s, false) == k);
    }
}

/// Appends the encoding of `key` to `buf`.
pub fn encode_keyexpr(buf: &mut Vec<u8>, key: &WireExpr)
    ensures
        final(buf)@ == old(buf)@ + keyexpr_enc(key@),
{
    encode_zint(buf, key.scope);
    if key.suffix.len() > 0 {
        encode_zbuf(buf, key.suffix.as_slice());
    }
    assert(buf@ =~= old(buf)@ + keyexpr_enc(key@));
}

/// Reads a key expression from `buf` at `pos` under flag `k`. Fails with
/// `MalformedFrame` exactly when the scope id or the announced suffix does
/// not decode there.
pub fn decode_keyexpr(buf: &[u8], pos: usize, k: bool) -> (r: Result<
    (WireExpr, usize),
    DecodeError,
>)
    requires
        pos <= buf@.len(),
    ensures
        match r {
            Ok((key, c)) => {
                &&& keyexpr_dec_ok(buf@.skip(pos as int), k)
                &&& pos + c <= buf@.len()
                &&& key@ == keyexpr_dec_value(buf@.skip(pos as int), k)
                &&& c as nat == keyexpr_dec_len(buf@.skip(pos as int), k)
            },
            Err(e) => {
                &&& e == DecodeError::MalformedFrame
                &&& !keyexpr_dec_ok(buf@.skip(pos as int), k)
            },
        },
{
    let ghost s = buf@.skip(pos as int);
    let _blen: usize = buf.len();
    match decode_zint(buf, pos) {
        Ok((scope, c1)) => {
            if k {
                let ghost tail = s.skip(c1 as int);
                assert(tail =~= buf@.skip(pos + c1));
                match decode_zbuf(buf, pos + c1) {
                    Ok((suffix, c2)) => {
                        let key = WireExpr { scope, suffix };
                        assert(key@ == keyexpr_dec_value(s, k));
                        Ok((key, c1 + c2))
                    },
                    Err(e) => Err(e),
                }
            } else {
                let key = WireExpr { scope, suffix: Vec::new() };
                assert(key@.suffix =~= Seq::<u8>::empty());
                assert(key@ == keyexpr_dec_value(s, k));
                Ok((key, c1))
            }
        },
        Err(e) => Err(e),
    }
}

} // verus!
