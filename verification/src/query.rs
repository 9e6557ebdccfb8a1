//! The query message and its flag-driven frame format.
//!
//! A query frame is one header byte `K|X|T|QUERY` followed by the key
//! expression, the length-prefixed selector parameters, the query id, the
//! target (present iff `T` is set) and the consolidation mode. The `K` flag
//! says the key expression carries a suffix; the `T` flag is set iff the
//! target field is present, so an absent target costs nothing on the wire
//! and lets the receiver apply its own default policy.
//!
//! Discriminant values are a stable explicit table, not declaration order:
//! targets are `BestMatching` 0, `All` 1, `AllComplete` 2, `Complete` 3
//! (followed by its replier count); consolidation modes are `Latest` 0,
//! `Monotonic` 1, `NoConsolidation` 2.

use vstd::prelude::*;

use crate::error::DecodeError;
use crate::keyexpr::{
    decode_keyexpr, encode_keyexpr, keyexpr_dec_len, keyexpr_dec_ok, keyexpr_dec_value,
    keyexpr_enc, lemma_keyexpr_round_trip, WireExpr, WireExprModel,
};
use crate::testgen;
use crate::zint::{
    decode_zbuf, decode_zint, encode_zbuf, encode_zint, lemma_zbuf_round_trip,
    lemma_zint_round_trip, zbuf_dec_len, zbuf_dec_ok, zbuf_dec_value, zbuf_enc, zint_dec_len,
    zint_dec_ok, zint_dec_value, zint_enc, ZInt,
};

verus! {

/// The message kind selected by the low five bits of a query header byte.
pub const QUERY_MSG_ID: u8 = 0x09;

/// Header flag: the key expression carries a suffix.
pub const FLAG_K: u8 = 0x80;

/// Header flag: the target field is present.
pub const FLAG_T: u8 = 0x20;

/// How many and which matching resource holders must answer a query.
///
/// `Complete(n)` asks for replies from exactly `n` complete-view holders and
/// is gated behind an optional capability: without it, constructing or
/// decoding the variant is an error rather than a silent downgrade.
#[derive(Debug, Clone, Copy, PartialEq, Eq)]
pub enum QueryTarget {
    BestMatching,
    All,
    AllComplete,
    Complete(ZInt),
}

/// How multiple replies to one query are merged at the querier: keep only
/// the latest per key, suppress dominated replies, or deliver every reply
/// unmodified.
#[derive(Debug, Clone, Copy, PartialEq, Eq)]
pub enum ConsolidationMode {
    Latest,
    Monotonic,
    NoConsolidation,
}

/// # Query message
///
/// ```text
///  7 6 5 4 3 2 1 0
/// +-+-+-+-+-+-+-+-+
/// |K|X|T|  QUERY  |
/// +-+-+-+---------+
/// ~    KeyExpr     ~ if K==1 then key_expr has suffix
/// +---------------+
/// ~selector_params~
/// +---------------+
/// ~      qid      ~
/// +---------------+
/// ~     target    ~ if T==1
/// +---------------+
/// ~ consolidation ~
/// +---------------+
/// ```
#[derive(Debug, Clone, PartialEq, Eq)]
pub struct Query {
    pub key: WireExpr,
    pub parameters: Vec<u8>,
    pub qid: ZInt,
    pub target: Option<QueryTarget>,
    pub consolidation: ConsolidationMode,
}

/// The mathematical model of a [`Query`].
pub struct QueryModel {
    pub key: WireExprModel,
    pub parameters: Seq<u8>,
    pub qid: ZInt,
    pub target: Option<QueryTarget>,
    pub consolidation: ConsolidationMode,
}

impl View for Query {
    type V = QueryModel;

    open spec fn view(&self) -> QueryModel {
        QueryModel {
            key: self.key@,
            parameters: self.parameters@,
            qid: self.qid,
            target: self.target,
            consolidation: self.consolidation,
        }
    }
}

/// Whether a target may be carried by a peer with the given capability:
/// only `Complete` is gated.
pub open spec fn target_admissible(t: Option<QueryTarget>, complete_capability: bool) -> bool {
    match t {
        Some(QueryTarget::Complete(_)) => complete_capability,
        _ => true,
    }
}

impl QueryModel {
    /// Whether this query may be constructed or decoded by a peer with the
    /// given capability.
    pub open spec fn admissible(self, complete_capability: bool) -> bool {
        target_admissible(self.target, complete_capability)
    }

    /// The machine limits every query held in memory meets.
    pub open spec fn bounded(self) -> bool {
        &&& self.key.suffix.len() <= u64::MAX
        &&& self.parameters.len() <= u64::MAX
    }
}

/// The wire code of a consolidation mode.
pub open spec fn consolidation_code(m: ConsolidationMode) -> u8 {
    match m {
        ConsolidationMode::Latest => 0,
        ConsolidationMode::Monotonic => 1,
        ConsolidationMode::NoConsolidation => 2,
    }
}

/// The consolidation mode a wire code names; anything outside the table is
/// a malformed frame.
pub open spec fn consolidation_dec(b: u8) -> Result<ConsolidationMode, DecodeError> {
    if b == 0 {
        Ok(ConsolidationMode::Latest)
    } else if b == 1 {
        Ok(ConsolidationMode::Monotonic)
    } else if b == 2 {
        Ok(ConsolidationMode::NoConsolidation)
    } else {
        Err(DecodeError::MalformedFrame)
    }
}

/// The encoding of a target: its discriminant byte, and for `Complete` the
/// replier count.
pub open spec fn target_enc(t: QueryTarget) -> Seq<u8> {
    match t {
        QueryTarget::BestMatching => seq![0u8],
        QueryTarget::All => seq![1u8],
        QueryTarget::AllComplete => seq![2u8],
        QueryTarget::Complete(n) => seq![3u8] + zint_enc(n as nat),
    }
}

/// The encoding of an optional target; absence costs nothing.
pub open spec fn target_opt_enc(t: Option<QueryTarget>) -> Seq<u8> {
    match t {
        Some(tg) => target_enc(tg),
        None => Seq::<u8>::empty(),
    }
}

/// Decoding of a target from the front of `s`: the target and the count of
/// bytes consumed. An unrecognized discriminant, or `Complete` without the
/// capability, is `UnsupportedVariant`; a missing or unreadable field is
/// `MalformedFrame`.
pub open spec fn target_dec(s: Seq<u8>, complete_capability: bool) -> Result<
    (QueryTarget, nat),
    DecodeError,
> {
    if s.len() == 0 {
        Err(DecodeError::MalformedFrame)
    } else if s[0] == 0 {
        Ok((QueryTarget::BestMatching, 1))
    } else if s[0] == 1 {
        Ok((QueryTarget::All, 1))
    } else if s[0] == 2 {
        Ok((QueryTarget::AllComplete, 1))
    } else if s[0] == 3 {
        if !complete_capability {
            Err(DecodeError::UnsupportedVariant)
        } else if zint_dec_ok(s.skip(1)) {
            Ok((QueryTarget::Complete(zint_dec_value(s.skip(1)) as ZInt), 1 + zint_dec_len(s.skip(1))))
        } else {
            Err(DecodeError::MalformedFrame)
        }
    } else {
        Err(DecodeError::UnsupportedVariant)
    }
}

/// The header byte of a query frame with the given flags.
pub open spec fn header_byte(k: bool, t: bool) -> u8 {
    QUERY_MSG_ID | (if k { FLAG_K } else { 0 }) | (if t { FLAG_T } else { 0 })
}

/// A query frame assembled from its parts, with an arbitrary final
/// consolidation byte.
pub open spec fn frame_parts(
    key: WireExprModel,
    parameters: Seq<u8>,
    qid: ZInt,
    target: Option<QueryTarget>,
    cb: u8,
) -> Seq<u8> {
    seq![header_byte(key.has_suffix(), target is Some)] + keyexpr_enc(key) + zbuf_enc(parameters)
        + zint_enc(qid as nat) + target_opt_enc(target) + seq![cb]
}

/// The encoding of a query: the `T` flag is set iff the target is present,
/// the `K` flag iff the key expression carries a suffix.
pub open spec fn query_enc(q: QueryModel) -> Seq<u8> {
    frame_parts(q.key, q.parameters, q.qid, q.target, consolidation_code(q.consolidation))
}

/// Decoding of a whole query frame. The frame must be consumed exactly:
/// the protocol has no resynchronization marker, so trailing bytes are as
/// fatal as missing ones.
pub open spec fn query_dec(s: Seq<u8>, complete_capability: bool) -> Result<
    QueryModel,
    DecodeError,
> {
    if s.len() == 0 {
        Err(DecodeError::MalformedFrame)
    } else {
        let h = s[0];
        if h & 0x1f != QUERY_MSG_ID {
            Err(DecodeError::MalformedFrame)
        } else {
            let k = (h & FLAG_K) != 0;
            let t = (h & FLAG_T) != 0;
            let body = s.skip(1);
            if !keyexpr_dec_ok(body, k) {
                Err(DecodeError::MalformedFrame)
            } else {
                let key = keyexpr_dec_value(body, k);
                let p1 = body.skip(keyexpr_dec_len(body, k) as int);
                if !zbuf_dec_ok(p1) {
                    Err(DecodeError::MalformedFrame)
                } else {
                    let parameters = zbuf_dec_value(p1);
                    let p2 = p1.skip(zbuf_dec_len(p1) as int);
                    if !zint_dec_ok(p2) {
                        Err(DecodeError::MalformedFrame)
                    } else {
                        let qid = zint_dec_value(p2) as ZInt;
                        let p3 = p2.skip(zint_dec_len(p2) as int);
                        if t {
                            match target_dec(p3, complete_capability) {
                                Ok((tg, c)) => query_tail_dec(
                                    key,
                                    parameters,
                                    qid,
                                    Some(tg),
                                    p3.skip(c as int),
                                ),
                                Err(e) => Err(e),
                            }
                        } else {
                            query_tail_dec(key, parameters, qid, None::<QueryTarget>, p3)
                        }
                    }
                }
            }
        }
    }
}

/// The last field of a frame: exactly one consolidation byte must remain.
pub open spec fn query_tail_dec(
    key: WireExprModel,
    parameters: Seq<u8>,
    qid: ZInt,
    target: Option<QueryTarget>,
    s: Seq<u8>,
) -> Result<QueryModel, DecodeError> {
    if s.len() != 1 {
        Err(DecodeError::MalformedFrame)
    } else {
        match consolidation_dec(s[0]) {
            Ok(m) => Ok(QueryModel { key, parameters, qid, target, consolidation: m }),
            Err(e) => Err(e),
        }
    }
}

/// Round trip of one target, followed by anything; without the capability a
/// `Complete` target is rejected instead.
proof fn lemma_target_dec(tg: QueryTarget, complete_capability: bool, rest: Seq<u8>)
    ensures
        target_admissible(Some(tg), complete_capability) ==> target_dec(
            target_enc(tg) + rest,
            complete_capability,
        ) == Ok::<(QueryTarget, nat), DecodeError>((tg, target_enc(tg).len())),
        !target_admissible(Some(tg), complete_capability) ==> target_dec(
            target_enc(tg) + rest,
            complete_capability,
        ) == Err::<(QueryTarget, nat), DecodeError>(DecodeError::UnsupportedVariant),
{
    let s = target_enc(tg) + rest;
    match tg {
        QueryTarget::BestMatching => {
            assert(s[0] == 0);
        },
        QueryTarget::All => {
            assert(s[0] == 1);
        },
        QueryTarget::AllComplete => {
            assert(s[0] == 2);
        },
        QueryTarget::Complete(n) => {
            assert(s[0] == 3);
            if complete_capability {
                assert(s.skip(1) =~= zint_enc(n as nat) + rest);
                lemma_zint_round_trip(n, rest);
            }
        },
    }
}

/// Decoding of any frame assembled by `frame_parts`: it reaches the final
/// consolidation byte, except that a `Complete` target without the
/// capability is rejected first.
#[verifier::rlimit(100)]
proof fn lemma_frame_dec(
    key: WireExprModel,
    parameters: Seq<u8>,
    qid: ZInt,
    target: Option<QueryTarget>,
    complete_capability: bool,
    cb: u8,
)
    requires
        key.suffix.len() <= u64::MAX,
        parameters.len() <= u64::MAX,
    ensures
        target_admissible(target, complete_capability) ==> query_dec(
            frame_parts(key, parameters, qid, target, cb),
            complete_capability,
        ) == (match consolidation_dec(cb) {
            Ok(m) => Ok(QueryModel { key, parameters, qid, target, consolidation: m }),
            Err(e) => Err::<QueryModel, DecodeError>(e),
        }),
        !target_admissible(target, complete_capability) ==> query_dec(
            frame_parts(key, parameters, qid, target, cb),
            complete_capability,
        ) == Err::<QueryModel, DecodeError>(DecodeError::UnsupportedVariant),
{
    let s = frame_parts(key, parameters, qid, target, cb);
    let k = key.has_suffix();
    let t = target is Some;
    let h = header_byte(k, t);
    assert(s[0] == h);
    let kb: u8 = if k { FLAG_K } else { 0 };
    let tb: u8 = if t { FLAG_T } else { 0 };
    assert(h == (0x09u8 | kb | tb));
    assert(((0x09u8 | kb | tb) & 0x1f) == 0x09u8 && ((0x09u8 | kb | tb) & 0x80u8) == kb && ((
    0x09u8 | kb | tb) & 0x20u8) == tb) by (bit_vector)
        requires
            kb == 0x80u8 || kb == 0u8,
            tb == 0x20u8 || tb == 0u8,
    ;
    assert(((h & FLAG_K) != 0) == k);
    assert(((h & FLAG_T) != 0) == t);

    let body = s.skip(1);
    let r1 = zbuf_enc(parameters) + zint_enc(qid as nat) + target_opt_enc(target) + seq![cb];
    assert(body =~= keyexpr_enc(key) + r1);
    lemma_keyexpr_round_trip(key, r1);
    let p1 = body.skip(keyexpr_dec_len(body, k) as int);
    assert(p1 =~= r1);

    let r2 = zint_enc(qid as nat) + target_opt_enc(target) + seq![cb];
    assert(p1 =~= zbuf_enc(parameters) + r2);
    lemma_zbuf_round_trip(parameters, r2);
    let p2 = p1.skip(zbuf_dec_len(p1) as int);
    assert(p2 =~= r2);

    let r3 = target_opt_enc(target) + seq![cb];
    assert(p2 =~= zint_enc(qid as nat) + r3);
    lemma_zint_round_trip(qid, r3);
    let p3 = p2.skip(zint_dec_len(p2) as int);
    assert(p3 =~= r3);

    match target {
        Some(tg) => {
            assert(p3 =~= target_enc(tg) + seq![cb]);
            lemma_target_dec(tg, complete_capability, seq![cb]);
            if target_admissible(target, complete_capability) {
                let c = target_enc(tg).len();
                assert(p3.skip(c as int) =~= seq![cb]);
            }
        },
        None => {
            assert(p3 =~= seq![cb]);
        },
    }
}

/// Round-trip law: decoding the encoding of any query the receiver's
/// capability admits reproduces the query exactly.
pub proof fn lemma_query_round_trip(q: QueryModel, complete_capability: bool)
    requires
        q.bounded(),
        q.admissible(complete_capability),
    ensures
        query_dec(query_enc(q), complete_capability) == Ok::<QueryModel, DecodeError>(q),
{
    lemma_frame_dec(
        q.key,
        q.parameters,
        q.qid,
        q.target,
        complete_capability,
        consolidation_code(q.consolidation),
    );
}

/// Flag correctness: in any encoded query the `T` bit equals the presence
/// of the target and the `K` bit says the key expression carries a suffix.
pub proof fn lemma_flag_bits(q: QueryModel)
    ensures
        ((query_enc(q)[0] & FLAG_T) != 0) <==> (q.target is Some),
        ((query_enc(q)[0] & FLAG_K) != 0) <==> q.key.has_suffix(),
{
    let k = q.key.has_suffix();
    let t = q.target is Some;
    let kb: u8 = if k { FLAG_K } else { 0 };
    let tb: u8 = if t { FLAG_T } else { 0 };
    assert(query_enc(q)[0] == (0x09u8 | kb | tb));
    assert(((0x09u8 | kb | tb) & 0x80u8) == kb && ((0x09u8 | kb | tb) & 0x20u8) == tb)
        by (bit_vector)
        requires
            kb == 0x80u8 || kb == 0u8,
            tb == 0x20u8 || tb == 0u8,
    ;
}

/// Rejection: corrupting the consolidation byte of a valid frame to any
/// value outside the table makes decoding fail with `MalformedFrame`.
pub proof fn lemma_reject_bad_consolidation(q: QueryModel, complete_capability: bool, b: u8)
    requires
        q.bounded(),
        q.admissible(complete_capability),
        b > 2,
    ensures
        query_dec(
            query_enc(q).update(query_enc(q).len() - 1, b),
            complete_capability,
        ) == Err::<QueryModel, DecodeError>(DecodeError::MalformedFrame),
{
    lemma_frame_dec(q.key, q.parameters, q.qid, q.target, complete_capability, b);
    assert(query_enc(q).update(query_enc(q).len() - 1, b) =~= frame_parts(
        q.key,
        q.parameters,
        q.qid,
        q.target,
        b,
    ));
}

/// Rejection: a receiver without the capability fails on a `Complete`
/// target with `UnsupportedVariant`, never a silent downgrade.
pub proof fn lemma_reject_complete_without_capability(q: QueryModel)
    requires
        q.bounded(),
        q.target matches Some(QueryTarget::Complete(_)),
    ensures
        query_dec(query_enc(q), false) == Err::<QueryModel, DecodeError>(
            DecodeError::UnsupportedVariant,
        ),
{
    lemma_frame_dec(
        q.key,
        q.parameters,
        q.qid,
        q.target,
        false,
        consolidation_code(q.consolidation),
    );
}

/// Appends the encoding of a target to `buf`.
fn encode_target(buf: &mut Vec<u8>, tg: &QueryTarget)
    ensures
        final(buf)@ == old(buf)@ + target_enc(*tg),
{
    match tg {
        QueryTarget::BestMatching => {
            buf.push(0);
            assert(buf@ =~= old(buf)@ + target_enc(*tg));
        },
        QueryTarget::All => {
            buf.push(1);
            assert(buf@ =~= old(buf)@ + target_enc(*tg));
        },
        QueryTarget::AllComplete => {
            buf.push(2);
            assert(buf@ =~= old(buf)@ + target_enc(*tg));
        },
        QueryTarget::Complete(n) => {
            buf.push(3);
            encode_zint(buf, *n);
            assert(buf@ =~= old(buf)@ + target_enc(*tg));
        },
    }
}

/// Reads a target from `buf` at `pos`.
fn decode_target(buf: &[u8], pos: usize, complete_capability: bool) -> (r: Result<
    (QueryTarget, usize),
    DecodeError,
>)
    requires
        pos <= buf@.len(),
    ensures
        match r {
            Ok((tg, c)) => {
                &&& pos + c <= buf@.len()
                &&& target_dec(buf@.skip(pos as int), complete_capability) == Ok::<
                    (QueryTarget, nat),
                    DecodeError,
                >((tg, c as nat))
            },
            Err(e) => target_dec(buf@.skip(pos as int), complete_capability) == Err::<
                (QueryTarget, nat),
                DecodeError,
            >(e),
        },
{
    let blen: usize = buf.len();
    if pos >= blen {
        return Err(DecodeError::MalformedFrame);
    }
    let b = buf[pos];
    if b == 0 {
        Ok((QueryTarget::BestMatching, 1))
    } else if b == 1 {
        Ok((QueryTarget::All, 1))
    } else if b == 2 {
        Ok((QueryTarget::AllComplete, 1))
    } else if b == 3 {
        if !complete_capability {
            return Err(DecodeError::UnsupportedVariant);
        }
        let ghost tail = buf@.skip(pos as int).skip(1);
        assert(tail =~= buf@.skip(pos + 1));
        match decode_zint(buf, pos + 1) {
            Ok((n, c)) => Ok((QueryTarget::Complete(n), c + 1)),
            Err(e) => Err(e),
        }
    } else {
        Err(DecodeError::UnsupportedVariant)
    }
}

impl Query {
    /// Encodes this query as one wire frame. Fails with
    /// `UnsupportedVariant` exactly when the target is `Complete` and the
    /// capability is not enabled: that variant may not be constructed
    /// without it.
    pub fn encode(&self, complete_capability: bool) -> (r: Result<Vec<u8>, DecodeError>)
        ensures
            match r {
                Ok(bytes) => {
                    &&& self@.admissible(complete_capability)
                    &&& bytes@ == query_enc(self@)
                },
                Err(e) => {
                    &&& e == DecodeError::UnsupportedVariant
                    &&& !self@.admissible(complete_capability)
                },
            },
    {
        let admissible = match &self.target {
            Some(QueryTarget::Complete(_)) => complete_capability,
            _ => true,
        };
        if !admissible {
            return Err(DecodeError::UnsupportedVariant);
        }
        let k = self.key.has_suffix();
        let t = match &self.target {
            Some(_) => true,
            None => false,
        };
        let header: u8 = QUERY_MSG_ID | (if k { FLAG_K } else { 0 }) | (if t { FLAG_T } else { 0 });
        let plen: usize = self.parameters.len();
        assert(self.parameters@.len() == plen && plen <= u64::MAX);
        let mut out: Vec<u8> = Vec::new();
        out.push(header);
        encode_keyexpr(&mut out, &self.key);
        encode_zbuf(&mut out, self.parameters.as_slice());
        encode_zint(&mut out, self.qid);
        match &self.target {
            Some(tg) => encode_target(&mut out, tg),
            None => {},
        }
        let cb = match &self.consolidation {
            ConsolidationMode::Latest => 0,
            ConsolidationMode::Monotonic => 1,
            ConsolidationMode::NoConsolidation => 2,
        };
        out.push(cb);
        assert(out@ =~= query_enc(self@));
        Ok(out)
    }

    /// Decodes one wire frame, consuming it exactly. Fails with
    /// `MalformedFrame` on structurally invalid bytes, with
    /// `UnsupportedVariant` on a target discriminant the receiver does not
    /// support.
    #[verifier::rlimit(100)]
    #[verifier::spinoff_prover]
    pub fn decode(frame: &[u8], complete_capability: bool) -> (r: Result<Query, DecodeError>)
        ensures
            match r {
                Ok(q) => query_dec(frame@, complete_capability) == Ok::<QueryModel, DecodeError>(
                    q@,
                ),
                Err(e) => query_dec(frame@, complete_capability) == Err::<QueryModel, DecodeError>(
                    e,
                ),
            },
    {
        let flen: usize = frame.len();
        if flen == 0 {
            return Err(DecodeError::MalformedFrame);
        }
        let h = frame[0];
        if h & 0x1f != QUERY_MSG_ID {
            return Err(DecodeError::MalformedFrame);
        }
        let k = (h & FLAG_K) != 0;
        let t = (h & FLAG_T) != 0;
        let ghost body = frame@.skip(1);
        let (key, c1) = match decode_keyexpr(frame, 1, k) {
            Ok(p) => p,
            Err(e) => {
                return Err(e);
            },
        };
        let pos2 = 1 + c1;
        let ghost p1 = body.skip(keyexpr_dec_len(body, k) as int);
        assert(p1 =~= frame@.skip(pos2 as int));
        let (parameters, c2) = match decode_zbuf(frame, pos2) {
            Ok(p) => p,
            Err(e) => {
                return Err(e);
            },
        };
        let pos3 = pos2 + c2;
        let ghost p2 = p1.skip(zbuf_dec_len(p1) as int);
        assert(p2 =~= frame@.skip(pos3 as int));
        let (qid, c3) = match decode_zint(frame, pos3) {
            Ok(p) => p,
            Err(e) => {
                return Err(e);
            },
        };
        let pos4 = pos3 + c3;
        let ghost p3 = p2.skip(zint_dec_len(p2) as int);
        assert(p3 =~= frame@.skip(pos4 as int));
        let (target, pos5): (Option<QueryTarget>, usize) = if t {
            match decode_target(frame, pos4, complete_capability) {
                Ok((tg, c4)) => (Some(tg), pos4 + c4),
                Err(e) => {
                    return Err(e);
                },
            }
        } else {
            (None, pos4)
        };
        let ghost rem = if t {
            p3.skip((pos5 - pos4) as int)
        } else {
            p3
        };
        assert(rem =~= frame@.skip(pos5 as int));
        if pos5 >= flen || pos5 + 1 != flen {
            return Err(DecodeError::MalformedFrame);
        }
        let cb = frame[pos5];
        assert(rem.len() == 1 && rem[0] == cb);
        let consolidation = if cb == 0 {
            ConsolidationMode::Latest
        } else if cb == 1 {
            ConsolidationMode::Monotonic
        } else if cb == 2 {
            ConsolidationMode::NoConsolidation
        } else {
            return Err(DecodeError::MalformedFrame);
        };
        let q = Query { key, parameters, qid, target, consolidation };
        assert(query_tail_dec(key@, parameters@, qid, target, rem) == Ok::<QueryModel, DecodeError>(
            q@,
        ));
        assert(query_dec(frame@, complete_capability) == Ok::<QueryModel, DecodeError>(q@));
        Ok(q)
    }

    /// An arbitrary valid query, for fuzz-style round-trip checks: random
    /// key expression, a short or empty random alphanumeric parameter
    /// string, a random id, one of the ungated targets or none, and any
    /// consolidation mode.
    pub fn rand() -> (r: Query)
        ensures
            r@.parameters.len() == 0 || (2 <= r@.parameters.len() < 16),
            forall|i: int|
                0 <= i < r@.parameters.len() ==> testgen::is_alphanumeric_byte(
                    #[trigger] r@.parameters[i],
                ),
            r@.key.suffix.len() == 0 || (2 <= r@.key.suffix.len() < 16),
            forall|i: int|
                0 <= i < r@.key.suffix.len() ==> testgen::is_alphanumeric_byte(
                    #[trigger] r@.key.suffix[i],
                ),
            r@.admissible(false),
    {
        let key = WireExpr::rand();
        let parameters: Vec<u8> = if testgen::random_bool() {
            let len = testgen::random_in_range(2, 16);
            testgen::random_alphanumeric(len as usize)
        } else {
            Vec::new()
        };
        let qid: ZInt = testgen::random_u64();
        let target: Option<QueryTarget> = if testgen::random_bool() {
            let c = testgen::random_in_range(0, 3);
            Some(
                if c == 0 {
                    QueryTarget::All
                } else if c == 1 {
                    QueryTarget::AllComplete
                } else {
                    QueryTarget::BestMatching
                },
            )
        } else {
            None
        };
        let c2 = testgen::random_in_range(0, 3);
        let consolidation = if c2 == 0 {
            ConsolidationMode::Latest
        } else if c2 == 1 {
            ConsolidationMode::Monotonic
        } else {
            ConsolidationMode::NoConsolidation
        };
        Query { key, parameters, qid, target, consolidation }
    }
}

} // verus!
