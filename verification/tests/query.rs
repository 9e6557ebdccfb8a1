use zenoh_protocol::error::DecodeError;
use zenoh_protocol::keyexpr::WireExpr;
use zenoh_protocol::query::{ConsolidationMode, Query, QueryTarget};

fn sample_query() -> Query {
    Query {
        key: WireExpr { scope: 7, suffix: b"temp/kitchen".to_vec() },
        parameters: Vec::new(),
        qid: 42,
        target: Some(QueryTarget::AllComplete),
        consolidation: ConsolidationMode::Monotonic,
    }
}

#[test]
fn end_to_end_query_round_trip() {
    let q = sample_query();
    let frame = q.encode(false).unwrap();
    // Header flags: K set (suffix present), T set (target present).
    assert_eq!(frame[0], 0x80 | 0x20 | 0x09);
    let back = Query::decode(&frame, false).unwrap();
    assert_eq!(back, q);
}

#[test]
fn exact_frame_bytes() {
    let q = Query {
        key: WireExpr { scope: 1, suffix: Vec::new() },
        parameters: b"ab".to_vec(),
        qid: 1,
        target: None,
        consolidation: ConsolidationMode::Latest,
    };
    let frame = q.encode(false).unwrap();
    assert_eq!(frame, vec![0x09, 0x01, 0x02, b'a', b'b', 0x01, 0x00]);
    assert_eq!(Query::decode(&frame, false).unwrap(), q);
}

#[test]
fn header_flags_follow_fields() {
    let mut q = sample_query();
    q.key.suffix = Vec::new();
    q.target = None;
    assert_eq!(q.encode(false).unwrap()[0], 0x09);
    q.key.suffix = b"a/b".to_vec();
    assert_eq!(q.encode(false).unwrap()[0], 0x80 | 0x09);
    q.key.suffix = Vec::new();
    q.target = Some(QueryTarget::All);
    assert_eq!(q.encode(false).unwrap()[0], 0x20 | 0x09);
}

#[test]
fn consolidation_round_trips_all_modes() {
    for mode in [
        ConsolidationMode::Latest,
        ConsolidationMode::Monotonic,
        ConsolidationMode::NoConsolidation,
    ] {
        let mut q = sample_query();
        q.consolidation = mode;
        let frame = q.encode(false).unwrap();
        assert_eq!(Query::decode(&frame, false).unwrap(), q);
    }
}

#[test]
fn target_round_trips_all_variants() {
    for target in [
        None,
        Some(QueryTarget::BestMatching),
        Some(QueryTarget::All),
        Some(QueryTarget::AllComplete),
        Some(QueryTarget::Complete(17)),
    ] {
        let mut q = sample_query();
        q.target = target;
        let frame = q.encode(true).unwrap();
        assert_eq!(Query::decode(&frame, true).unwrap(), q);
    }
}

#[test]
fn bad_consolidation_discriminant_is_malformed() {
    let q = sample_query();
    let mut frame = q.encode(false).unwrap();
    let last = frame.len() - 1;
    frame[last] = 3;
    assert_eq!(Query::decode(&frame, false), Err(DecodeError::MalformedFrame));
    frame[last] = 0xff;
    assert_eq!(Query::decode(&frame, false), Err(DecodeError::MalformedFrame));
}

#[test]
fn complete_target_needs_the_capability() {
    let mut q = sample_query();
    q.target = Some(QueryTarget::Complete(5));
    // Constructing the frame without the capability is refused outright.
    assert_eq!(q.encode(false), Err(DecodeError::UnsupportedVariant));
    // A capable sender may encode it; an incapable receiver must fail, a
    // capable one reads it back.
    let frame = q.encode(true).unwrap();
    assert_eq!(Query::decode(&frame, false), Err(DecodeError::UnsupportedVariant));
    assert_eq!(Query::decode(&frame, true).unwrap(), q);
}

#[test]
fn unknown_target_discriminant_is_unsupported() {
    let mut q = sample_query();
    q.target = Some(QueryTarget::All);
    let mut frame = q.encode(false).unwrap();
    // The target discriminant sits just before the final consolidation byte.
    let pos = frame.len() - 2;
    assert_eq!(frame[pos], 1);
    frame[pos] = 9;
    assert_eq!(Query::decode(&frame, false), Err(DecodeError::UnsupportedVariant));
}

#[test]
fn truncated_and_padded_frames_are_malformed() {
    let q = sample_query();
    let frame = q.encode(false).unwrap();
    assert_eq!(
        Query::decode(&frame[..frame.len() - 1], false),
        Err(DecodeError::MalformedFrame)
    );
    let mut padded = frame.clone();
    padded.push(0);
    assert_eq!(Query::decode(&padded, false), Err(DecodeError::MalformedFrame));
    assert_eq!(Query::decode(&[], false), Err(DecodeError::MalformedFrame));
}

#[test]
fn wrong_message_kind_is_malformed() {
    let q = sample_query();
    let mut frame = q.encode(false).unwrap();
    frame[0] = (frame[0] & 0xe0) | 0x0a;
    assert_eq!(Query::decode(&frame, false), Err(DecodeError::MalformedFrame));
}

#[test]
fn random_queries_round_trip() {
    for _ in 0..200 {
        let q = Query::rand();
        let plen = q.parameters.len();
        assert!(plen == 0 || (2..16).contains(&plen));
        let slen = q.key.suffix.len();
        assert!(slen == 0 || (2..16).contains(&slen));
        let frame = q.encode(false).unwrap();
        assert_eq!(Query::decode(&frame, false).unwrap(), q);
    }
}

#[test]
fn random_wire_exprs_stay_bounded() {
    for _ in 0..50 {
        let k = WireExpr::rand();
        let slen = k.suffix.len();
        assert!(slen == 0 || (2..16).contains(&slen));
    }
}
