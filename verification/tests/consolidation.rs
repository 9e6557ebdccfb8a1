use zenoh_protocol::consolidation::Consolidator;
use zenoh_protocol::query::ConsolidationMode;

#[test]
fn no_consolidation_delivers_every_reply() {
    let mut c = Consolidator::new(ConsolidationMode::NoConsolidation);
    assert!(c.observe(1, 5));
    assert!(c.observe(1, 5));
    assert!(c.observe(1, 1));
    assert!(c.observe(2, 0));
}

#[test]
fn monotonic_suppresses_dominated_replies() {
    let mut c = Consolidator::new(ConsolidationMode::Monotonic);
    assert!(c.observe(1, 5));
    // Same key, not strictly newer: dominated.
    assert!(!c.observe(1, 5));
    assert!(!c.observe(1, 4));
    // Strictly newer: delivered.
    assert!(c.observe(1, 6));
    assert!(!c.observe(1, 6));
    // Another key is consolidated independently.
    assert!(c.observe(2, 1));
}

#[test]
fn latest_keeps_the_newest_per_key() {
    let mut c = Consolidator::new(ConsolidationMode::Latest);
    assert!(c.observe(1, 5));
    // As new as the kept one still wins under Latest.
    assert!(c.observe(1, 5));
    // Older than the kept one is suppressed.
    assert!(!c.observe(1, 4));
    assert!(c.observe(1, 7));
    assert!(c.observe(3, 0));
}
