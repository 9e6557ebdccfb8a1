//! Querier-side consolidation of the replies collected for one query.
//!
//! Consolidation is applied purely at the querier and operates
//! incrementally, one reply at a time, with no notion of "done": each
//! arriving reply is either delivered at once or suppressed. A reply is
//! summarized here by its distinguishing key and a monotone stamp (a
//! timestamp or sequence number); the payload rides along with the caller.
//!
//! - `NoConsolidation` delivers every reply unmodified.
//! - `Monotonic` suppresses a reply that is dominated by an already
//!   delivered one: same key, not strictly newer.
//! - `Latest` keeps only the newest reply per key: a reply is delivered
//!   unless a strictly newer one for its key was already delivered.

use vstd::prelude::*;

use crate::query::ConsolidationMode;
use crate::zint::ZInt;

verus! {

/// The stamp recorded for `key`, if any: the first entry of `s` carrying
/// that key.
pub open spec fn stamp_of(s: Seq<(ZInt, ZInt)>, key: ZInt) -> Option<ZInt>
    decreases s.len(),
{
    if s.len() == 0 {
        None
    } else if s[0].0 == key {
        Some(s[0].1)
    } else {
        stamp_of(s.skip(1), key)
    }
}

/// Pairwise distinctness of the keys of `s`.
pub open spec fn keys_distinct(s: Seq<(ZInt, ZInt)>) -> bool {
    forall|i: int, j: int| 0 <= i < j < s.len() ==> s[i].0 != s[j].0
}

/// Whether a reply stamped `stamp` for `key` is delivered, given the stamp
/// last kept for its key.
pub open spec fn delivers(mode: ConsolidationMode, kept: Option<ZInt>, stamp: ZInt) -> bool {
    match mode {
        ConsolidationMode::NoConsolidation => true,
        ConsolidationMode::Monotonic => match kept {
            None => true,
            Some(prev) => stamp > prev,
        },
        ConsolidationMode::Latest => match kept {
            None => true,
            Some(prev) => stamp >= prev,
        },
    }
}

/// A `stamp_of` miss means no entry carries the key.
proof fn lemma_stamp_of_none(s: Seq<(ZInt, ZInt)>, key: ZInt)
    requires
        stamp_of(s, key) is None,
    ensures
        forall|i: int| 0 <= i < s.len() ==> (#[trigger] s[i]).0 != key,
    decreases s.len(),
{
    if s.len() > 0 {
        lemma_stamp_of_none(s.skip(1), key);
        assert forall|i: int| 0 <= i < s.len() implies (#[trigger] s[i]).0 != key by {
            if i > 0 {
                assert(s.skip(1)[i - 1] == s[i]);
            }
        }
    }
}

/// Appending an entry for an absent key records its stamp and leaves every
/// other key's record unchanged.
proof fn lemma_stamp_of_push(s: Seq<(ZInt, ZInt)>, key: ZInt, stamp: ZInt)
    requires
        stamp_of(s, key) is None,
    ensures
        stamp_of(s.push((key, stamp)), key) == Some(stamp),
        forall|k: ZInt| k != key ==> stamp_of(s.push((key, stamp)), k) == stamp_of(s, k),
    decreases s.len(),
{
    let s1 = s.push((key, stamp));
    if s.len() == 0 {
        assert(s1[0] == (key, stamp));
        assert forall|k: ZInt| k != key implies stamp_of(s1, k) == stamp_of(s, k) by {
            assert(stamp_of(s1, k) == stamp_of(s1.skip(1), k));
            assert(s1.skip(1) =~= s);
        }
    } else {
        lemma_stamp_of_push(s.skip(1), key, stamp);
        assert(s1[0] == s[0]);
        assert(s1.skip(1) =~= s.skip(1).push((key, stamp)));
        assert(s[0].0 != key);
        assert forall|k: ZInt| k != key implies stamp_of(s1, k) == stamp_of(s, k) by {
            if s[0].0 != k {
                assert(stamp_of(s1.skip(1), k) == stamp_of(s.skip(1), k));
            }
        }
    }
}

/// Updating the entry that carries a key rewrites its stamp and leaves
/// every other key's record unchanged.
proof fn lemma_stamp_of_update(s: Seq<(ZInt, ZInt)>, i: int, key: ZInt, stamp: ZInt)
    requires
        0 <= i < s.len(),
        s[i].0 == key,
        forall|j: int| 0 <= j < i ==> (#[trigger] s[j]).0 != key,
    ensures
        stamp_of(s.update(i, (key, stamp)), key) == Some(stamp),
        forall|k: ZInt| k != key ==> stamp_of(s.update(i, (key, stamp)), k) == stamp_of(s, k),
    decreases i,
{
    let s1 = s.update(i, (key, stamp));
    if i == 0 {
        assert(s1[0] == (key, stamp));
        assert forall|k: ZInt| k != key implies stamp_of(s1, k) == stamp_of(s, k) by {
            assert(s1.skip(1) =~= s.skip(1));
        }
    } else {
        assert(s1[0] == s[0]);
        assert(s[0].0 != key);
        assert(s1.skip(1) =~= s.skip(1).update(i - 1, (key, stamp)));
        assert(s.skip(1)[i - 1] == s[i]);
        assert forall|j: int| 0 <= j < i - 1 implies (#[trigger] s.skip(1)[j]).0 != key by {
            assert(s.skip(1)[j] == s[j + 1]);
        }
        lemma_stamp_of_update(s.skip(1), i - 1, key, stamp);
        assert forall|k: ZInt| k != key implies stamp_of(s1, k) == stamp_of(s, k) by {
            if s[0].0 != k {
                assert(stamp_of(s1.skip(1), k) == stamp_of(s.skip(1), k));
            }
        }
    }
}

/// The incremental consolidator a querier runs over the replies to one
/// query: per distinguishing key it remembers the stamp last kept, and
/// decides delivery reply by reply, never blocking.
pub struct Consolidator {
    pub mode: ConsolidationMode,
    pub kept: Vec<(ZInt, ZInt)>,
}

impl Consolidator {
    /// The consolidator invariant: one record per key.
    pub open spec fn wf(self) -> bool {
        keys_distinct(self.kept@)
    }

    /// A fresh consolidator for one query, with nothing kept yet.
    pub fn new(mode: ConsolidationMode) -> (c: Consolidator)
        ensures
            c.wf(),
            c.mode == mode,
            c.kept@ == Seq::<(ZInt, ZInt)>::empty(),
    {
        Consolidator { mode, kept: Vec::new() }
    }

    /// Decides one arriving reply, identified by its key and stamp: reports
    /// whether it is delivered, and records its stamp when it is. Under
    /// `NoConsolidation` nothing is recorded and everything is delivered.
    pub fn observe(&mut self, key: ZInt, stamp: ZInt) -> (deliver: bool)
        requires
            old(self).wf(),
        ensures
            final(self).wf(),
            final(self).mode == old(self).mode,
            deliver == delivers(old(self).mode, stamp_of(old(self).kept@, key), stamp),
            old(self).mode == ConsolidationMode::NoConsolidation ==> *final(self) == *old(self),
            old(self).mode != ConsolidationMode::NoConsolidation ==> {
                &&& !deliver ==> *final(self) == *old(self)
                &&& deliver ==> stamp_of(final(self).kept@, key) == Some(stamp)
                &&& deliver ==> forall|k: ZInt|
                    k != key ==> stamp_of(final(self).kept@, k) == stamp_of(old(self).kept@, k)
            },
    {
        match self.mode {
            ConsolidationMode::NoConsolidation => true,
            _ => {
                let klen: usize = self.kept.len();
                let mut i: usize = 0;
                proof {
                    assert(self.kept@.skip(0) =~= self.kept@);
                }
                while i < klen
                    invariant
                        old(self).wf(),
                        old(self).mode != ConsolidationMode::NoConsolidation,
                        klen == self.kept@.len(),
                        i <= klen,
                        forall|j: int| 0 <= j < i ==> (#[trigger] self.kept@[j]).0 != key,
                        stamp_of(self.kept@, key) == stamp_of(self.kept@.skip(i as int), key),
                        *self == *old(self),
                    decreases klen - i,
                {
                    let (k, prev) = self.kept[i];
                    proof {
                        assert(self.kept@.skip(i as int)[0] == self.kept@[i as int]);
                        assert(self.kept@.skip(i as int).skip(1) =~= self.kept@.skip(i + 1));
                    }
                    if k == key {
                        assert(stamp_of(self.kept@, key) == Some(prev));
                        let newer = match self.mode {
                            ConsolidationMode::Monotonic => stamp > prev,
                            _ => stamp >= prev,
                        };
                        if newer {
                            let ghost s0 = self.kept@;
                            self.kept.set(i, (key, stamp));
                            proof {
                                lemma_stamp_of_update(s0, i as int, key, stamp);
                                assert(keys_distinct(s0));
                                assert forall|a: int, b: int|
                                    0 <= a < b < self.kept@.len() implies self.kept@[a].0
                                    != self.kept@[b].0 by {
                                    if a != i && b != i {
                                        assert(self.kept@[a] == s0[a] && self.kept@[b] == s0[b]);
                                    } else if a == i {
                                        assert(self.kept@[b] == s0[b]);
                                        assert(s0[a].0 == key);
                                    } else {
                                        assert(self.kept@[a] == s0[a]);
                                        assert(s0[b].0 == key);
                                    }
                                }
                            }
                        }
                        return newer;
                    }
                    i = i + 1;
                }
                proof {
                    assert(self.kept@.skip(klen as int) =~= Seq::<(ZInt, ZInt)>::empty());
                    assert(stamp_of(self.kept@, key) is None);
                }
                let ghost s0 = self.kept@;
                self.kept.push((key, stamp));
                proof {
                    lemma_stamp_of_none(s0, key);
                    lemma_stamp_of_push(s0, key, stamp);
                    assert(keys_distinct(s0));
                    assert forall|a: int, b: int|
                        0 <= a < b < self.kept@.len() implies self.kept@[a].0
                        != self.kept@[b].0 by {
                        if b < self.kept@.len() - 1 {
                            assert(self.kept@[a] == s0[a] && self.kept@[b] == s0[b]);
                        } else {
                            assert(self.kept@[a] == s0[a]);
                            assert(self.kept@[b] == (key, stamp));
                        }
                    }
                }
                true
            },
        }
    }
}

} // verus!
