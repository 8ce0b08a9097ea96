//! In-sync-replica bookkeeping for one shard.
//!
//! The tracker records, per replica, the highest acknowledged offset and
//! whether the replica is in sync.  Its invariants: replica node ids are
//! unique, the primary is always a member of the in-sync set, and a
//! replica is never in the in-sync set while its acknowledged offset is
//! behind the shard's active end offset.

use vstd::prelude::*;
use crate::errors::JournalError;

verus! {

/// Progress of one replica of a shard.
#[derive(Clone, Copy, Debug, PartialEq, Eq, Structural)]
pub struct ReplicaProgress {
    pub node_id: u64,
    /// Highest offset the replica has acknowledged; only ever grows.
    pub acked_offset: u64,
    pub in_sync: bool,
}

/// Counts the in-sync replicas among the first `n` entries.
pub open spec fn in_sync_count_up_to(s: Seq<ReplicaProgress>, n: int) -> int
    decreases n,
{
    if n <= 0 {
        0
    } else {
        in_sync_count_up_to(s, n - 1) + if s[n - 1].in_sync {
            1int
        } else {
            0int
        }
    }
}

/// The replica-set record of one shard.
pub struct IsrState {
    pub namespace: u64,
    pub shard: u64,
    /// The authoritative writer; always in the in-sync set.
    pub primary: u64,
    /// The shard's active end offset as last told to the tracker.
    pub active_end_offset: u64,
    /// Alarm: the in-sync set shrank below the configured minimum.
    pub under_replicated: bool,
    pub replicas: Vec<ReplicaProgress>,
}

impl IsrState {
    pub open spec fn rep_count(self) -> int {
        self.replicas@.len() as int
    }

    pub open spec fn rep(self, i: int) -> ReplicaProgress {
        self.replicas@[i]
    }

    /// Distinct entries carry distinct node ids.
    pub open spec fn distinct_at(self, i: int, j: int) -> bool {
        i != j ==> self.rep(i).node_id != self.rep(j).node_id
    }

    /// An in-sync replica has acknowledged up to the active end offset.
    pub open spec fn rep_ok(self, i: int) -> bool {
        self.rep(i).in_sync ==> self.rep(i).acked_offset >= self.active_end_offset
    }

    /// Entry `i` is the primary's and is in sync.
    pub open spec fn primary_at(self, i: int) -> bool {
        &&& 0 <= i < self.rep_count()
        &&& self.rep(i).node_id == self.primary
        &&& self.rep(i).in_sync
    }

    /// Well-formedness of the replica-set record.
    pub open spec fn wf(self) -> bool {
        &&& forall|i: int, j: int|
            0 <= i < self.rep_count() && 0 <= j < self.rep_count() ==> #[trigger] self.distinct_at(
                i,
                j,
            )
        &&& forall|i: int| 0 <= i < self.rep_count() ==> #[trigger] self.rep_ok(i)
        &&& exists|i: int| #[trigger] self.primary_at(i)
    }

    /// Number of replicas currently in the in-sync set.
    pub open spec fn in_sync_count(self) -> int {
        in_sync_count_up_to(self.replicas@, self.rep_count())
    }

    /// Two records hold the same values.
    pub open spec fn isr_eq(a: IsrState, b: IsrState) -> bool {
        &&& a.namespace == b.namespace
        &&& a.shard == b.shard
        &&& a.primary == b.primary
        &&& a.active_end_offset == b.active_end_offset
        &&& a.under_replicated == b.under_replicated
        &&& a.replicas@ == b.replicas@
    }

    /// A fresh record for a newly provisioned shard: the primary is its
    /// only replica, in sync at offset zero.
    pub fn new(namespace: u64, shard: u64, primary: u64) -> (r: IsrState)
        ensures
            r.wf(),
            r.namespace == namespace,
            r.shard == shard,
            r.primary == primary,
            r.active_end_offset == 0,
            !r.under_replicated,
            r.replicas@ =~= seq![
                ReplicaProgress { node_id: primary, acked_offset: 0, in_sync: true },
            ],
    {
        let mut replicas: Vec<ReplicaProgress> = Vec::new();
        replicas.push(ReplicaProgress { node_id: primary, acked_offset: 0, in_sync: true });
        let r = IsrState {
            namespace,
            shard,
            primary,
            active_end_offset: 0,
            under_replicated: false,
            replicas,
        };
        proof {
            assert(r.primary_at(0));
            assert forall|i: int, j: int|
                0 <= i < r.rep_count() && 0 <= j < r.rep_count() implies #[trigger] r.distinct_at(
                i,
                j,
            ) by {}
            assert forall|i: int| 0 <= i < r.rep_count() implies #[trigger] r.rep_ok(i) by {}
        }
        r
    }

    /// An exact copy of the record.
    pub fn duplicate(&self) -> (r: IsrState)
        ensures
            IsrState::isr_eq(r, *self),
    {
        let mut reps: Vec<ReplicaProgress> = Vec::new();
        let mut i: usize = 0;
        while i < self.replicas.len()
            invariant
                i <= self.replicas@.len(),
                reps@ == self.replicas@.subrange(0, i as int),
            decreases self.replicas@.len() - i,
        {
            reps.push(self.replicas[i]);
            proof {
                assert(reps@ =~= self.replicas@.subrange(0, i + 1 as int));
            }
            i += 1;
        }
        proof {
            assert(reps@ =~= self.replicas@);
        }
        IsrState {
            namespace: self.namespace,
            shard: self.shard,
            primary: self.primary,
            active_end_offset: self.active_end_offset,
            under_replicated: self.under_replicated,
            replicas: reps,
        }
    }

    /// Exactly what `on_replica_ack` does.
    pub open spec fn ack_post(
        pre: IsrState,
        post: IsrState,
        node_id: u64,
        acked_offset: u64,
    ) -> bool {
        &&& post.namespace == pre.namespace
        &&& post.shard == pre.shard
        &&& post.primary == pre.primary
        &&& post.active_end_offset == pre.active_end_offset
        &&& post.under_replicated == pre.under_replicated
        &&& forall|i: int|
            0 <= i < pre.rep_count() && (#[trigger] pre.rep(i)).node_id == node_id ==> post.replicas@
                == pre.replicas@.update(
                i,
                ReplicaProgress {
                    node_id,
                    acked_offset: if acked_offset > pre.rep(i).acked_offset {
                        acked_offset
                    } else {
                        pre.rep(i).acked_offset
                    },
                    in_sync: pre.rep(i).in_sync || acked_offset >= pre.active_end_offset,
                },
            )
        &&& (forall|i: int|
            0 <= i < pre.rep_count() ==> (#[trigger] pre.rep(i)).node_id != node_id) ==> post.replicas@
            == pre.replicas@.push(
            ReplicaProgress {
                node_id,
                acked_offset,
                in_sync: acked_offset >= pre.active_end_offset,
            },
        )
    }

    /// Records replica progress and promotes the replica into the
    /// in-sync set once its acknowledged offset reaches the shard's
    /// active end offset.
    ///
    /// A replica's recorded acknowledged offset only ever grows: a stale
    /// acknowledgement never moves it back.  An unknown node joins as a
    /// new replica.
    pub fn on_replica_ack(&mut self, node_id: u64, acked_offset: u64)
        requires
            old(self).wf(),
        ensures
            final(self).wf(),
            IsrState::ack_post(*old(self), *final(self), node_id, acked_offset),
            forall|i: int|
                0 <= i < old(self).rep_count() ==> (#[trigger] final(self).rep(i)).acked_offset
                    >= old(self).rep(i).acked_offset,
    {
        let n = self.replicas.len();
        let mut i: usize = 0;
        while i < n
            invariant
                i <= n,
                n == self.replicas@.len(),
                old(self).wf(),
                *self == *old(self),
                forall|j: int| 0 <= j < i ==> (#[trigger] self.rep(j)).node_id != node_id,
            decreases n - i,
        {
            let rep = self.replicas[i];
            if rep.node_id == node_id {
                let new_acked = if acked_offset > rep.acked_offset {
                    acked_offset
                } else {
                    rep.acked_offset
                };
                let promoted = rep.in_sync || acked_offset >= self.active_end_offset;
                let updated = ReplicaProgress {
                    node_id,
                    acked_offset: new_acked,
                    in_sync: promoted,
                };
                self.replicas[i] = updated;
                proof {
                    let pre = *old(self);
                    let post = *self;
                    assert(post.replicas@ == pre.replicas@.update(i as int, updated));
                    assert(pre.rep_ok(i as int));
                    assert forall|a: int, b: int|
                        0 <= a < post.rep_count() && 0 <= b
                            < post.rep_count() implies #[trigger] post.distinct_at(a, b) by {
                        assert(pre.distinct_at(a, b));
                    }
                    assert forall|a: int| 0 <= a < post.rep_count() implies #[trigger] post.rep_ok(
                        a,
                    ) by {
                        assert(pre.rep_ok(a));
                    }
                    let w = choose|w: int| pre.primary_at(w);
                    if w == i as int {
                        assert(post.primary_at(w));
                    } else {
                        assert(post.primary_at(w));
                    }
                    assert forall|a: int|
                        0 <= a < pre.rep_count() && (#[trigger] pre.rep(a)).node_id
                            == node_id implies post.replicas@ == pre.replicas@.update(
                        a,
                        ReplicaProgress {
                            node_id,
                            acked_offset: if acked_offset > pre.rep(a).acked_offset {
                                acked_offset
                            } else {
                                pre.rep(a).acked_offset
                            },
                            in_sync: pre.rep(a).in_sync || acked_offset
                                >= pre.active_end_offset,
                        },
                    ) by {
                        assert(pre.distinct_at(a, i as int));
                    }
                }
                return ;
            }
            i += 1;
        }
        let joined = ReplicaProgress {
            node_id,
            acked_offset,
            in_sync: acked_offset >= self.active_end_offset,
        };
        self.replicas.push(joined);
        proof {
            let pre = *old(self);
            let post = *self;
            assert(post.replicas@ == pre.replicas@.push(joined));
            assert forall|a: int, b: int|
                0 <= a < post.rep_count() && 0 <= b
                    < post.rep_count() implies #[trigger] post.distinct_at(a, b) by {
                if a < pre.rep_count() && b < pre.rep_count() {
                    assert(pre.distinct_at(a, b));
                } else if a < pre.rep_count() {
                    assert(pre.rep(a).node_id != node_id);
                } else if b < pre.rep_count() {
                    assert(pre.rep(b).node_id != node_id);
                }
            }
            assert forall|a: int| 0 <= a < post.rep_count() implies #[trigger] post.rep_ok(a) by {
                if a < pre.rep_count() {
                    assert(pre.rep_ok(a));
                }
            }
            let w = choose|w: int| pre.primary_at(w);
            assert(post.primary_at(w));
        }
    }

    /// Exactly what `on_heartbeat_timeout` does.
    pub open spec fn timeout_post(
        pre: IsrState,
        post: IsrState,
        node_id: u64,
        min_in_sync: u64,
    ) -> bool {
        &&& post.namespace == pre.namespace
        &&& post.shard == pre.shard
        &&& post.primary == pre.primary
        &&& post.active_end_offset == pre.active_end_offset
        &&& (node_id == pre.primary || forall|i: int|
            0 <= i < pre.rep_count() ==> (#[trigger] pre.rep(i)).node_id != node_id) ==> (
        post.replicas@ == pre.replicas@ && post.under_replicated == pre.under_replicated)
        &&& node_id != pre.primary ==> forall|i: int|
            0 <= i < pre.rep_count() && (#[trigger] pre.rep(i)).node_id == node_id ==> (
            post.replicas@ == pre.replicas@.update(
                i,
                ReplicaProgress { in_sync: false, ..pre.rep(i) },
            ) && post.under_replicated == (post.in_sync_count() < min_in_sync))
    }

    /// Demotes a replica whose heartbeat expired or whose acknowledged
    /// offset lags out of the in-sync set.
    ///
    /// The primary is never demoted here (it leaves only through
    /// `reassign_primary`).  When the in-sync set shrinks below
    /// `min_in_sync`, the record enters the under-replicated alarm
    /// state; writes are not blocked.
    pub fn on_heartbeat_timeout(&mut self, node_id: u64, min_in_sync: u64)
        requires
            old(self).wf(),
        ensures
            final(self).wf(),
            IsrState::timeout_post(*old(self), *final(self), node_id, min_in_sync),
    {
        if node_id == self.primary {
            return ;
        }
        let n = self.replicas.len();
        let mut i: usize = 0;
        while i < n
            invariant
                i <= n,
                n == self.replicas@.len(),
                old(self).wf(),
                node_id != old(self).primary,
                *self == *old(self),
                forall|j: int| 0 <= j < i ==> (#[trigger] self.rep(j)).node_id != node_id,
            decreases n - i,
        {
            let rep = self.replicas[i];
            if rep.node_id == node_id {
                let demoted = ReplicaProgress { in_sync: false, ..rep };
                self.replicas[i] = demoted;
                let shrunk = self.count_in_sync();
                self.under_replicated = shrunk < min_in_sync;
                proof {
                    let pre = *old(self);
                    let post = *self;
                    assert(post.replicas@ == pre.replicas@.update(i as int, demoted));
                    assert forall|a: int, b: int|
                        0 <= a < post.rep_count() && 0 <= b
                            < post.rep_count() implies #[trigger] post.distinct_at(a, b) by {
                        assert(pre.distinct_at(a, b));
                    }
                    assert forall|a: int| 0 <= a < post.rep_count() implies #[trigger] post.rep_ok(
                        a,
                    ) by {
                        assert(pre.rep_ok(a));
                    }
                    let w = choose|w: int| pre.primary_at(w);
                    assert(pre.distinct_at(w, i as int));
                    assert(post.primary_at(w));
                    assert forall|a: int|
                        0 <= a < pre.rep_count() && (#[trigger] pre.rep(a)).node_id
                            == node_id implies post.replicas@ == pre.replicas@.update(
                        a,
                        ReplicaProgress { in_sync: false, ..pre.rep(a) },
                    ) by {
                        assert(pre.distinct_at(a, i as int));
                    }
                }
                return ;
            }
            i += 1;
        }
    }

    /// Counts the replicas currently in the in-sync set.
    pub fn count_in_sync(&self) -> (r: u64)
        ensures
            r == self.in_sync_count(),
    {
        let n = self.replicas.len();
        let mut count: u64 = 0;
        let mut i: usize = 0;
        while i < n
            invariant
                i <= n,
                n == self.replicas@.len(),
                count == in_sync_count_up_to(self.replicas@, i as int),
                count <= i,
            decreases n - i,
        {
            if self.replicas[i].in_sync {
                count += 1;
            }
            i += 1;
        }
        count
    }

    /// Exactly what `reassign_primary` does and returns.
    pub open spec fn reassign_post(
        pre: IsrState,
        post: IsrState,
        new_primary: u64,
        res: Result<(), JournalError>,
    ) -> bool {
        &&& post.namespace == pre.namespace
        &&& post.shard == pre.shard
        &&& post.active_end_offset == pre.active_end_offset
        &&& post.under_replicated == pre.under_replicated
        &&& post.replicas@ == pre.replicas@
        &&& (exists|i: int|
            0 <= i < pre.rep_count() && (#[trigger] pre.rep(i)).node_id == new_primary && pre.rep(
                i,
            ).in_sync) ==> (res == Ok::<(), JournalError>(()) && post.primary == new_primary)
        &&& !(exists|i: int|
            0 <= i < pre.rep_count() && (#[trigger] pre.rep(i)).node_id == new_primary && pre.rep(
                i,
            ).in_sync) ==> (res == Err::<(), JournalError>(JournalError::NotInSync) && post.primary
            == pre.primary)
    }

    /// Makes `new_primary` the shard's primary.
    ///
    /// Fails with `NotInSync` unless `new_primary` is currently in the
    /// in-sync set: the primary is only ever promoted from caught-up
    /// replicas.  Reassignment to an in-sync replica always succeeds.
    pub fn reassign_primary(&mut self, new_primary: u64) -> (res: Result<(), JournalError>)
        requires
            old(self).wf(),
        ensures
            final(self).wf(),
            IsrState::reassign_post(*old(self), *final(self), new_primary, res),
    {
        let n = self.replicas.len();
        let mut i: usize = 0;
        while i < n
            invariant
                i <= n,
                n == self.replicas@.len(),
                old(self).wf(),
                *self == *old(self),
                forall|j: int|
                    0 <= j < i ==> !((#[trigger] self.rep(j)).node_id == new_primary && self.rep(
                        j,
                    ).in_sync),
            decreases n - i,
        {
            let rep = self.replicas[i];
            if rep.node_id == new_primary && rep.in_sync {
                self.primary = new_primary;
                proof {
                    let pre = *old(self);
                    let post = *self;
                    assert((i as int) < pre.rep_count() && pre.rep(i as int).node_id
                        == new_primary && pre.rep(i as int).in_sync);
                    assert forall|a: int, b: int|
                        0 <= a < post.rep_count() && 0 <= b
                            < post.rep_count() implies #[trigger] post.distinct_at(a, b) by {
                        assert(pre.distinct_at(a, b));
                    }
                    assert forall|a: int| 0 <= a < post.rep_count() implies #[trigger] post.rep_ok(
                        a,
                    ) by {
                        assert(pre.rep_ok(a));
                    }
                    assert(post.primary_at(i as int));
                }
                return Ok(());
            }
            i += 1;
        }
        Err(JournalError::NotInSync)
    }

    /// The replica entry `i` after the active end moves to `new_end`.
    pub open spec fn advanced_rep(self, i: int, new_end: u64) -> ReplicaProgress {
        if self.rep(i).node_id == self.primary {
            ReplicaProgress {
                node_id: self.rep(i).node_id,
                acked_offset: if self.rep(i).acked_offset > new_end {
                    self.rep(i).acked_offset
                } else {
                    new_end
                },
                in_sync: self.rep(i).in_sync,
            }
        } else {
            ReplicaProgress {
                node_id: self.rep(i).node_id,
                acked_offset: self.rep(i).acked_offset,
                in_sync: self.rep(i).in_sync && self.rep(i).acked_offset >= new_end,
            }
        }
    }

    /// Exactly what `set_active_end` does.
    pub open spec fn advance_post(pre: IsrState, post: IsrState, new_end: u64) -> bool {
        &&& post.namespace == pre.namespace
        &&& post.shard == pre.shard
        &&& post.primary == pre.primary
        &&& post.under_replicated == pre.under_replicated
        &&& post.active_end_offset == new_end
        &&& post.rep_count() == pre.rep_count()
        &&& forall|i: int|
            0 <= i < pre.rep_count() ==> #[trigger] post.rep(i) == pre.advanced_rep(i, new_end)
    }

    /// Moves the shard's active end offset.
    ///
    /// The primary, as the writer of those bytes, acknowledges them at
    /// once; any other replica now behind the end leaves the in-sync set
    /// until it catches up again.  Acknowledged offsets never shrink.
    pub fn set_active_end(&mut self, new_end: u64)
        requires
            old(self).wf(),
        ensures
            final(self).wf(),
            IsrState::advance_post(*old(self), *final(self), new_end),
            forall|i: int|
                0 <= i < old(self).rep_count() ==> (#[trigger] final(self).rep(i)).acked_offset
                    >= old(self).rep(i).acked_offset,
    {
        let n = self.replicas.len();
        let mut i: usize = 0;
        while i < n
            invariant
                i <= n,
                n == self.replicas@.len(),
                old(self).wf(),
                self.namespace == old(self).namespace,
                self.shard == old(self).shard,
                self.primary == old(self).primary,
                self.under_replicated == old(self).under_replicated,
                self.active_end_offset == old(self).active_end_offset,
                self.replicas@.len() == old(self).replicas@.len(),
                forall|j: int|
                    0 <= j < i ==> #[trigger] self.replicas@[j] == old(self).advanced_rep(
                        j,
                        new_end,
                    ),
                forall|j: int| i <= j < n ==> #[trigger] self.replicas@[j] == old(self).rep(j),
            decreases n - i,
        {
            let rep = self.replicas[i];
            let updated = if rep.node_id == self.primary {
                ReplicaProgress {
                    node_id: rep.node_id,
                    acked_offset: if rep.acked_offset > new_end {
                        rep.acked_offset
                    } else {
                        new_end
                    },
                    in_sync: rep.in_sync,
                }
            } else {
                ReplicaProgress {
                    node_id: rep.node_id,
                    acked_offset: rep.acked_offset,
                    in_sync: rep.in_sync && rep.acked_offset >= new_end,
                }
            };
            self.replicas[i] = updated;
            i += 1;
        }
        self.active_end_offset = new_end;
        proof {
            let pre = *old(self);
            let post = *self;
            assert forall|a: int, b: int|
                0 <= a < post.rep_count() && 0 <= b
                    < post.rep_count() implies #[trigger] post.distinct_at(a, b) by {
                assert(pre.distinct_at(a, b));
                assert(post.rep(a) == pre.advanced_rep(a, new_end));
                assert(post.rep(b) == pre.advanced_rep(b, new_end));
            }
            assert forall|a: int| 0 <= a < post.rep_count() implies #[trigger] post.rep_ok(a) by {
                assert(pre.rep_ok(a));
                assert(post.rep(a) == pre.advanced_rep(a, new_end));
            }
            let w = choose|w: int| pre.primary_at(w);
            assert(post.rep(w) == pre.advanced_rep(w, new_end));
            assert(post.primary_at(w));
        }
    }

    /// A replica is never in the in-sync set while its acknowledged
    /// offset is behind the shard's active end offset.
    pub proof fn lemma_in_sync_caught_up(isr: IsrState, i: int)
        requires
            isr.wf(),
            0 <= i < isr.rep_count(),
            isr.rep(i).in_sync,
        ensures
            isr.rep(i).acked_offset >= isr.active_end_offset,
    {
        assert(isr.rep_ok(i));
    }

    /// The primary is always a member of the in-sync set.
    pub proof fn lemma_primary_in_sync(isr: IsrState) -> (i: int)
        requires
            isr.wf(),
        ensures
            0 <= i < isr.rep_count(),
            isr.rep(i).node_id == isr.primary,
            isr.rep(i).in_sync,
    {
        choose|w: int| isr.primary_at(w)
    }
}

} // verus!
