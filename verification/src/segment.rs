//! Segment lifecycle for one shard of the journal.
//!
//! A shard's log is a sequence of segments with strictly increasing,
//! contiguous segment ids.  At most one segment is active, and it is
//! always the newest one; every older segment is sealed or deleting.
//! Adjacent segments share a boundary offset: the end offset of segment
//! `N` equals the start offset of segment `N + 1`, so the shard's log
//! has no gaps and no overlaps.

use vstd::prelude::*;
use crate::errors::JournalError;

verus! {

/// Lifecycle state of one segment.
#[derive(Clone, Copy, Debug, PartialEq, Eq, Structural)]
pub enum SegmentStatus {
    /// The segment accepts appends; its end offset is the write head.
    Active,
    /// The segment is immutable; its end offset is fixed.
    Sealed,
    /// Deletion intent is durably recorded; the file may still exist.
    Deleting,
}

/// The metadata record of one segment.
#[derive(Clone, Copy, Debug, PartialEq, Eq, Structural)]
pub struct SegmentMeta {
    pub namespace: u64,
    pub shard: u64,
    pub segment_id: u64,
    pub status: SegmentStatus,
    pub start_offset: u64,
    /// While active: the current write head.  Once sealed: fixed.
    pub end_offset: u64,
    pub create_time: u64,
}

impl SegmentMeta {
    /// Byte size accounted to the segment.
    pub open spec fn size(self) -> int {
        self.end_offset - self.start_offset
    }
}

/// The segment records of one shard, ordered by segment id.
pub struct ShardLog {
    pub namespace: u64,
    pub shard: u64,
    pub segments: Vec<SegmentMeta>,
    /// The id the next created segment receives; never reused.
    pub next_segment_id: u64,
    /// The start offset the next created segment receives.
    pub next_start_offset: u64,
}

impl ShardLog {
    pub open spec fn seg_count(self) -> int {
        self.segments@.len() as int
    }

    pub open spec fn seg(self, i: int) -> SegmentMeta {
        self.segments@[i]
    }

    /// The shard has an active segment (always the newest record).
    pub open spec fn has_active(self) -> bool {
        self.seg_count() > 0 && self.seg(self.seg_count() - 1).status == SegmentStatus::Active
    }

    /// The active segment record.
    pub open spec fn active(self) -> SegmentMeta
        recommends
            self.has_active(),
    {
        self.seg(self.seg_count() - 1)
    }

    /// Record `i` is well formed and carries the id contiguity.
    pub open spec fn wf_meta(self, i: int) -> bool {
        &&& self.seg(i).namespace == self.namespace
        &&& self.seg(i).shard == self.shard
        &&& self.seg(i).start_offset <= self.seg(i).end_offset
        &&& self.seg(i).segment_id == self.seg(0).segment_id + i
    }

    /// Record `i` is older than the newest one and is not active.
    pub open spec fn older_not_active(self, i: int) -> bool {
        self.seg(i).status != SegmentStatus::Active
    }

    /// Records `i` and `i + 1` share their boundary offset.
    pub open spec fn adjacent_ok(self, i: int) -> bool {
        self.seg(i).end_offset == self.seg(i + 1).start_offset
    }

    /// Well-formedness of the whole shard log.
    pub open spec fn wf(self) -> bool {
        &&& forall|i: int| 0 <= i < self.seg_count() ==> #[trigger] self.wf_meta(i)
        &&& forall|i: int| 0 <= i < self.seg_count() - 1 ==> #[trigger] self.older_not_active(i)
        &&& forall|i: int| 0 <= i < self.seg_count() - 1 ==> #[trigger] self.adjacent_ok(i)
        &&& self.seg_count() > 0 ==> self.next_segment_id == self.seg(0).segment_id
            + self.seg_count()
        &&& (self.seg_count() > 0 && !self.has_active()) ==> self.next_start_offset == self.seg(
            self.seg_count() - 1,
        ).end_offset
    }

    /// Two shard logs hold the same values.
    pub open spec fn log_eq(a: ShardLog, b: ShardLog) -> bool {
        &&& a.namespace == b.namespace
        &&& a.shard == b.shard
        &&& a.segments@ == b.segments@
        &&& a.next_segment_id == b.next_segment_id
        &&& a.next_start_offset == b.next_start_offset
    }

    /// The shard's write head: the active segment's end offset, or the
    /// start offset the next segment would receive.
    pub open spec fn head(self) -> u64 {
        if self.has_active() {
            self.active().end_offset
        } else {
            self.next_start_offset
        }
    }

    /// Exactly what `create_segment` does and returns.
    pub open spec fn create_post(
        pre: ShardLog,
        post: ShardLog,
        create_time: u64,
        res: Result<u64, JournalError>,
    ) -> bool {
        &&& pre.has_active() ==> res == Err::<u64, JournalError>(JournalError::ShardBusy)
            && ShardLog::log_eq(post, pre)
        &&& !pre.has_active() ==> {
            &&& res == Ok::<u64, JournalError>(pre.next_segment_id)
            &&& post.has_active()
            &&& post.active() == (SegmentMeta {
                namespace: pre.namespace,
                shard: pre.shard,
                segment_id: pre.next_segment_id,
                status: SegmentStatus::Active,
                start_offset: pre.next_start_offset,
                end_offset: pre.next_start_offset,
                create_time,
            })
            &&& post.segments@ == pre.segments@.push(post.active())
            &&& post.next_segment_id == pre.next_segment_id + 1
            &&& post.next_start_offset == pre.next_start_offset
            &&& post.namespace == pre.namespace
            &&& post.shard == pre.shard
        }
    }

    /// Exactly what `seal_segment` does and returns.
    pub open spec fn seal_post(
        pre: ShardLog,
        post: ShardLog,
        segment_id: u64,
        end_offset: u64,
        res: Result<(), JournalError>,
    ) -> bool {
        &&& !(pre.has_active() && pre.active().segment_id == segment_id) ==> res == Err::<
            (),
            JournalError,
        >(JournalError::NotActive) && ShardLog::log_eq(post, pre)
        &&& (pre.has_active() && pre.active().segment_id == segment_id && end_offset
            < pre.active().start_offset) ==> res == Err::<(), JournalError>(
            JournalError::NonMonotonicOffset,
        ) && ShardLog::log_eq(post, pre)
        &&& (pre.has_active() && pre.active().segment_id == segment_id && end_offset
            >= pre.active().start_offset) ==> {
            &&& res == Ok::<(), JournalError>(())
            &&& post.segments@ == pre.segments@.update(
                pre.seg_count() - 1,
                SegmentMeta { status: SegmentStatus::Sealed, end_offset, ..pre.active() },
            )
            &&& post.next_start_offset == end_offset
            &&& post.next_segment_id == pre.next_segment_id
            &&& post.namespace == pre.namespace
            &&& post.shard == pre.shard
            &&& !post.has_active()
        }
    }

    /// Exactly what `append` does and returns.
    pub open spec fn append_post(
        pre: ShardLog,
        post: ShardLog,
        len: u64,
        rotation_size: u64,
        res: Result<(u64, u64), JournalError>,
    ) -> bool {
        &&& !pre.has_active() ==> res == Err::<(u64, u64), JournalError>(JournalError::NotActive)
            && ShardLog::log_eq(post, pre)
        &&& (pre.has_active() && (pre.active().size() + len > rotation_size
            || pre.active().end_offset + len > u64::MAX)) ==> res == Err::<
            (u64, u64),
            JournalError,
        >(JournalError::CapacityExceeded) && ShardLog::log_eq(post, pre)
        &&& (pre.has_active() && pre.active().size() + len <= rotation_size
            && pre.active().end_offset + len <= u64::MAX) ==> {
            &&& res == Ok::<(u64, u64), JournalError>(
                (pre.active().end_offset, (pre.active().end_offset + len) as u64),
            )
            &&& post.segments@ == pre.segments@.update(
                pre.seg_count() - 1,
                SegmentMeta {
                    end_offset: (pre.active().end_offset + len) as u64,
                    ..pre.active()
                },
            )
            &&& post.has_active()
            &&& post.next_segment_id == pre.next_segment_id
            &&& post.next_start_offset == pre.next_start_offset
            &&& post.namespace == pre.namespace
            &&& post.shard == pre.shard
        }
    }

    /// Exactly what `mark_deleting` does and returns.
    pub open spec fn mark_deleting_post(
        pre: ShardLog,
        post: ShardLog,
        segment_id: u64,
        res: Result<(), JournalError>,
    ) -> bool {
        &&& post.namespace == pre.namespace
        &&& post.shard == pre.shard
        &&& post.next_segment_id == pre.next_segment_id
        &&& post.next_start_offset == pre.next_start_offset
        &&& (forall|i: int|
            0 <= i < pre.seg_count() ==> (#[trigger] pre.seg(i)).segment_id != segment_id) ==> res
            == Err::<(), JournalError>(JournalError::InconsistentState) && ShardLog::log_eq(
            post,
            pre,
        )
        &&& forall|i: int|
            0 <= i < pre.seg_count() && (#[trigger] pre.seg(i)).segment_id == segment_id ==> {
                &&& pre.seg(i).status == SegmentStatus::Active ==> res == Err::<(), JournalError>(
                    JournalError::ShardBusy,
                ) && ShardLog::log_eq(post, pre)
                &&& pre.seg(i).status != SegmentStatus::Active ==> res == Ok::<(), JournalError>(
                    (),
                ) && post.segments@ == pre.segments@.update(
                    i,
                    SegmentMeta { status: SegmentStatus::Deleting, ..pre.seg(i) },
                )
            }
    }

    /// Exactly what `confirm_deleted` does and returns.
    pub open spec fn confirm_deleted_post(
        pre: ShardLog,
        post: ShardLog,
        segment_id: u64,
        res: Result<(), JournalError>,
    ) -> bool {
        &&& post.namespace == pre.namespace
        &&& post.shard == pre.shard
        &&& post.next_segment_id == pre.next_segment_id
        &&& post.next_start_offset == pre.next_start_offset
        &&& (pre.seg_count() > 0 && pre.seg(0).segment_id == segment_id && pre.seg(0).status
            == SegmentStatus::Deleting) ==> res == Ok::<(), JournalError>(()) && post.segments@
            == pre.segments@.skip(1)
        &&& !(pre.seg_count() > 0 && pre.seg(0).segment_id == segment_id && pre.seg(0).status
            == SegmentStatus::Deleting) ==> res == Err::<(), JournalError>(
            JournalError::InconsistentState,
        ) && ShardLog::log_eq(post, pre)
    }

    /// A fresh shard log with no segments.
    pub fn new(namespace: u64, shard: u64) -> (r: ShardLog)
        ensures
            r.wf(),
            r.namespace == namespace,
            r.shard == shard,
            r.seg_count() == 0,
            r.next_segment_id == 0,
            r.next_start_offset == 0,
    {
        ShardLog {
            namespace,
            shard,
            segments: Vec::new(),
            next_segment_id: 0,
            next_start_offset: 0,
        }
    }

    /// An exact copy of the shard log.
    pub fn duplicate(&self) -> (r: ShardLog)
        ensures
            ShardLog::log_eq(r, *self),
    {
        let mut segs: Vec<SegmentMeta> = Vec::new();
        let mut i: usize = 0;
        while i < self.segments.len()
            invariant
                i <= self.segments@.len(),
                segs@ == self.segments@.subrange(0, i as int),
            decreases self.segments@.len() - i,
        {
            segs.push(self.segments[i]);
            proof {
                assert(segs@ =~= self.segments@.subrange(0, i + 1 as int));
            }
            i += 1;
        }
        proof {
            assert(segs@ =~= self.segments@);
        }
        ShardLog {
            namespace: self.namespace,
            shard: self.shard,
            segments: segs,
            next_segment_id: self.next_segment_id,
            next_start_offset: self.next_start_offset,
        }
    }

    /// Allocates the next segment id and opens a new active segment.
    ///
    /// Fails with `ShardBusy` while an active segment exists: the caller
    /// must seal it first, so a shard never holds two active segments.
    pub fn create_segment(&mut self, create_time: u64) -> (res: Result<u64, JournalError>)
        requires
            old(self).wf(),
            old(self).next_segment_id < u64::MAX,
        ensures
            final(self).wf(),
            ShardLog::create_post(*old(self), *final(self), create_time, res),
            final(self).head() == old(self).head(),
    {
        let n = self.segments.len();
        if n > 0 {
            let last = self.segments[n - 1];
            if last.status == SegmentStatus::Active {
                return Err(JournalError::ShardBusy);
            }
        }
        let id = self.next_segment_id;
        let meta = SegmentMeta {
            namespace: self.namespace,
            shard: self.shard,
            segment_id: id,
            status: SegmentStatus::Active,
            start_offset: self.next_start_offset,
            end_offset: self.next_start_offset,
            create_time,
        };
        self.segments.push(meta);
        self.next_segment_id = id + 1;
        proof {
            let pre = *old(self);
            let post = *self;
            assert(post.segments@ == pre.segments@.push(meta));
            assert forall|i: int| 0 <= i < post.seg_count() implies #[trigger] post.wf_meta(
                i,
            ) by {
                if i < post.seg_count() - 1 {
                    assert(pre.wf_meta(i));
                    assert(post.seg(i) == pre.seg(i));
                    assert(post.seg(0) == pre.seg(0));
                } else {
                    if post.seg_count() > 1 {
                        assert(pre.wf_meta(0));
                        assert(post.seg(0) == pre.seg(0));
                    }
                }
            }
            assert forall|i: int|
                0 <= i < post.seg_count() - 1 implies #[trigger] post.older_not_active(i) by {
                assert(pre.older_not_active(i) || i == pre.seg_count() - 1);
                assert(post.seg(i) == pre.seg(i));
            }
            assert forall|i: int| 0 <= i < post.seg_count() - 1 implies #[trigger] post.adjacent_ok(
                i,
            ) by {
                if i < pre.seg_count() - 1 {
                    assert(pre.adjacent_ok(i));
                    assert(post.seg(i) == pre.seg(i));
                    assert(post.seg(i + 1) == pre.seg(i + 1));
                } else {
                    assert(post.seg(i) == pre.seg(i));
                }
            }
        }
        Ok(id)
    }

    /// Seals the active segment and fixes its end offset.
    ///
    /// Fails with `NotActive` unless `segment_id` names the current
    /// active segment; it never silently succeeds on any other segment.
    /// Fails with `NonMonotonicOffset` if `end_offset` precedes the
    /// segment's start offset.  On failure the log is unchanged.
    pub fn seal_segment(&mut self, segment_id: u64, end_offset: u64) -> (res: Result<
        (),
        JournalError,
    >)
        requires
            old(self).wf(),
        ensures
            final(self).wf(),
            ShardLog::seal_post(*old(self), *final(self), segment_id, end_offset, res),
            res is Ok ==> final(self).head() == end_offset,
            res is Err ==> final(self).head() == old(self).head(),
    {
        let n = self.segments.len();
        if n == 0 {
            return Err(JournalError::NotActive);
        }
        let last = self.segments[n - 1];
        if last.status != SegmentStatus::Active || last.segment_id != segment_id {
            return Err(JournalError::NotActive);
        }
        if end_offset < last.start_offset {
            return Err(JournalError::NonMonotonicOffset);
        }
        let sealed = SegmentMeta { status: SegmentStatus::Sealed, end_offset, ..last };
        self.segments[n - 1] = sealed;
        self.next_start_offset = end_offset;
        proof {
            let pre = *old(self);
            let post = *self;
            assert(post.segments@ == pre.segments@.update(pre.seg_count() - 1, sealed));
            assert forall|i: int| 0 <= i < post.seg_count() implies #[trigger] post.wf_meta(
                i,
            ) by {
                assert(pre.wf_meta(i));
                assert(pre.wf_meta(0));
                if i < post.seg_count() - 1 {
                    assert(post.seg(i) == pre.seg(i));
                }
            }
            assert forall|i: int|
                0 <= i < post.seg_count() - 1 implies #[trigger] post.older_not_active(i) by {
                assert(pre.older_not_active(i));
                assert(post.seg(i) == pre.seg(i));
            }
            assert forall|i: int| 0 <= i < post.seg_count() - 1 implies #[trigger] post.adjacent_ok(
                i,
            ) by {
                assert(pre.adjacent_ok(i));
                assert(post.seg(i + 1).start_offset == pre.seg(i + 1).start_offset);
                if i < post.seg_count() - 2 {
                    assert(post.seg(i) == pre.seg(i));
                }
            }
        }
        Ok(())
    }

    /// Appends `len` bytes of accounting to the active segment.
    ///
    /// Returns the written offset range `[start, end)`.  Fails with
    /// `NotActive` when the shard has no active segment, and with
    /// `CapacityExceeded` when the append would carry the segment past
    /// `rotation_size` bytes or past the largest representable offset;
    /// it never truncates or wraps.  On failure the log is unchanged.
    pub fn append(&mut self, len: u64, rotation_size: u64) -> (res: Result<
        (u64, u64),
        JournalError,
    >)
        requires
            old(self).wf(),
        ensures
            final(self).wf(),
            ShardLog::append_post(*old(self), *final(self), len, rotation_size, res),
            res matches Ok(range) ==> final(self).head() == range.1 && range.1 == range.0 + len,
            res is Err ==> final(self).head() == old(self).head(),
    {
        let n = self.segments.len();
        if n == 0 {
            return Err(JournalError::NotActive);
        }
        let last = self.segments[n - 1];
        if last.status != SegmentStatus::Active {
            return Err(JournalError::NotActive);
        }
        proof {
            assert(old(self).wf_meta(n - 1 as int));
        }
        let size: u64 = last.end_offset - last.start_offset;
        if (size as u128) + (len as u128) > (rotation_size as u128) {
            return Err(JournalError::CapacityExceeded);
        }
        if (last.end_offset as u128) + (len as u128) > (u64::MAX as u128) {
            return Err(JournalError::CapacityExceeded);
        }
        let new_end: u64 = last.end_offset + len;
        let advanced = SegmentMeta { end_offset: new_end, ..last };
        self.segments[n - 1] = advanced;
        proof {
            let pre = *old(self);
            let post = *self;
            assert(post.segments@ == pre.segments@.update(pre.seg_count() - 1, advanced));
            assert forall|i: int| 0 <= i < post.seg_count() implies #[trigger] post.wf_meta(
                i,
            ) by {
                assert(pre.wf_meta(i));
                assert(pre.wf_meta(0));
                if i < post.seg_count() - 1 {
                    assert(post.seg(i) == pre.seg(i));
                }
            }
            assert forall|i: int|
                0 <= i < post.seg_count() - 1 implies #[trigger] post.older_not_active(i) by {
                assert(pre.older_not_active(i));
                assert(post.seg(i) == pre.seg(i));
            }
            assert forall|i: int| 0 <= i < post.seg_count() - 1 implies #[trigger] post.adjacent_ok(
                i,
            ) by {
                assert(pre.adjacent_ok(i));
                assert(post.seg(i + 1).start_offset == pre.seg(i + 1).start_offset);
                if i < post.seg_count() - 2 {
                    assert(post.seg(i) == pre.seg(i));
                }
            }
        }
        Ok((last.end_offset, new_end))
    }

    /// Durably records deletion intent for a sealed segment.
    ///
    /// The first phase of the two-phase deletion: the record transitions
    /// Sealed to Deleting, and the physical file may only be removed once
    /// this has succeeded.  Fails with `ShardBusy` on the active segment
    /// (it must be sealed first) and with `InconsistentState` on an
    /// unknown segment id.  Marking an already-deleting segment again is
    /// accepted and changes nothing.
    pub fn mark_deleting(&mut self, segment_id: u64) -> (res: Result<(), JournalError>)
        requires
            old(self).wf(),
        ensures
            final(self).wf(),
            ShardLog::mark_deleting_post(*old(self), *final(self), segment_id, res),
            final(self).head() == old(self).head(),
    {
        let n = self.segments.len();
        if n == 0 {
            return Err(JournalError::InconsistentState);
        }
        let first = self.segments[0];
        proof {
            assert forall|i: int|
                0 <= i < old(self).seg_count() implies (#[trigger] old(self).seg(i)).segment_id
                == old(self).seg(0).segment_id + i by {
                assert(old(self).wf_meta(i));
            }
        }
        if segment_id < first.segment_id {
            return Err(JournalError::InconsistentState);
        }
        let off: u64 = segment_id - first.segment_id;
        if off >= n as u64 {
            return Err(JournalError::InconsistentState);
        }
        let idx = off as usize;
        proof {
            assert(old(self).wf_meta(idx as int));
            assert(old(self).seg(idx as int).segment_id == segment_id);
        }
        let target = self.segments[idx];
        if target.status == SegmentStatus::Active {
            return Err(JournalError::ShardBusy);
        }
        let marked = SegmentMeta { status: SegmentStatus::Deleting, ..target };
        self.segments[idx] = marked;
        proof {
            let pre = *old(self);
            let post = *self;
            assert(post.segments@ == pre.segments@.update(idx as int, marked));
            assert forall|i: int| 0 <= i < post.seg_count() implies #[trigger] post.wf_meta(
                i,
            ) by {
                assert(pre.wf_meta(i));
                assert(pre.wf_meta(0));
                if i != idx as int {
                    assert(post.seg(i) == pre.seg(i));
                }
            }
            assert forall|i: int|
                0 <= i < post.seg_count() - 1 implies #[trigger] post.older_not_active(i) by {
                assert(pre.older_not_active(i));
                if i != idx as int {
                    assert(post.seg(i) == pre.seg(i));
                }
            }
            assert forall|i: int| 0 <= i < post.seg_count() - 1 implies #[trigger] post.adjacent_ok(
                i,
            ) by {
                assert(pre.adjacent_ok(i));
                if i != idx as int {
                    assert(post.seg(i) == pre.seg(i));
                }
                if i + 1 != idx as int {
                    assert(post.seg(i + 1) == pre.seg(i + 1));
                }
            }
            if idx as int != post.seg_count() - 1 {
                assert(post.seg(post.seg_count() - 1) == pre.seg(pre.seg_count() - 1));
            }
            assert(!post.has_active() ==> !pre.has_active());
            assert(post.seg(post.seg_count() - 1).end_offset == pre.seg(
                pre.seg_count() - 1,
            ).end_offset);
        }
        Ok(())
    }

    /// Confirms that a deleting segment's file has been removed.
    ///
    /// The second phase of the two-phase deletion: the record leaves the
    /// log.  Valid only for the oldest record and only once deletion
    /// intent is recorded (segments are retired oldest first); any other
    /// call fails with `InconsistentState` and changes nothing.
    pub fn confirm_deleted(&mut self, segment_id: u64) -> (res: Result<(), JournalError>)
        requires
            old(self).wf(),
        ensures
            final(self).wf(),
            ShardLog::confirm_deleted_post(*old(self), *final(self), segment_id, res),
            final(self).head() == old(self).head(),
    {
        let n = self.segments.len();
        if n == 0 {
            return Err(JournalError::InconsistentState);
        }
        let first = self.segments[0];
        if first.segment_id != segment_id || first.status != SegmentStatus::Deleting {
            return Err(JournalError::InconsistentState);
        }
        self.segments.remove(0);
        proof {
            let pre = *old(self);
            let post = *self;
            assert(post.segments@ =~= pre.segments@.skip(1));
            assert forall|i: int| 0 <= i < post.seg_count() implies #[trigger] post.wf_meta(
                i,
            ) by {
                assert(pre.wf_meta(i + 1));
                assert(pre.wf_meta(1));
                assert(post.seg(i) == pre.seg(i + 1));
                assert(post.seg(0) == pre.seg(1));
            }
            assert forall|i: int|
                0 <= i < post.seg_count() - 1 implies #[trigger] post.older_not_active(i) by {
                assert(pre.older_not_active(i + 1));
                assert(post.seg(i) == pre.seg(i + 1));
            }
            assert forall|i: int| 0 <= i < post.seg_count() - 1 implies #[trigger] post.adjacent_ok(
                i,
            ) by {
                assert(pre.adjacent_ok(i + 1));
                assert(post.seg(i) == pre.seg(i + 1));
                assert(post.seg(i + 1) == pre.seg(i + 2));
            }
            if post.seg_count() > 0 {
                assert(pre.wf_meta(1));
                assert(post.seg(post.seg_count() - 1) == pre.seg(pre.seg_count() - 1));
            }
        }
        Ok(())
    }

    /// Whether the shard log holds a record with this segment id.
    pub fn contains_segment(&self, segment_id: u64) -> (r: bool)
        requires
            self.wf(),
        ensures
            r == exists|k: int|
                0 <= k < self.seg_count() && (#[trigger] self.seg(k)).segment_id == segment_id,
    {
        let n = self.segments.len();
        if n == 0 {
            return false;
        }
        let first = self.segments[0];
        proof {
            assert forall|k: int|
                0 <= k < self.seg_count() implies (#[trigger] self.seg(k)).segment_id == self.seg(
                0,
            ).segment_id + k by {
                assert(self.wf_meta(k));
            }
        }
        if segment_id < first.segment_id {
            return false;
        }
        let off: u64 = segment_id - first.segment_id;
        if off >= n as u64 {
            return false;
        }
        proof {
            assert(self.seg(off as int).segment_id == segment_id);
        }
        true
    }

    /// At most one segment of a shard is active at any instant, and it
    /// is always the newest record.
    pub proof fn lemma_at_most_one_active(log: ShardLog, i: int, j: int)
        requires
            log.wf(),
            0 <= i < log.seg_count(),
            0 <= j < log.seg_count(),
            log.seg(i).status == SegmentStatus::Active,
            log.seg(j).status == SegmentStatus::Active,
        ensures
            i == j,
            i == log.seg_count() - 1,
    {
        if i < log.seg_count() - 1 {
            assert(log.older_not_active(i));
        }
        if j < log.seg_count() - 1 {
            assert(log.older_not_active(j));
        }
    }

    /// Adjacent segments of a shard share their boundary: segment `N`
    /// ends exactly where segment `N + 1` starts, with consecutive ids —
    /// the no-gap, no-overlap law, which in particular covers every
    /// sealed pair.
    pub proof fn lemma_no_gap_no_overlap(log: ShardLog, i: int)
        requires
            log.wf(),
            0 <= i,
            i + 1 < log.seg_count(),
        ensures
            log.seg(i).end_offset == log.seg(i + 1).start_offset,
            log.seg(i).segment_id + 1 == log.seg(i + 1).segment_id,
    {
        assert(log.adjacent_ok(i));
        assert(log.wf_meta(i));
        assert(log.wf_meta(i + 1));
    }
}

} // verus!
