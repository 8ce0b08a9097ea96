//! The byte store of one segment.
//!
//! A `SegmentFile` models the append-only backing file of one segment:
//! the bytes it holds, the absolute offset of its first byte, and the
//! durability watermark.  The process edge that puts these bytes on a
//! disk lives outside the library; every rule about offsets, capacity
//! and the sync policy is decided and verified here.

use vstd::prelude::*;
use crate::errors::JournalError;

verus! {

/// The in-memory image of one segment's backing file.
pub struct SegmentFile {
    pub namespace: u64,
    pub shard: u64,
    pub segment_id: u64,
    /// Absolute offset of the first byte of `data`.
    pub base_offset: u64,
    /// The bytes appended so far.
    pub data: Vec<u8>,
    /// Sync policy: `true` syncs after every append, `false` batches.
    pub sync_every_write: bool,
    /// How many of `data`'s bytes are durably synced.
    pub synced_len: usize,
}

impl SegmentFile {
    /// Well-formedness: offsets fit, and the sync policy is honoured.
    pub open spec fn wf(self) -> bool {
        &&& self.synced_len <= self.data@.len()
        &&& self.base_offset + self.data@.len() <= u64::MAX
        &&& self.sync_every_write ==> self.synced_len == self.data@.len()
    }

    /// The absolute offset one past the last byte.
    pub open spec fn end_offset(self) -> int {
        self.base_offset + self.data@.len()
    }

    /// A read of `len` bytes at absolute offset `offset` stays in range.
    pub open spec fn range_ok(self, offset: u64, len: u64) -> bool {
        &&& self.base_offset <= offset
        &&& offset + len <= self.end_offset()
    }

    /// Opens the byte store of a fresh segment.
    pub fn open_or_create(
        namespace: u64,
        shard: u64,
        segment_id: u64,
        base_offset: u64,
        sync_every_write: bool,
    ) -> (r: SegmentFile)
        ensures
            r.wf(),
            r.namespace == namespace,
            r.shard == shard,
            r.segment_id == segment_id,
            r.base_offset == base_offset,
            r.data@.len() == 0,
            r.sync_every_write == sync_every_write,
            r.synced_len == 0,
    {
        SegmentFile {
            namespace,
            shard,
            segment_id,
            base_offset,
            data: Vec::new(),
            sync_every_write,
            synced_len: 0,
        }
    }

    /// Appends `bytes` and returns the written offset range `[start, end)`.
    ///
    /// Fails with `CapacityExceeded` when the file would grow past
    /// `rotation_size` bytes or past the largest representable offset,
    /// and then leaves the file unchanged: an oversized append is never
    /// truncated or wrapped.  Under the sync-every-write policy the new
    /// bytes are synced before the call returns.
    pub fn append(&mut self, bytes: &Vec<u8>, rotation_size: u64) -> (res: Result<
        (u64, u64),
        JournalError,
    >)
        requires
            old(self).wf(),
        ensures
            final(self).wf(),
            final(self).namespace == old(self).namespace,
            final(self).shard == old(self).shard,
            final(self).segment_id == old(self).segment_id,
            final(self).base_offset == old(self).base_offset,
            final(self).sync_every_write == old(self).sync_every_write,
            (old(self).data@.len() + bytes@.len() > rotation_size || old(self).end_offset()
                + bytes@.len() > u64::MAX) ==> res == Err::<(u64, u64), JournalError>(
                JournalError::CapacityExceeded,
            ) && final(self).data@ == old(self).data@ && final(self).synced_len == old(self).synced_len,
            (old(self).data@.len() + bytes@.len() <= rotation_size && old(self).end_offset()
                + bytes@.len() <= u64::MAX) ==> {
                &&& res == Ok::<(u64, u64), JournalError>(
                    (
                        (old(self).base_offset + old(self).data@.len()) as u64,
                        (old(self).base_offset + old(self).data@.len() + bytes@.len()) as u64,
                    ),
                )
                &&& final(self).data@ == old(self).data@ + bytes@
                &&& old(self).sync_every_write ==> final(self).synced_len == final(self).data@.len()
                &&& !old(self).sync_every_write ==> final(self).synced_len == old(self).synced_len
            },
    {
        let cur_len = self.data.len();
        let add_len = bytes.len();
        if (cur_len as u128) + (add_len as u128) > (rotation_size as u128) {
            return Err(JournalError::CapacityExceeded);
        }
        if (self.base_offset as u128) + (cur_len as u128) + (add_len as u128) > (
        u64::MAX as u128) {
            return Err(JournalError::CapacityExceeded);
        }
        let start: u64 = self.base_offset + cur_len as u64;
        let mut i: usize = 0;
        while i < add_len
            invariant
                i <= add_len,
                add_len == bytes@.len(),
                self.data@ == old(self).data@ + bytes@.subrange(0, i as int),
                self.namespace == old(self).namespace,
                self.shard == old(self).shard,
                self.segment_id == old(self).segment_id,
                self.base_offset == old(self).base_offset,
                self.sync_every_write == old(self).sync_every_write,
                self.synced_len == old(self).synced_len,
            decreases add_len - i,
        {
            self.data.push(bytes[i]);
            proof {
                assert(self.data@ =~= old(self).data@ + bytes@.subrange(0, i + 1 as int));
            }
            i += 1;
        }
        proof {
            assert(self.data@ =~= old(self).data@ + bytes@);
        }
        if self.sync_every_write {
            self.synced_len = self.data.len();
        }
        let end: u64 = start + add_len as u64;
        Ok((start, end))
    }

    /// Random-access read of `len` bytes at absolute offset `offset`.
    ///
    /// Fails with `OutOfRange` when the range reaches past the end of
    /// the file or starts before its base offset.
    pub fn read(&self, offset: u64, len: u64) -> (res: Result<Vec<u8>, JournalError>)
        requires
            self.wf(),
        ensures
            self.range_ok(offset, len) ==> (res matches Ok(bytes) && bytes@ == self.data@.subrange(
                offset - self.base_offset,
                offset - self.base_offset + len,
            )),
            !self.range_ok(offset, len) ==> res == Err::<Vec<u8>, JournalError>(
                JournalError::OutOfRange,
            ),
    {
        if offset < self.base_offset {
            return Err(JournalError::OutOfRange);
        }
        let rel: u64 = offset - self.base_offset;
        if (rel as u128) + (len as u128) > (self.data.len() as u128) {
            return Err(JournalError::OutOfRange);
        }
        let start = rel as usize;
        let count = len as usize;
        let mut out: Vec<u8> = Vec::new();
        let mut i: usize = 0;
        while i < count
            invariant
                i <= count,
                start + count <= self.data@.len(),
                self.data@.len() <= usize::MAX,
                out@ == self.data@.subrange(start as int, start + i),
            decreases count - i,
        {
            out.push(self.data[start + i]);
            proof {
                assert(out@ =~= self.data@.subrange(start as int, start + i + 1));
            }
            i += 1;
        }
        Ok(out)
    }

    /// Durably syncs all appended bytes (the batched policy's barrier).
    pub fn sync(&mut self)
        requires
            old(self).wf(),
        ensures
            final(self).wf(),
            final(self).synced_len == final(self).data@.len(),
            final(self).data@ == old(self).data@,
            final(self).namespace == old(self).namespace,
            final(self).shard == old(self).shard,
            final(self).segment_id == old(self).segment_id,
            final(self).base_offset == old(self).base_offset,
            final(self).sync_every_write == old(self).sync_every_write,
    {
        self.synced_len = self.data.len();
    }

    /// The number of bytes the file holds.
    pub fn size(&self) -> (r: u64)
        requires
            self.wf(),
        ensures
            r == self.data@.len(),
    {
        self.data.len() as u64
    }
}

} // verus!
