//! The journal engine: persistent metadata store and its cache mirror.
//!
//! The engine owns the authoritative shard state (segment records and
//! replica sets, grouped per shard) and the cluster node records, each
//! in two places: the `store`, which models the durable metadata store,
//! and the `cache`, the in-memory mirror every read path consults.
//! Every mutation writes the store first and refreshes the cache entry
//! in the same operation, so once the cache is loaded a read never sees
//! a value that differs from the persisted one.

use vstd::prelude::*;
use crate::errors::JournalError;
use crate::segment::SegmentMeta;
use crate::segment::SegmentStatus;
use crate::segment::ShardLog;
use crate::isr::IsrState;
use crate::isr::ReplicaProgress;
use crate::cluster::NodeHealth;
use crate::cluster::NodeRecord;

verus! {

/// Runtime configuration of the engine.
#[derive(Clone, Copy, Debug, PartialEq, Eq, Structural)]
pub struct EngineConfig {
    /// A segment rotates once it holds this many bytes.
    pub rotation_max_size: u64,
    /// A non-empty segment rotates once it is this old.
    pub rotation_max_age: u64,
    /// Below this many in-sync replicas a shard is under-replicated.
    pub isr_min_in_sync: u64,
    /// A healthy node older than this without a heartbeat turns suspect.
    pub heartbeat_timeout: u64,
    /// The id this process registers itself under.
    pub local_node_id: u64,
}

/// A segment named by its full key, as discovered on disk.
#[derive(Clone, Copy, Debug, PartialEq, Eq, Structural)]
pub struct SegmentRef {
    pub namespace: u64,
    pub shard: u64,
    pub segment_id: u64,
}

/// The durable metadata: three column families, one record kind each.
pub struct MetadataStore {
    /// Segment records, grouped per shard, ordered by shard key.
    pub shard_logs: Vec<ShardLog>,
    /// Replica-set records, one per shard, aligned with `shard_logs`.
    pub isrs: Vec<IsrState>,
    /// Cluster node records.
    pub nodes: Vec<NodeRecord>,
}

/// The in-memory mirror of the store that read paths consult.
pub struct CacheSnapshot {
    pub shard_logs: Vec<ShardLog>,
    pub isrs: Vec<IsrState>,
    pub nodes: Vec<NodeRecord>,
}

/// The journal engine.
pub struct JournalEngine {
    pub config: EngineConfig,
    pub store: MetadataStore,
    pub cache: CacheSnapshot,
    /// The cache has been populated from the store.
    pub loaded: bool,
    /// Background index building has not been stopped yet.
    pub index_threads_running: bool,
}

impl JournalEngine {
    pub open spec fn shard_count(self) -> int {
        self.store.shard_logs@.len() as int
    }

    pub open spec fn log_at(self, i: int) -> ShardLog {
        self.store.shard_logs@[i]
    }

    pub open spec fn isr_at(self, i: int) -> IsrState {
        self.store.isrs@[i]
    }

    pub open spec fn node_count(self) -> int {
        self.store.nodes@.len() as int
    }

    pub open spec fn node_at(self, i: int) -> NodeRecord {
        self.store.nodes@[i]
    }

    /// Shard `i`'s records are well formed and agree with each other.
    pub open spec fn shard_wf(self, i: int) -> bool {
        &&& self.log_at(i).wf()
        &&& self.isr_at(i).wf()
        &&& self.isr_at(i).namespace == self.log_at(i).namespace
        &&& self.isr_at(i).shard == self.log_at(i).shard
        &&& self.isr_at(i).active_end_offset == self.log_at(i).head()
    }

    /// Distinct shard entries carry distinct keys.
    pub open spec fn shard_distinct(self, i: int, j: int) -> bool {
        i != j ==> !(self.log_at(i).namespace == self.log_at(j).namespace && self.log_at(i).shard
            == self.log_at(j).shard)
    }

    /// Distinct node entries carry distinct node ids.
    pub open spec fn node_distinct(self, i: int, j: int) -> bool {
        i != j ==> self.node_at(i).node_id != self.node_at(j).node_id
    }

    /// Cache entry `i` mirrors the persisted shard log.
    pub open spec fn cache_log_ok(self, i: int) -> bool {
        ShardLog::log_eq(self.cache.shard_logs@[i], self.store.shard_logs@[i])
    }

    /// Cache entry `i` mirrors the persisted replica set.
    pub open spec fn cache_isr_ok(self, i: int) -> bool {
        IsrState::isr_eq(self.cache.isrs@[i], self.store.isrs@[i])
    }

    /// Cache entry `i` mirrors the persisted node record.
    pub open spec fn cache_node_ok(self, i: int) -> bool {
        NodeRecord::node_eq(self.cache.nodes@[i], self.store.nodes@[i])
    }

    /// Well-formedness of the persisted state.
    pub open spec fn store_wf(self) -> bool {
        &&& self.store.isrs@.len() == self.store.shard_logs@.len()
        &&& forall|i: int| 0 <= i < self.shard_count() ==> #[trigger] self.shard_wf(i)
        &&& forall|i: int, j: int|
            0 <= i < self.shard_count() && 0 <= j < self.shard_count()
                ==> #[trigger] self.shard_distinct(i, j)
        &&& forall|i: int, j: int|
            0 <= i < self.node_count() && 0 <= j < self.node_count()
                ==> #[trigger] self.node_distinct(i, j)
    }

    /// Once loaded, the cache mirrors the store entry for entry.
    pub open spec fn cache_ok(self) -> bool {
        self.loaded ==> {
            &&& self.cache.shard_logs@.len() == self.store.shard_logs@.len()
            &&& self.cache.isrs@.len() == self.store.isrs@.len()
            &&& self.cache.nodes@.len() == self.store.nodes@.len()
            &&& forall|i: int| 0 <= i < self.shard_count() ==> #[trigger] self.cache_log_ok(i)
            &&& forall|i: int| 0 <= i < self.shard_count() ==> #[trigger] self.cache_isr_ok(i)
            &&& forall|i: int| 0 <= i < self.node_count() ==> #[trigger] self.cache_node_ok(i)
        }
    }

    /// Well-formedness of the whole engine.
    pub open spec fn wf(self) -> bool {
        self.store_wf() && self.cache_ok()
    }

    /// Two engines hold the same values.
    pub open spec fn engine_eq(a: JournalEngine, b: JournalEngine) -> bool {
        &&& a.config == b.config
        &&& a.loaded == b.loaded
        &&& a.index_threads_running == b.index_threads_running
        &&& a.store.shard_logs@.len() == b.store.shard_logs@.len()
        &&& forall|i: int|
            0 <= i < b.store.shard_logs@.len() ==> ShardLog::log_eq(
                #[trigger] a.store.shard_logs@[i],
                b.store.shard_logs@[i],
            )
        &&& a.store.isrs@.len() == b.store.isrs@.len()
        &&& forall|i: int|
            0 <= i < b.store.isrs@.len() ==> IsrState::isr_eq(
                #[trigger] a.store.isrs@[i],
                b.store.isrs@[i],
            )
        &&& a.store.nodes@.len() == b.store.nodes@.len()
        &&& forall|i: int|
            0 <= i < b.store.nodes@.len() ==> NodeRecord::node_eq(
                #[trigger] a.store.nodes@[i],
                b.store.nodes@[i],
            )
        &&& a.cache.shard_logs@ == b.cache.shard_logs@
        &&& a.cache.isrs@ == b.cache.isrs@
        &&& a.cache.nodes@ == b.cache.nodes@
    }

    /// Everything but shard entry `idx` is unchanged.
    pub open spec fn shards_frame(pre: JournalEngine, post: JournalEngine, idx: int) -> bool {
        &&& post.config == pre.config
        &&& post.loaded == pre.loaded
        &&& post.index_threads_running == pre.index_threads_running
        &&& post.shard_count() == pre.shard_count()
        &&& post.store.isrs@.len() == pre.store.isrs@.len()
        &&& forall|j: int|
            0 <= j < pre.shard_count() && j != idx ==> ShardLog::log_eq(
                #[trigger] post.store.shard_logs@[j],
                pre.store.shard_logs@[j],
            )
        &&& forall|j: int|
            0 <= j < pre.store.isrs@.len() && j != idx ==> IsrState::isr_eq(
                #[trigger] post.store.isrs@[j],
                pre.store.isrs@[j],
            )
        &&& post.store.nodes@ == pre.store.nodes@
        &&& post.cache.nodes@ == pre.cache.nodes@
    }

    /// Everything but the node records is unchanged.
    pub open spec fn nodes_frame(pre: JournalEngine, post: JournalEngine) -> bool {
        &&& post.config == pre.config
        &&& post.loaded == pre.loaded
        &&& post.index_threads_running == pre.index_threads_running
        &&& post.store.shard_logs@ == pre.store.shard_logs@
        &&& post.store.isrs@ == pre.store.isrs@
        &&& post.cache.shard_logs@ == pre.cache.shard_logs@
        &&& post.cache.isrs@ == pre.cache.isrs@
    }

    /// The store holds a shard with this key.
    pub open spec fn has_shard(self, namespace: u64, shard: u64) -> bool {
        exists|i: int|
            0 <= i < self.shard_count() && (#[trigger] self.log_at(i)).namespace == namespace
                && self.log_at(i).shard == shard
    }

    /// A fresh engine: empty store, empty cache, not yet loaded.
    pub fn new(config: EngineConfig) -> (r: JournalEngine)
        ensures
            r.wf(),
            r.config == config,
            !r.loaded,
            r.index_threads_running,
            r.shard_count() == 0,
            r.node_count() == 0,
    {
        JournalEngine {
            config,
            store: MetadataStore { shard_logs: Vec::new(), isrs: Vec::new(), nodes: Vec::new() },
            cache: CacheSnapshot { shard_logs: Vec::new(), isrs: Vec::new(), nodes: Vec::new() },
            loaded: false,
            index_threads_running: true,
        }
    }

    /// Resets the cache at startup, before any population.
    pub fn init_cluster(&mut self)
        requires
            old(self).store_wf(),
        ensures
            final(self).wf(),
            !final(self).loaded,
            final(self).config == old(self).config,
            final(self).index_threads_running == old(self).index_threads_running,
            final(self).store.shard_logs@ == old(self).store.shard_logs@,
            final(self).store.isrs@ == old(self).store.isrs@,
            final(self).store.nodes@ == old(self).store.nodes@,
            final(self).cache.shard_logs@.len() == 0,
            final(self).cache.isrs@.len() == 0,
            final(self).cache.nodes@.len() == 0,
    {
        self.cache = CacheSnapshot { shard_logs: Vec::new(), isrs: Vec::new(), nodes: Vec::new() };
        self.loaded = false;
        proof {
            let pre = *old(self);
            let post = *self;
            assert forall|i: int| 0 <= i < post.shard_count() implies #[trigger] post.shard_wf(
                i,
            ) by {
                assert(pre.shard_wf(i));
            }
            assert forall|i: int, j: int|
                0 <= i < post.shard_count() && 0 <= j
                    < post.shard_count() implies #[trigger] post.shard_distinct(i, j) by {
                assert(pre.shard_distinct(i, j));
            }
            assert forall|i: int, j: int|
                0 <= i < post.node_count() && 0 <= j
                    < post.node_count() implies #[trigger] post.node_distinct(i, j) by {
                assert(pre.node_distinct(i, j));
            }
        }
    }

    /// Populates the cache from the store; afterwards the engine may
    /// serve reads and writes.
    pub fn load_from_store(&mut self)
        requires
            old(self).store_wf(),
        ensures
            final(self).wf(),
            final(self).loaded,
            final(self).config == old(self).config,
            final(self).index_threads_running == old(self).index_threads_running,
            final(self).store.shard_logs@ == old(self).store.shard_logs@,
            final(self).store.isrs@ == old(self).store.isrs@,
            final(self).store.nodes@ == old(self).store.nodes@,
    {
        let mut logs: Vec<ShardLog> = Vec::new();
        let mut i: usize = 0;
        let n_shards = self.store.shard_logs.len();
        while i < n_shards
            invariant
                i <= n_shards,
                n_shards == self.store.shard_logs@.len(),
                *self == *old(self),
                logs@.len() == i,
                forall|j: int|
                    0 <= j < i ==> ShardLog::log_eq(
                        #[trigger] logs@[j],
                        self.store.shard_logs@[j],
                    ),
            decreases n_shards - i,
        {
            let copy = self.store.shard_logs[i].duplicate();
            logs.push(copy);
            i += 1;
        }
        let mut isrs: Vec<IsrState> = Vec::new();
        let mut k: usize = 0;
        let n_isrs = self.store.isrs.len();
        while k < n_isrs
            invariant
                k <= n_isrs,
                n_isrs == self.store.isrs@.len(),
                *self == *old(self),
                isrs@.len() == k,
                forall|j: int|
                    0 <= j < k ==> IsrState::isr_eq(#[trigger] isrs@[j], self.store.isrs@[j]),
            decreases n_isrs - k,
        {
            let copy = self.store.isrs[k].duplicate();
            isrs.push(copy);
            k += 1;
        }
        let mut nodes: Vec<NodeRecord> = Vec::new();
        let mut m: usize = 0;
        let n_nodes = self.store.nodes.len();
        while m < n_nodes
            invariant
                m <= n_nodes,
                n_nodes == self.store.nodes@.len(),
                *self == *old(self),
                nodes@.len() == m,
                forall|j: int|
                    0 <= j < m ==> NodeRecord::node_eq(#[trigger] nodes@[j], self.store.nodes@[j]),
            decreases n_nodes - m,
        {
            let copy = self.store.nodes[m].duplicate();
            nodes.push(copy);
            m += 1;
        }
        self.cache = CacheSnapshot { shard_logs: logs, isrs, nodes };
        self.loaded = true;
        proof {
            let pre = *old(self);
            let post = *self;
            assert forall|i2: int| 0 <= i2 < post.shard_count() implies #[trigger] post.shard_wf(
                i2,
            ) by {
                assert(pre.shard_wf(i2));
            }
            assert forall|i2: int, j2: int|
                0 <= i2 < post.shard_count() && 0 <= j2
                    < post.shard_count() implies #[trigger] post.shard_distinct(i2, j2) by {
                assert(pre.shard_distinct(i2, j2));
            }
            assert forall|i2: int, j2: int|
                0 <= i2 < post.node_count() && 0 <= j2
                    < post.node_count() implies #[trigger] post.node_distinct(i2, j2) by {
                assert(pre.node_distinct(i2, j2));
            }
            assert forall|i2: int|
                0 <= i2 < post.shard_count() implies #[trigger] post.cache_log_ok(i2) by {}
            assert forall|i2: int|
                0 <= i2 < post.shard_count() implies #[trigger] post.cache_isr_ok(i2) by {}
            assert forall|i2: int|
                0 <= i2 < post.node_count() implies #[trigger] post.cache_node_ok(i2) by {}
        }
    }

    /// Splicing well-formed shard records into slot `idx` of both the
    /// store and the cache preserves engine well-formedness.
    pub proof fn lemma_put_shard(
        pre: JournalEngine,
        post: JournalEngine,
        idx: int,
        log: ShardLog,
        isr: IsrState,
    )
        requires
            pre.wf(),
            pre.loaded,
            0 <= idx < pre.shard_count(),
            log.wf(),
            isr.wf(),
            log.namespace == pre.log_at(idx).namespace,
            log.shard == pre.log_at(idx).shard,
            isr.namespace == log.namespace,
            isr.shard == log.shard,
            isr.active_end_offset == log.head(),
            post.config == pre.config,
            post.loaded,
            post.index_threads_running == pre.index_threads_running,
            post.store.shard_logs@ == pre.store.shard_logs@.update(idx, log),
            post.store.isrs@ == pre.store.isrs@.update(idx, isr),
            post.store.nodes@ == pre.store.nodes@,
            post.cache.nodes@ == pre.cache.nodes@,
            post.cache.shard_logs@.len() == pre.cache.shard_logs@.len(),
            post.cache.isrs@.len() == pre.cache.isrs@.len(),
            ShardLog::log_eq(post.cache.shard_logs@[idx], log),
            IsrState::isr_eq(post.cache.isrs@[idx], isr),
            forall|j: int|
                0 <= j < pre.cache.shard_logs@.len() && j != idx
                    ==> #[trigger] post.cache.shard_logs@[j] == pre.cache.shard_logs@[j],
            forall|j: int|
                0 <= j < pre.cache.isrs@.len() && j != idx ==> #[trigger] post.cache.isrs@[j]
                    == pre.cache.isrs@[j],
        ensures
            post.wf(),
            post.loaded,
            JournalEngine::shards_frame(pre, post, idx),
    {
        assert forall|i: int| 0 <= i < post.shard_count() implies #[trigger] post.shard_wf(i) by {
            assert(pre.shard_wf(i));
        }
        assert forall|i: int, j: int|
            0 <= i < post.shard_count() && 0 <= j
                < post.shard_count() implies #[trigger] post.shard_distinct(i, j) by {
            assert(pre.shard_distinct(i, j));
        }
        assert forall|i: int, j: int|
            0 <= i < post.node_count() && 0 <= j
                < post.node_count() implies #[trigger] post.node_distinct(i, j) by {
            assert(pre.node_distinct(i, j));
        }
        assert forall|i: int| 0 <= i < post.shard_count() implies #[trigger] post.cache_log_ok(
            i,
        ) by {
            if i != idx {
                assert(pre.cache_log_ok(i));
            }
        }
        assert forall|i: int| 0 <= i < post.shard_count() implies #[trigger] post.cache_isr_ok(
            i,
        ) by {
            if i != idx {
                assert(pre.cache_isr_ok(i));
            }
        }
        assert forall|i: int| 0 <= i < post.node_count() implies #[trigger] post.cache_node_ok(
            i,
        ) by {
            assert(pre.cache_node_ok(i));
        }
    }

    /// Replacing the node records of store and cache by a mirrored,
    /// id-distinct set preserves engine well-formedness.
    pub proof fn lemma_put_nodes(pre: JournalEngine, post: JournalEngine)
        requires
            pre.wf(),
            post.loaded == pre.loaded,
            post.store.shard_logs@ == pre.store.shard_logs@,
            post.store.isrs@ == pre.store.isrs@,
            post.cache.shard_logs@ == pre.cache.shard_logs@,
            post.cache.isrs@ == pre.cache.isrs@,
            post.loaded ==> post.cache.nodes@.len() == post.store.nodes@.len(),
            forall|i: int, j: int|
                0 <= i < post.node_count() && 0 <= j < post.node_count()
                    ==> #[trigger] post.node_distinct(i, j),
            post.loaded ==> forall|i: int|
                0 <= i < post.node_count() ==> #[trigger] post.cache_node_ok(i),
        ensures
            post.wf(),
    {
        assert forall|i: int| 0 <= i < post.shard_count() implies #[trigger] post.shard_wf(i) by {
            assert(pre.shard_wf(i));
        }
        assert forall|i: int, j: int|
            0 <= i < post.shard_count() && 0 <= j
                < post.shard_count() implies #[trigger] post.shard_distinct(i, j) by {
            assert(pre.shard_distinct(i, j));
        }
        if post.loaded {
            assert forall|i: int| 0 <= i < post.shard_count() implies #[trigger] post.cache_log_ok(
                i,
            ) by {
                assert(pre.cache_log_ok(i));
            }
            assert forall|i: int| 0 <= i < post.shard_count() implies #[trigger] post.cache_isr_ok(
                i,
            ) by {
                assert(pre.cache_isr_ok(i));
            }
        }
    }

    /// Index of the shard with this key in the aligned shard vectors.
    fn find_shard(&self, namespace: u64, shard: u64) -> (r: Option<usize>)
        ensures
            r matches Some(i) ==> (i as int) < self.shard_count() && self.log_at(
                i as int,
            ).namespace == namespace && self.log_at(i as int).shard == shard,
            r is None ==> forall|i: int|
                0 <= i < self.shard_count() ==> !((#[trigger] self.log_at(i)).namespace
                    == namespace && self.log_at(i).shard == shard),
    {
        let n = self.store.shard_logs.len();
        let mut i: usize = 0;
        while i < n
            invariant
                i <= n,
                n == self.store.shard_logs@.len(),
                forall|j: int|
                    0 <= j < i ==> !((#[trigger] self.log_at(j)).namespace == namespace
                        && self.log_at(j).shard == shard),
            decreases n - i,
        {
            let hit = {
                let lref = &self.store.shard_logs[i];
                lref.namespace == namespace && lref.shard == shard
            };
            if hit {
                return Some(i);
            }
            i += 1;
        }
        None
    }

    /// Index of the node record with this id.
    fn find_node(&self, node_id: u64) -> (r: Option<usize>)
        ensures
            r matches Some(i) ==> (i as int) < self.node_count() && self.node_at(
                i as int,
            ).node_id == node_id,
            r is None ==> forall|i: int|
                0 <= i < self.node_count() ==> (#[trigger] self.node_at(i)).node_id != node_id,
    {
        let n = self.store.nodes.len();
        let mut i: usize = 0;
        while i < n
            invariant
                i <= n,
                n == self.store.nodes@.len(),
                forall|j: int| 0 <= j < i ==> (#[trigger] self.node_at(j)).node_id != node_id,
            decreases n - i,
        {
            let hit = {
                let nref = &self.store.nodes[i];
                nref.node_id == node_id
            };
            if hit {
                return Some(i);
            }
            i += 1;
        }
        None
    }

    /// Provisions a shard: a fresh, empty segment log and a replica set
    /// holding only the primary.  Fails with `ShardBusy` if the shard
    /// already exists; the engine is then unchanged.
    pub fn create_shard(&mut self, namespace: u64, shard: u64, primary: u64) -> (res: Result<
        (),
        JournalError,
    >)
        requires
            old(self).wf(),
            old(self).loaded,
        ensures
            final(self).wf(),
            final(self).loaded,
            old(self).has_shard(namespace, shard) ==> res == Err::<(), JournalError>(
                JournalError::ShardBusy,
            ) && JournalEngine::engine_eq(*final(self), *old(self)),
            !old(self).has_shard(namespace, shard) ==> {
                &&& res == Ok::<(), JournalError>(())
                &&& final(self).shard_count() == old(self).shard_count() + 1
                &&& final(self).config == old(self).config
                &&& final(self).index_threads_running == old(self).index_threads_running
                &&& final(self).store.nodes@ == old(self).store.nodes@
                &&& forall|j: int|
                    0 <= j < old(self).shard_count() ==> ShardLog::log_eq(
                        #[trigger] final(self).log_at(j),
                        old(self).log_at(j),
                    ) && IsrState::isr_eq(final(self).isr_at(j), old(self).isr_at(j))
                &&& final(self).log_at(old(self).shard_count()).namespace == namespace
                &&& final(self).log_at(old(self).shard_count()).shard == shard
                &&& final(self).log_at(old(self).shard_count()).seg_count() == 0
                &&& final(self).log_at(old(self).shard_count()).next_segment_id == 0
                &&& final(self).log_at(old(self).shard_count()).next_start_offset == 0
                &&& final(self).isr_at(old(self).shard_count()).primary == primary
                &&& final(self).isr_at(old(self).shard_count()).active_end_offset == 0
                &&& final(self).isr_at(old(self).shard_count()).replicas@ =~= seq![
                    ReplicaProgress { node_id: primary, acked_offset: 0, in_sync: true },
                ]
            },
    {
        if let Some(_i) = self.find_shard(namespace, shard) {
            return Err(JournalError::ShardBusy);
        }
        let log = ShardLog::new(namespace, shard);
        let isr = IsrState::new(namespace, shard, primary);
        let log_copy = log.duplicate();
        let isr_copy = isr.duplicate();
        let ghost glog = log;
        let ghost gisr = isr;
        self.store.shard_logs.push(log);
        self.store.isrs.push(isr);
        self.cache.shard_logs.push(log_copy);
        self.cache.isrs.push(isr_copy);
        proof {
            let pre = *old(self);
            let post = *self;
            let newi = pre.shard_count();
            assert forall|i: int| 0 <= i < post.shard_count() implies #[trigger] post.shard_wf(
                i,
            ) by {
                if i < newi {
                    assert(pre.shard_wf(i));
                    assert(post.log_at(i) == pre.log_at(i));
                    assert(post.isr_at(i) == pre.isr_at(i));
                }
            }
            assert forall|i: int, j: int|
                0 <= i < post.shard_count() && 0 <= j
                    < post.shard_count() implies #[trigger] post.shard_distinct(i, j) by {
                if i < newi && j < newi {
                    assert(pre.shard_distinct(i, j));
                } else if i < newi {
                    assert(!(pre.log_at(i).namespace == namespace && pre.log_at(i).shard
                        == shard));
                } else if j < newi {
                    assert(!(pre.log_at(j).namespace == namespace && pre.log_at(j).shard
                        == shard));
                }
            }
            assert forall|i: int, j: int|
                0 <= i < post.node_count() && 0 <= j
                    < post.node_count() implies #[trigger] post.node_distinct(i, j) by {
                assert(pre.node_distinct(i, j));
            }
            assert forall|i: int| 0 <= i < post.shard_count() implies #[trigger] post.cache_log_ok(
                i,
            ) by {
                if i < newi {
                    assert(pre.cache_log_ok(i));
                }
            }
            assert forall|i: int| 0 <= i < post.shard_count() implies #[trigger] post.cache_isr_ok(
                i,
            ) by {
                if i < newi {
                    assert(pre.cache_isr_ok(i));
                }
            }
            assert forall|i: int| 0 <= i < post.node_count() implies #[trigger] post.cache_node_ok(
                i,
            ) by {
                assert(pre.cache_node_ok(i));
            }
        }
        Ok(())
    }

    /// Allocates the next segment id for the shard and opens it active.
    ///
    /// Fails with `ShardBusy` while the shard still has an active
    /// segment, with `InconsistentState` on an unknown shard, and with
    /// `CapacityExceeded` once the shard's segment ids are exhausted.
    /// The store is written first and the cache entry refreshed in the
    /// same call.
    pub fn create_segment(&mut self, namespace: u64, shard: u64, create_time: u64) -> (res: Result<
        u64,
        JournalError,
    >)
        requires
            old(self).wf(),
            old(self).loaded,
        ensures
            final(self).wf(),
            final(self).loaded,
            !old(self).has_shard(namespace, shard) ==> res == Err::<u64, JournalError>(
                JournalError::InconsistentState,
            ) && JournalEngine::engine_eq(*final(self), *old(self)),
            forall|i: int|
                0 <= i < old(self).shard_count() && (#[trigger] old(self).log_at(i)).namespace
                    == namespace && old(self).log_at(i).shard == shard ==> {
                    &&& old(self).log_at(i).next_segment_id == u64::MAX ==> res == Err::<
                        u64,
                        JournalError,
                    >(JournalError::CapacityExceeded) && JournalEngine::engine_eq(
                        *final(self),
                        *old(self),
                    )
                    &&& old(self).log_at(i).next_segment_id < u64::MAX ==> {
                        &&& ShardLog::create_post(
                            old(self).log_at(i),
                            final(self).log_at(i),
                            create_time,
                            res,
                        )
                        &&& IsrState::isr_eq(final(self).isr_at(i), old(self).isr_at(i))
                        &&& JournalEngine::shards_frame(*old(self), *final(self), i)
                    }
                },
    {
        let idx = match self.find_shard(namespace, shard) {
            Some(i) => i,
            None => {
                return Err(JournalError::InconsistentState);
            },
        };
        proof {
            assert(old(self).shard_wf(idx as int));
            assert forall|i: int|
                0 <= i < old(self).shard_count() && (#[trigger] old(self).log_at(i)).namespace
                    == namespace && old(self).log_at(i).shard == shard implies i == idx as int by {
                assert(old(self).shard_distinct(i, idx as int));
            }
        }
        let id_exhausted = {
            let lref = &self.store.shard_logs[idx];
            lref.next_segment_id == u64::MAX
        };
        if id_exhausted {
            return Err(JournalError::CapacityExceeded);
        }
        let mut log = self.store.shard_logs.remove(idx);
        let mut isr = self.store.isrs.remove(idx);
        let res = log.create_segment(create_time);
        let ghost glog = log;
        let ghost gisr = isr;
        let log_copy = log.duplicate();
        let isr_copy = isr.duplicate();
        self.store.shard_logs.insert(idx, log);
        self.store.isrs.insert(idx, isr);
        self.cache.shard_logs.remove(idx);
        self.cache.shard_logs.insert(idx, log_copy);
        self.cache.isrs.remove(idx);
        self.cache.isrs.insert(idx, isr_copy);
        proof {
            let pre = *old(self);
            let post = *self;
            assert(post.store.shard_logs@ =~= pre.store.shard_logs@.update(idx as int, glog));
            assert(post.store.isrs@ =~= pre.store.isrs@.update(idx as int, gisr));
            assert forall|j: int|
                0 <= j < pre.cache.shard_logs@.len() && j
                    != idx as int implies #[trigger] post.cache.shard_logs@[j]
                == pre.cache.shard_logs@[j] by {}
            assert forall|j: int|
                0 <= j < pre.cache.isrs@.len() && j != idx as int implies #[trigger] post.cache.isrs@[j]
                == pre.cache.isrs@[j] by {}
            JournalEngine::lemma_put_shard(pre, post, idx as int, glog, gisr);
        }
        res
    }

    /// Seals the shard's active segment at `end_offset` and moves the
    /// replica tracker to the fixed end.
    ///
    /// Fails with `NotActive` unless `segment_id` names the current
    /// active segment (in particular on an unknown shard); it never
    /// silently succeeds on any other segment.  Fails with
    /// `NonMonotonicOffset` if `end_offset` precedes the segment's
    /// start.  On failure nothing changes.
    pub fn seal_segment(
        &mut self,
        namespace: u64,
        shard: u64,
        segment_id: u64,
        end_offset: u64,
    ) -> (res: Result<(), JournalError>)
        requires
            old(self).wf(),
            old(self).loaded,
        ensures
            final(self).wf(),
            final(self).loaded,
            !old(self).has_shard(namespace, shard) ==> res == Err::<(), JournalError>(
                JournalError::NotActive,
            ) && JournalEngine::engine_eq(*final(self), *old(self)),
            forall|i: int|
                0 <= i < old(self).shard_count() && (#[trigger] old(self).log_at(i)).namespace
                    == namespace && old(self).log_at(i).shard == shard ==> {
                    &&& ShardLog::seal_post(
                        old(self).log_at(i),
                        final(self).log_at(i),
                        segment_id,
                        end_offset,
                        res,
                    )
                    &&& res is Ok ==> IsrState::advance_post(
                        old(self).isr_at(i),
                        final(self).isr_at(i),
                        end_offset,
                    )
                    &&& res is Err ==> IsrState::isr_eq(final(self).isr_at(i), old(self).isr_at(i))
                    &&& JournalEngine::shards_frame(*old(self), *final(self), i)
                },
    {
        let idx = match self.find_shard(namespace, shard) {
            Some(i) => i,
            None => {
                return Err(JournalError::NotActive);
            },
        };
        proof {
            assert(old(self).shard_wf(idx as int));
            assert forall|i: int|
                0 <= i < old(self).shard_count() && (#[trigger] old(self).log_at(i)).namespace
                    == namespace && old(self).log_at(i).shard == shard implies i == idx as int by {
                assert(old(self).shard_distinct(i, idx as int));
            }
        }
        let mut log = self.store.shard_logs.remove(idx);
        let mut isr = self.store.isrs.remove(idx);
        let res = log.seal_segment(segment_id, end_offset);
        if res.is_ok() {
            isr.set_active_end(end_offset);
        }
        let ghost glog = log;
        let ghost gisr = isr;
        let log_copy = log.duplicate();
        let isr_copy = isr.duplicate();
        self.store.shard_logs.insert(idx, log);
        self.store.isrs.insert(idx, isr);
        self.cache.shard_logs.remove(idx);
        self.cache.shard_logs.insert(idx, log_copy);
        self.cache.isrs.remove(idx);
        self.cache.isrs.insert(idx, isr_copy);
        proof {
            let pre = *old(self);
            let post = *self;
            assert(post.store.shard_logs@ =~= pre.store.shard_logs@.update(idx as int, glog));
            assert(post.store.isrs@ =~= pre.store.isrs@.update(idx as int, gisr));
            assert forall|j: int|
                0 <= j < pre.cache.shard_logs@.len() && j
                    != idx as int implies #[trigger] post.cache.shard_logs@[j]
                == pre.cache.shard_logs@[j] by {}
            assert forall|j: int|
                0 <= j < pre.cache.isrs@.len() && j != idx as int implies #[trigger] post.cache.isrs@[j]
                == pre.cache.isrs@[j] by {}
            JournalEngine::lemma_put_shard(pre, post, idx as int, glog, gisr);
        }
        res
    }

    /// Appends `len` bytes of accounting to the shard's active segment
    /// and returns the written offset range; the replica tracker follows
    /// the new end.
    ///
    /// Fails with `NotActive` when the shard is unknown or has no active
    /// segment, and with `CapacityExceeded` when the append would carry
    /// the segment past the configured rotation size; it never truncates
    /// or wraps, and on failure nothing changes.
    pub fn append(&mut self, namespace: u64, shard: u64, len: u64) -> (res: Result<
        (u64, u64),
        JournalError,
    >)
        requires
            old(self).wf(),
            old(self).loaded,
        ensures
            final(self).wf(),
            final(self).loaded,
            !old(self).has_shard(namespace, shard) ==> res == Err::<(u64, u64), JournalError>(
                JournalError::NotActive,
            ) && JournalEngine::engine_eq(*final(self), *old(self)),
            forall|i: int|
                0 <= i < old(self).shard_count() && (#[trigger] old(self).log_at(i)).namespace
                    == namespace && old(self).log_at(i).shard == shard ==> {
                    &&& ShardLog::append_post(
                        old(self).log_at(i),
                        final(self).log_at(i),
                        len,
                        old(self).config.rotation_max_size,
                        res,
                    )
                    &&& res matches Ok(range) ==> IsrState::advance_post(
                        old(self).isr_at(i),
                        final(self).isr_at(i),
                        range.1,
                    )
                    &&& res is Err ==> IsrState::isr_eq(final(self).isr_at(i), old(self).isr_at(i))
                    &&& JournalEngine::shards_frame(*old(self), *final(self), i)
                },
    {
        let idx = match self.find_shard(namespace, shard) {
            Some(i) => i,
            None => {
                return Err(JournalError::NotActive);
            },
        };
        proof {
            assert(old(self).shard_wf(idx as int));
            assert forall|i: int|
                0 <= i < old(self).shard_count() && (#[trigger] old(self).log_at(i)).namespace
                    == namespace && old(self).log_at(i).shard == shard implies i == idx as int by {
                assert(old(self).shard_distinct(i, idx as int));
            }
        }
        let mut log = self.store.shard_logs.remove(idx);
        let mut isr = self.store.isrs.remove(idx);
        let res = log.append(len, self.config.rotation_max_size);
        if let Ok((_start, end)) = res {
            isr.set_active_end(end);
        }
        let ghost glog = log;
        let ghost gisr = isr;
        let log_copy = log.duplicate();
        let isr_copy = isr.duplicate();
        self.store.shard_logs.insert(idx, log);
        self.store.isrs.insert(idx, isr);
        self.cache.shard_logs.remove(idx);
        self.cache.shard_logs.insert(idx, log_copy);
        self.cache.isrs.remove(idx);
        self.cache.isrs.insert(idx, isr_copy);
        proof {
            let pre = *old(self);
            let post = *self;
            assert(post.store.shard_logs@ =~= pre.store.shard_logs@.update(idx as int, glog));
            assert(post.store.isrs@ =~= pre.store.isrs@.update(idx as int, gisr));
            assert forall|j: int|
                0 <= j < pre.cache.shard_logs@.len() && j
                    != idx as int implies #[trigger] post.cache.shard_logs@[j]
                == pre.cache.shard_logs@[j] by {}
            assert forall|j: int|
                0 <= j < pre.cache.isrs@.len() && j != idx as int implies #[trigger] post.cache.isrs@[j]
                == pre.cache.isrs@[j] by {}
            JournalEngine::lemma_put_shard(pre, post, idx as int, glog, gisr);
        }
        res
    }

    /// Durably records deletion intent for a sealed segment: the first
    /// phase of the two-phase deletion, written before any file is
    /// removed.  Fails with `InconsistentState` on an unknown shard or
    /// segment and with `ShardBusy` on the active segment.
    pub fn mark_deleting(&mut self, namespace: u64, shard: u64, segment_id: u64) -> (res: Result<
        (),
        JournalError,
    >)
        requires
            old(self).wf(),
            old(self).loaded,
        ensures
            final(self).wf(),
            final(self).loaded,
            !old(self).has_shard(namespace, shard) ==> res == Err::<(), JournalError>(
                JournalError::InconsistentState,
            ) && JournalEngine::engine_eq(*final(self), *old(self)),
            forall|i: int|
                0 <= i < old(self).shard_count() && (#[trigger] old(self).log_at(i)).namespace
                    == namespace && old(self).log_at(i).shard == shard ==> {
                    &&& ShardLog::mark_deleting_post(
                        old(self).log_at(i),
                        final(self).log_at(i),
                        segment_id,
                        res,
                    )
                    &&& IsrState::isr_eq(final(self).isr_at(i), old(self).isr_at(i))
                    &&& JournalEngine::shards_frame(*old(self), *final(self), i)
                },
    {
        let idx = match self.find_shard(namespace, shard) {
            Some(i) => i,
            None => {
                return Err(JournalError::InconsistentState);
            },
        };
        proof {
            assert(old(self).shard_wf(idx as int));
            assert forall|i: int|
                0 <= i < old(self).shard_count() && (#[trigger] old(self).log_at(i)).namespace
                    == namespace && old(self).log_at(i).shard == shard implies i == idx as int by {
                assert(old(self).shard_distinct(i, idx as int));
            }
        }
        let mut log = self.store.shard_logs.remove(idx);
        let mut isr = self.store.isrs.remove(idx);
        let res = log.mark_deleting(segment_id);
        let ghost glog = log;
        let ghost gisr = isr;
        let log_copy = log.duplicate();
        let isr_copy = isr.duplicate();
        self.store.shard_logs.insert(idx, log);
        self.store.isrs.insert(idx, isr);
        self.cache.shard_logs.remove(idx);
        self.cache.shard_logs.insert(idx, log_copy);
        self.cache.isrs.remove(idx);
        self.cache.isrs.insert(idx, isr_copy);
        proof {
            let pre = *old(self);
            let post = *self;
            assert(post.store.shard_logs@ =~= pre.store.shard_logs@.update(idx as int, glog));
            assert(post.store.isrs@ =~= pre.store.isrs@.update(idx as int, gisr));
            assert forall|j: int|
                0 <= j < pre.cache.shard_logs@.len() && j
                    != idx as int implies #[trigger] post.cache.shard_logs@[j]
                == pre.cache.shard_logs@[j] by {}
            assert forall|j: int|
                0 <= j < pre.cache.isrs@.len() && j != idx as int implies #[trigger] post.cache.isrs@[j]
                == pre.cache.isrs@[j] by {}
            JournalEngine::lemma_put_shard(pre, post, idx as int, glog, gisr);
        }
        res
    }

    /// Confirms that a deleting segment's file is gone: the second phase
    /// of the two-phase deletion, valid only after `mark_deleting`
    /// succeeded and the physical removal completed.  Any out-of-order
    /// call fails with `InconsistentState` and changes nothing.
    pub fn confirm_deleted(&mut self, namespace: u64, shard: u64, segment_id: u64) -> (res: Result<
        (),
        JournalError,
    >)
        requires
            old(self).wf(),
            old(self).loaded,
        ensures
            final(self).wf(),
            final(self).loaded,
            !old(self).has_shard(namespace, shard) ==> res == Err::<(), JournalError>(
                JournalError::InconsistentState,
            ) && JournalEngine::engine_eq(*final(self), *old(self)),
            forall|i: int|
                0 <= i < old(self).shard_count() && (#[trigger] old(self).log_at(i)).namespace
                    == namespace && old(self).log_at(i).shard == shard ==> {
                    &&& ShardLog::confirm_deleted_post(
                        old(self).log_at(i),
                        final(self).log_at(i),
                        segment_id,
                        res,
                    )
                    &&& IsrState::isr_eq(final(self).isr_at(i), old(self).isr_at(i))
                    &&& JournalEngine::shards_frame(*old(self), *final(self), i)
                },
    {
        let idx = match self.find_shard(namespace, shard) {
            Some(i) => i,
            None => {
                return Err(JournalError::InconsistentState);
            },
        };
        proof {
            assert(old(self).shard_wf(idx as int));
            assert forall|i: int|
                0 <= i < old(self).shard_count() && (#[trigger] old(self).log_at(i)).namespace
                    == namespace && old(self).log_at(i).shard == shard implies i == idx as int by {
                assert(old(self).shard_distinct(i, idx as int));
            }
        }
        let mut log = self.store.shard_logs.remove(idx);
        let mut isr = self.store.isrs.remove(idx);
        let res = log.confirm_deleted(segment_id);
        let ghost glog = log;
        let ghost gisr = isr;
        let log_copy = log.duplicate();
        let isr_copy = isr.duplicate();
        self.store.shard_logs.insert(idx, log);
        self.store.isrs.insert(idx, isr);
        self.cache.shard_logs.remove(idx);
        self.cache.shard_logs.insert(idx, log_copy);
        self.cache.isrs.remove(idx);
        self.cache.isrs.insert(idx, isr_copy);
        proof {
            let pre = *old(self);
            let post = *self;
            assert(post.store.shard_logs@ =~= pre.store.shard_logs@.update(idx as int, glog));
            assert(post.store.isrs@ =~= pre.store.isrs@.update(idx as int, gisr));
            assert forall|j: int|
                0 <= j < pre.cache.shard_logs@.len() && j
                    != idx as int implies #[trigger] post.cache.shard_logs@[j]
                == pre.cache.shard_logs@[j] by {}
            assert forall|j: int|
                0 <= j < pre.cache.isrs@.len() && j != idx as int implies #[trigger] post.cache.isrs@[j]
                == pre.cache.isrs@[j] by {}
            JournalEngine::lemma_put_shard(pre, post, idx as int, glog, gisr);
        }
        res
    }

    /// Records a replica's acknowledged offset for a shard, promoting
    /// the replica into the in-sync set once it reaches the shard's
    /// active end offset.  The recorded offset only ever grows.  Fails
    /// with `InconsistentState` on an unknown shard.
    pub fn on_replica_ack(
        &mut self,
        namespace: u64,
        shard: u64,
        node_id: u64,
        acked_offset: u64,
    ) -> (res: Result<(), JournalError>)
        requires
            old(self).wf(),
            old(self).loaded,
        ensures
            final(self).wf(),
            final(self).loaded,
            !old(self).has_shard(namespace, shard) ==> res == Err::<(), JournalError>(
                JournalError::InconsistentState,
            ) && JournalEngine::engine_eq(*final(self), *old(self)),
            forall|i: int|
                0 <= i < old(self).shard_count() && (#[trigger] old(self).log_at(i)).namespace
                    == namespace && old(self).log_at(i).shard == shard ==> {
                    &&& res == Ok::<(), JournalError>(())
                    &&& IsrState::ack_post(
                        old(self).isr_at(i),
                        final(self).isr_at(i),
                        node_id,
                        acked_offset,
                    )
                    &&& ShardLog::log_eq(final(self).log_at(i), old(self).log_at(i))
                    &&& JournalEngine::shards_frame(*old(self), *final(self), i)
                },
    {
        let idx = match self.find_shard(namespace, shard) {
            Some(i) => i,
            None => {
                return Err(JournalError::InconsistentState);
            },
        };
        proof {
            assert(old(self).shard_wf(idx as int));
            assert forall|i: int|
                0 <= i < old(self).shard_count() && (#[trigger] old(self).log_at(i)).namespace
                    == namespace && old(self).log_at(i).shard == shard implies i == idx as int by {
                assert(old(self).shard_distinct(i, idx as int));
            }
        }
        let mut log = self.store.shard_logs.remove(idx);
        let mut isr = self.store.isrs.remove(idx);
        isr.on_replica_ack(node_id, acked_offset);
        let ghost glog = log;
        let ghost gisr = isr;
        let log_copy = log.duplicate();
        let isr_copy = isr.duplicate();
        self.store.shard_logs.insert(idx, log);
        self.store.isrs.insert(idx, isr);
        self.cache.shard_logs.remove(idx);
        self.cache.shard_logs.insert(idx, log_copy);
        self.cache.isrs.remove(idx);
        self.cache.isrs.insert(idx, isr_copy);
        proof {
            let pre = *old(self);
            let post = *self;
            assert(post.store.shard_logs@ =~= pre.store.shard_logs@.update(idx as int, glog));
            assert(post.store.isrs@ =~= pre.store.isrs@.update(idx as int, gisr));
            assert forall|j: int|
                0 <= j < pre.cache.shard_logs@.len() && j
                    != idx as int implies #[trigger] post.cache.shard_logs@[j]
                == pre.cache.shard_logs@[j] by {}
            assert forall|j: int|
                0 <= j < pre.cache.isrs@.len() && j != idx as int implies #[trigger] post.cache.isrs@[j]
                == pre.cache.isrs@[j] by {}
            JournalEngine::lemma_put_shard(pre, post, idx as int, glog, gisr);
        }
        Ok(())
    }

    /// Demotes a replica whose heartbeat expired or whose acknowledged
    /// offset lags out of the shard's in-sync set; the primary is never
    /// demoted here.  When the in-sync set shrinks below the configured
    /// minimum the shard enters the under-replicated alarm state rather
    /// than blocking writes.  Fails with `InconsistentState` on an
    /// unknown shard.
    pub fn on_heartbeat_timeout(&mut self, namespace: u64, shard: u64, node_id: u64) -> (res:
        Result<(), JournalError>)
        requires
            old(self).wf(),
            old(self).loaded,
        ensures
            final(self).wf(),
            final(self).loaded,
            !old(self).has_shard(namespace, shard) ==> res == Err::<(), JournalError>(
                JournalError::InconsistentState,
            ) && JournalEngine::engine_eq(*final(self), *old(self)),
            forall|i: int|
                0 <= i < old(self).shard_count() && (#[trigger] old(self).log_at(i)).namespace
                    == namespace && old(self).log_at(i).shard == shard ==> {
                    &&& res == Ok::<(), JournalError>(())
                    &&& IsrState::timeout_post(
                        old(self).isr_at(i),
                        final(self).isr_at(i),
                        node_id,
                        old(self).config.isr_min_in_sync,
                    )
                    &&& ShardLog::log_eq(final(self).log_at(i), old(self).log_at(i))
                    &&& JournalEngine::shards_frame(*old(self), *final(self), i)
                },
    {
        let idx = match self.find_shard(namespace, shard) {
            Some(i) => i,
            None => {
                return Err(JournalError::InconsistentState);
            },
        };
        proof {
            assert(old(self).shard_wf(idx as int));
            assert forall|i: int|
                0 <= i < old(self).shard_count() && (#[trigger] old(self).log_at(i)).namespace
                    == namespace && old(self).log_at(i).shard == shard implies i == idx as int by {
                assert(old(self).shard_distinct(i, idx as int));
            }
        }
        let mut log = self.store.shard_logs.remove(idx);
        let mut isr = self.store.isrs.remove(idx);
        isr.on_heartbeat_timeout(node_id, self.config.isr_min_in_sync);
        let ghost glog = log;
        let ghost gisr = isr;
        let log_copy = log.duplicate();
        let isr_copy = isr.duplicate();
        self.store.shard_logs.insert(idx, log);
        self.store.isrs.insert(idx, isr);
        self.cache.shard_logs.remove(idx);
        self.cache.shard_logs.insert(idx, log_copy);
        self.cache.isrs.remove(idx);
        self.cache.isrs.insert(idx, isr_copy);
        proof {
            let pre = *old(self);
            let post = *self;
            assert(post.store.shard_logs@ =~= pre.store.shard_logs@.update(idx as int, glog));
            assert(post.store.isrs@ =~= pre.store.isrs@.update(idx as int, gisr));
            assert forall|j: int|
                0 <= j < pre.cache.shard_logs@.len() && j
                    != idx as int implies #[trigger] post.cache.shard_logs@[j]
                == pre.cache.shard_logs@[j] by {}
            assert forall|j: int|
                0 <= j < pre.cache.isrs@.len() && j != idx as int implies #[trigger] post.cache.isrs@[j]
                == pre.cache.isrs@[j] by {}
            JournalEngine::lemma_put_shard(pre, post, idx as int, glog, gisr);
        }
        Ok(())
    }

    /// Makes `new_primary` the shard's primary replica.
    ///
    /// Fails with `NotInSync` unless the replica is currently in the
    /// in-sync set — a primary is only promoted from caught-up replicas
    /// — and with `InconsistentState` on an unknown shard.  Reassignment
    /// to an in-sync replica always succeeds.
    pub fn reassign_primary(&mut self, namespace: u64, shard: u64, new_primary: u64) -> (res:
        Result<(), JournalError>)
        requires
            old(self).wf(),
            old(self).loaded,
        ensures
            final(self).wf(),
            final(self).loaded,
            !old(self).has_shard(namespace, shard) ==> res == Err::<(), JournalError>(
                JournalError::InconsistentState,
            ) && JournalEngine::engine_eq(*final(self), *old(self)),
            forall|i: int|
                0 <= i < old(self).shard_count() && (#[trigger] old(self).log_at(i)).namespace
                    == namespace && old(self).log_at(i).shard == shard ==> {
                    &&& IsrState::reassign_post(
                        old(self).isr_at(i),
                        final(self).isr_at(i),
                        new_primary,
                        res,
                    )
                    &&& ShardLog::log_eq(final(self).log_at(i), old(self).log_at(i))
                    &&& JournalEngine::shards_frame(*old(self), *final(self), i)
                },
    {
        let idx = match self.find_shard(namespace, shard) {
            Some(i) => i,
            None => {
                return Err(JournalError::InconsistentState);
            },
        };
        proof {
            assert(old(self).shard_wf(idx as int));
            assert forall|i: int|
                0 <= i < old(self).shard_count() && (#[trigger] old(self).log_at(i)).namespace
                    == namespace && old(self).log_at(i).shard == shard implies i == idx as int by {
                assert(old(self).shard_distinct(i, idx as int));
            }
        }
        let mut log = self.store.shard_logs.remove(idx);
        let mut isr = self.store.isrs.remove(idx);
        let res = isr.reassign_primary(new_primary);
        let ghost glog = log;
        let ghost gisr = isr;
        let log_copy = log.duplicate();
        let isr_copy = isr.duplicate();
        self.store.shard_logs.insert(idx, log);
        self.store.isrs.insert(idx, isr);
        self.cache.shard_logs.remove(idx);
        self.cache.shard_logs.insert(idx, log_copy);
        self.cache.isrs.remove(idx);
        self.cache.isrs.insert(idx, isr_copy);
        proof {
            let pre = *old(self);
            let post = *self;
            assert(post.store.shard_logs@ =~= pre.store.shard_logs@.update(idx as int, glog));
            assert(post.store.isrs@ =~= pre.store.isrs@.update(idx as int, gisr));
            assert forall|j: int|
                0 <= j < pre.cache.shard_logs@.len() && j
                    != idx as int implies #[trigger] post.cache.shard_logs@[j]
                == pre.cache.shard_logs@[j] by {}
            assert forall|j: int|
                0 <= j < pre.cache.isrs@.len() && j != idx as int implies #[trigger] post.cache.isrs@[j]
                == pre.cache.isrs@[j] by {}
            JournalEngine::lemma_put_shard(pre, post, idx as int, glog, gisr);
        }
        res
    }

    /// The shard's active segment meets a rotation criterion: it holds
    /// at least the rotation size, or it is non-empty and older than the
    /// age threshold (and a fresh segment id is still available).
    pub open spec fn needs_scroll(
        log: ShardLog,
        rotation_max_size: u64,
        rotation_max_age: u64,
        now: u64,
    ) -> bool {
        &&& log.has_active()
        &&& (log.active().size() >= rotation_max_size || (log.active().create_time
            + rotation_max_age <= now && log.active().size() > 0))
        &&& log.next_segment_id < u64::MAX
    }

    /// Exactly what one scroll pass does to one shard: a shard that met
    /// a rotation criterion has its active segment sealed at its current
    /// end and a new active segment opened at that same offset; every
    /// other shard is untouched.
    pub open spec fn scrolled(
        pre: ShardLog,
        post: ShardLog,
        rotation_max_size: u64,
        rotation_max_age: u64,
        now: u64,
    ) -> bool {
        if JournalEngine::needs_scroll(pre, rotation_max_size, rotation_max_age, now) {
            &&& post.seg_count() == pre.seg_count() + 1
            &&& forall|k: int| 0 <= k < pre.seg_count() - 1 ==> #[trigger] post.seg(k) == pre.seg(k)
            &&& post.seg(pre.seg_count() - 1) == (SegmentMeta {
                status: SegmentStatus::Sealed,
                ..pre.active()
            })
            &&& post.has_active()
            &&& post.active() == (SegmentMeta {
                namespace: pre.namespace,
                shard: pre.shard,
                segment_id: pre.next_segment_id,
                status: SegmentStatus::Active,
                start_offset: pre.active().end_offset,
                end_offset: pre.active().end_offset,
                create_time: now,
            })
            &&& post.next_segment_id == pre.next_segment_id + 1
            &&& post.namespace == pre.namespace
            &&& post.shard == pre.shard
        } else {
            ShardLog::log_eq(post, pre)
        }
    }

    /// One scroll pass: every shard whose active segment meets a
    /// rotation criterion is sealed at its current end offset and then
    /// given a new active segment starting exactly there.
    ///
    /// The seal is persisted before the new segment is created, and a
    /// shard never holds two active segments at any point in between.
    pub fn trigger_segment_scroll(&mut self, now: u64)
        requires
            old(self).wf(),
            old(self).loaded,
        ensures
            final(self).wf(),
            final(self).loaded,
            final(self).config == old(self).config,
            final(self).index_threads_running == old(self).index_threads_running,
            final(self).shard_count() == old(self).shard_count(),
            final(self).store.nodes@ == old(self).store.nodes@,
            final(self).store.isrs@ == old(self).store.isrs@,
            forall|i: int|
                0 <= i < old(self).shard_count() ==> JournalEngine::scrolled(
                    old(self).log_at(i),
                    #[trigger] final(self).store.shard_logs@[i],
                    old(self).config.rotation_max_size,
                    old(self).config.rotation_max_age,
                    now,
                ),
    {
        let n = self.store.shard_logs.len();
        let mut i: usize = 0;
        while i < n
            invariant
                i <= n,
                n == old(self).store.shard_logs@.len(),
                self.wf(),
                self.loaded,
                old(self).wf(),
                old(self).loaded,
                self.config == old(self).config,
                self.index_threads_running == old(self).index_threads_running,
                self.store.shard_logs@.len() == n,
                self.store.isrs@ == old(self).store.isrs@,
                self.store.nodes@ == old(self).store.nodes@,
                self.cache.nodes@ == old(self).cache.nodes@,
                forall|j: int|
                    0 <= j < i ==> JournalEngine::scrolled(
                        old(self).log_at(j),
                        #[trigger] self.store.shard_logs@[j],
                        old(self).config.rotation_max_size,
                        old(self).config.rotation_max_age,
                        now,
                    ),
                forall|j: int|
                    i <= j < n ==> #[trigger] self.store.shard_logs@[j]
                        == old(self).store.shard_logs@[j],
            decreases n - i,
        {
            let ghost pre_iter = *self;
            let mut needs = false;
            let mut seg_id: u64 = 0;
            let mut end_off: u64 = 0;
            proof {
                assert(self.shard_wf(i as int));
            }
            {
                let lref = &self.store.shard_logs[i];
                let n_segs = lref.segments.len();
                if n_segs > 0 && lref.next_segment_id < u64::MAX {
                    let last = lref.segments[n_segs - 1];
                    if last.status == SegmentStatus::Active {
                        proof {
                            assert(pre_iter.log_at(i as int).wf_meta(n_segs - 1 as int));
                        }
                        let size: u64 = last.end_offset - last.start_offset;
                        let by_size = size >= self.config.rotation_max_size;
                        let by_age = (last.create_time as u128) + (
                        self.config.rotation_max_age as u128) <= (now as u128) && size > 0;
                        if by_size || by_age {
                            needs = true;
                            seg_id = last.segment_id;
                            end_off = last.end_offset;
                        }
                    }
                }
            }
            proof {
                assert(needs == JournalEngine::needs_scroll(
                    pre_iter.log_at(i as int),
                    pre_iter.config.rotation_max_size,
                    pre_iter.config.rotation_max_age,
                    now,
                ));
            }
            if needs {
                let mut log = self.store.shard_logs.remove(i);
                let sealed = log.seal_segment(seg_id, end_off);
                proof {
                    assert(sealed is Ok);
                    assert(!log.has_active());
                }
                let created = log.create_segment(now);
                proof {
                    assert(created is Ok);
                }
                let ghost glog = log;
                let log_copy = log.duplicate();
                self.store.shard_logs.insert(i, log);
                self.cache.shard_logs.remove(i);
                self.cache.shard_logs.insert(i, log_copy);
                proof {
                    let post = *self;
                    let gisr = pre_iter.store.isrs@[i as int];
                    assert(post.store.shard_logs@ =~= pre_iter.store.shard_logs@.update(
                        i as int,
                        glog,
                    ));
                    assert(post.store.isrs@ =~= pre_iter.store.isrs@.update(i as int, gisr));
                    assert forall|j: int|
                        0 <= j < pre_iter.cache.shard_logs@.len() && j
                            != i as int implies #[trigger] post.cache.shard_logs@[j]
                        == pre_iter.cache.shard_logs@[j] by {}
                    assert(pre_iter.cache_isr_ok(i as int));
                    JournalEngine::lemma_put_shard(pre_iter, post, i as int, glog, gisr);
                    assert(JournalEngine::scrolled(
                        pre_iter.log_at(i as int),
                        glog,
                        pre_iter.config.rotation_max_size,
                        pre_iter.config.rotation_max_age,
                        now,
                    ));
                    assert forall|j: int|
                        0 <= j < i + 1 implies JournalEngine::scrolled(
                        old(self).log_at(j),
                        #[trigger] post.store.shard_logs@[j],
                        old(self).config.rotation_max_size,
                        old(self).config.rotation_max_age,
                        now,
                    ) by {
                        if j < i as int {
                            assert(post.store.shard_logs@[j] == pre_iter.store.shard_logs@[j]);
                        } else {
                            assert(old(self).log_at(j) == pre_iter.log_at(j));
                        }
                    }
                }
            } else {
                proof {
                    assert(ShardLog::log_eq(
                        self.store.shard_logs@[i as int],
                        old(self).log_at(i as int),
                    ));
                }
            }
            i += 1;
        }
    }

    /// An engine whose observable state is unchanged is still well
    /// formed.
    pub proof fn lemma_same_state_wf(pre: JournalEngine, post: JournalEngine)
        requires
            pre.wf(),
            post.loaded == pre.loaded,
            post.store.shard_logs@ == pre.store.shard_logs@,
            post.store.isrs@ == pre.store.isrs@,
            post.store.nodes@ == pre.store.nodes@,
            post.cache.shard_logs@ == pre.cache.shard_logs@,
            post.cache.isrs@ == pre.cache.isrs@,
            post.cache.nodes@ == pre.cache.nodes@,
        ensures
            post.wf(),
    {
        assert forall|i: int| 0 <= i < post.shard_count() implies #[trigger] post.shard_wf(i) by {
            assert(pre.shard_wf(i));
        }
        assert forall|i: int, j: int|
            0 <= i < post.shard_count() && 0 <= j
                < post.shard_count() implies #[trigger] post.shard_distinct(i, j) by {
            assert(pre.shard_distinct(i, j));
        }
        assert forall|i: int, j: int|
            0 <= i < post.node_count() && 0 <= j
                < post.node_count() implies #[trigger] post.node_distinct(i, j) by {
            assert(pre.node_distinct(i, j));
        }
        if post.loaded {
            assert forall|i: int| 0 <= i < post.shard_count() implies #[trigger] post.cache_log_ok(
                i,
            ) by {
                assert(pre.cache_log_ok(i));
            }
            assert forall|i: int| 0 <= i < post.shard_count() implies #[trigger] post.cache_isr_ok(
                i,
            ) by {
                assert(pre.cache_isr_ok(i));
            }
            assert forall|i: int| 0 <= i < post.node_count() implies #[trigger] post.cache_node_ok(
                i,
            ) by {
                assert(pre.cache_node_ok(i));
            }
        }
    }

    /// For every shard of a well-formed engine, at most one segment is
    /// active at any observed instant — however creates, seals and
    /// scroll passes were interleaved to reach this state.
    pub proof fn lemma_one_active_per_shard(e: JournalEngine, i: int, a: int, b: int)
        requires
            e.wf(),
            0 <= i < e.shard_count(),
            0 <= a < e.log_at(i).seg_count(),
            0 <= b < e.log_at(i).seg_count(),
            e.log_at(i).seg(a).status == SegmentStatus::Active,
            e.log_at(i).seg(b).status == SegmentStatus::Active,
        ensures
            a == b,
    {
        assert(e.shard_wf(i));
        ShardLog::lemma_at_most_one_active(e.log_at(i), a, b);
    }

    /// For every shard of a well-formed engine, adjacent segments share
    /// their boundary offset and carry consecutive ids: the log has no
    /// gaps and no overlaps, which in particular covers every sealed
    /// pair.
    pub proof fn lemma_no_gap_per_shard(e: JournalEngine, i: int, k: int)
        requires
            e.wf(),
            0 <= i < e.shard_count(),
            0 <= k,
            k + 1 < e.log_at(i).seg_count(),
        ensures
            e.log_at(i).seg(k).end_offset == e.log_at(i).seg(k + 1).start_offset,
            e.log_at(i).seg(k).segment_id + 1 == e.log_at(i).seg(k + 1).segment_id,
    {
        assert(e.shard_wf(i));
        ShardLog::lemma_no_gap_no_overlap(e.log_at(i), k);
    }

    /// Cache read-after-write: once the cache is loaded, every cache
    /// entry equals the corresponding persisted record, so a read that
    /// immediately follows any successful mutation observes exactly the
    /// state that mutation persisted — there is no stale-read window
    /// across the call boundary.
    pub proof fn lemma_cache_read_after_write(e: JournalEngine)
        requires
            e.wf(),
            e.loaded,
        ensures
            e.cache.shard_logs@.len() == e.store.shard_logs@.len(),
            e.cache.isrs@.len() == e.store.isrs@.len(),
            e.cache.nodes@.len() == e.store.nodes@.len(),
            forall|i: int|
                0 <= i < e.shard_count() ==> ShardLog::log_eq(
                    #[trigger] e.cache.shard_logs@[i],
                    e.store.shard_logs@[i],
                ),
            forall|i: int|
                0 <= i < e.shard_count() ==> IsrState::isr_eq(
                    #[trigger] e.cache.isrs@[i],
                    e.store.isrs@[i],
                ),
            forall|i: int|
                0 <= i < e.node_count() ==> NodeRecord::node_eq(
                    #[trigger] e.cache.nodes@[i],
                    e.store.nodes@[i],
                ),
    {
        assert forall|i: int| 0 <= i < e.shard_count() implies ShardLog::log_eq(
            #[trigger] e.cache.shard_logs@[i],
            e.store.shard_logs@[i],
        ) by {
            assert(e.cache_log_ok(i));
        }
        assert forall|i: int| 0 <= i < e.shard_count() implies IsrState::isr_eq(
            #[trigger] e.cache.isrs@[i],
            e.store.isrs@[i],
        ) by {
            assert(e.cache_isr_ok(i));
        }
        assert forall|i: int| 0 <= i < e.node_count() implies NodeRecord::node_eq(
            #[trigger] e.cache.nodes@[i],
            e.store.nodes@[i],
        ) by {
            assert(e.cache_node_ok(i));
        }
    }

    /// Point-in-time snapshot of a shard's segment records, read from
    /// the cache; by the mirror invariant it equals the persisted state.
    pub fn get_segment(&self, namespace: u64, shard: u64) -> (res: Option<ShardLog>)
        requires
            self.wf(),
            self.loaded,
        ensures
            res matches Some(log) ==> exists|i: int|
                0 <= i < self.shard_count() && (#[trigger] self.log_at(i)).namespace == namespace
                    && self.log_at(i).shard == shard && ShardLog::log_eq(log, self.log_at(i)),
            res is None ==> !self.has_shard(namespace, shard),
    {
        let n = self.cache.shard_logs.len();
        let mut i: usize = 0;
        while i < n
            invariant
                i <= n,
                n == self.cache.shard_logs@.len(),
                self.wf(),
                self.loaded,
                forall|j: int|
                    0 <= j < i ==> !((#[trigger] self.cache.shard_logs@[j]).namespace == namespace
                        && self.cache.shard_logs@[j].shard == shard),
            decreases n - i,
        {
            let hit = {
                let lref = &self.cache.shard_logs[i];
                lref.namespace == namespace && lref.shard == shard
            };
            if hit {
                let copy = self.cache.shard_logs[i].duplicate();
                proof {
                    assert(self.cache_log_ok(i as int));
                    assert(self.log_at(i as int).namespace == namespace && self.log_at(
                        i as int,
                    ).shard == shard && ShardLog::log_eq(copy, self.log_at(i as int)));
                }
                return Some(copy);
            }
            i += 1;
        }
        proof {
            assert forall|j: int|
                0 <= j < self.shard_count() implies !((#[trigger] self.log_at(j)).namespace
                == namespace && self.log_at(j).shard == shard) by {
                assert(self.cache_log_ok(j));
            }
        }
        None
    }

    /// Point-in-time snapshot of a shard's replica set, read from the
    /// cache; by the mirror invariant it equals the persisted state.
    pub fn get_isr(&self, namespace: u64, shard: u64) -> (res: Option<IsrState>)
        requires
            self.wf(),
            self.loaded,
        ensures
            res matches Some(isr) ==> exists|i: int|
                0 <= i < self.shard_count() && (#[trigger] self.log_at(i)).namespace == namespace
                    && self.log_at(i).shard == shard && IsrState::isr_eq(isr, self.isr_at(i)),
            res is None ==> !self.has_shard(namespace, shard),
    {
        let n = self.cache.isrs.len();
        proof {
            assert(n as int == self.shard_count());
        }
        let mut i: usize = 0;
        while i < n
            invariant
                i <= n,
                n == self.cache.isrs@.len(),
                self.wf(),
                self.loaded,
                forall|j: int|
                    0 <= j < i ==> !((#[trigger] self.cache.isrs@[j]).namespace == namespace
                        && self.cache.isrs@[j].shard == shard),
            decreases n - i,
        {
            let hit = {
                let iref = &self.cache.isrs[i];
                iref.namespace == namespace && iref.shard == shard
            };
            if hit {
                let copy = self.cache.isrs[i].duplicate();
                proof {
                    assert(self.cache_isr_ok(i as int));
                    assert(self.shard_wf(i as int));
                    assert(self.log_at(i as int).namespace == namespace && self.log_at(
                        i as int,
                    ).shard == shard && IsrState::isr_eq(copy, self.isr_at(i as int)));
                }
                return Some(copy);
            }
            i += 1;
        }
        proof {
            assert forall|j: int|
                0 <= j < self.shard_count() implies !((#[trigger] self.log_at(j)).namespace
                == namespace && self.log_at(j).shard == shard) by {
                assert(self.cache_isr_ok(j));
                assert(self.shard_wf(j));
            }
        }
        None
    }

    /// Point-in-time snapshot of the cluster node records, read from
    /// the cache; by the mirror invariant it equals the persisted state.
    pub fn list_nodes(&self) -> (res: Vec<NodeRecord>)
        requires
            self.wf(),
            self.loaded,
        ensures
            res@.len() == self.node_count(),
            forall|i: int|
                0 <= i < self.node_count() ==> NodeRecord::node_eq(
                    #[trigger] res@[i],
                    self.node_at(i),
                ),
    {
        let n = self.cache.nodes.len();
        let mut out: Vec<NodeRecord> = Vec::new();
        let mut i: usize = 0;
        while i < n
            invariant
                i <= n,
                n == self.cache.nodes@.len(),
                self.wf(),
                self.loaded,
                out@.len() == i,
                forall|j: int|
                    0 <= j < i ==> NodeRecord::node_eq(#[trigger] out@[j], self.node_at(j)),
            decreases n - i,
        {
            let copy = self.cache.nodes[i].duplicate();
            proof {
                assert(self.cache_node_ok(i as int));
            }
            out.push(copy);
            i += 1;
        }
        out
    }

    /// Graceful-shutdown hook: halts background index building; no
    /// write may land after this returns.
    pub fn stop_all_build_index_thread(&mut self)
        requires
            old(self).wf(),
        ensures
            final(self).wf(),
            !final(self).index_threads_running,
            final(self).config == old(self).config,
            final(self).loaded == old(self).loaded,
            final(self).store.shard_logs@ == old(self).store.shard_logs@,
            final(self).store.isrs@ == old(self).store.isrs@,
            final(self).store.nodes@ == old(self).store.nodes@,
            final(self).cache.shard_logs@ == old(self).cache.shard_logs@,
            final(self).cache.isrs@ == old(self).cache.isrs@,
            final(self).cache.nodes@ == old(self).cache.nodes@,
    {
        self.index_threads_running = false;
        proof {
            JournalEngine::lemma_same_state_wf(*old(self), *self);
        }
    }

    /// Registers a node (or re-registers it after a restart): its record
    /// becomes healthy with fresh timestamps.  A node id is never held
    /// by two records at once.
    pub fn register_node(&mut self, node_id: u64, address: String, now: u64)
        requires
            old(self).wf(),
            old(self).loaded,
        ensures
            final(self).wf(),
            final(self).loaded,
            JournalEngine::nodes_frame(*old(self), *final(self)),
            forall|i: int|
                0 <= i < old(self).node_count() && (#[trigger] old(self).node_at(i)).node_id
                    == node_id ==> {
                    &&& final(self).node_count() == old(self).node_count()
                    &&& final(self).node_at(i).node_id == node_id
                    &&& final(self).node_at(i).address@ == address@
                    &&& final(self).node_at(i).register_time == now
                    &&& final(self).node_at(i).last_heartbeat == now
                    &&& final(self).node_at(i).health == NodeHealth::Healthy
                    &&& forall|j: int|
                        0 <= j < old(self).node_count() && j != i
                            ==> #[trigger] final(self).store.nodes@[j] == old(self).store.nodes@[j]
                },
            (forall|i: int|
                0 <= i < old(self).node_count() ==> (#[trigger] old(self).node_at(i)).node_id
                    != node_id) ==> {
                &&& final(self).node_count() == old(self).node_count() + 1
                &&& final(self).node_at(old(self).node_count()).node_id == node_id
                &&& final(self).node_at(old(self).node_count()).address@ == address@
                &&& final(self).node_at(old(self).node_count()).register_time == now
                &&& final(self).node_at(old(self).node_count()).last_heartbeat == now
                &&& final(self).node_at(old(self).node_count()).health == NodeHealth::Healthy
                &&& forall|j: int|
                    0 <= j < old(self).node_count() ==> #[trigger] final(self).store.nodes@[j]
                        == old(self).store.nodes@[j]
            },
    {
        let record = NodeRecord::new(node_id, address, now);
        let copy = record.duplicate();
        match self.find_node(node_id) {
            Some(i) => {
                self.store.nodes.remove(i);
                self.store.nodes.insert(i, record);
                self.cache.nodes.remove(i);
                self.cache.nodes.insert(i, copy);
                proof {
                    let pre = *old(self);
                    let post = *self;
                    assert(post.store.nodes@ =~= pre.store.nodes@.update(i as int, post.node_at(
                        i as int,
                    )));
                    assert(post.cache.nodes@ =~= pre.cache.nodes@.update(
                        i as int,
                        post.cache.nodes@[i as int],
                    ));
                    assert forall|a: int, b: int|
                        0 <= a < post.node_count() && 0 <= b
                            < post.node_count() implies #[trigger] post.node_distinct(a, b) by {
                        assert(pre.node_distinct(a, b));
                        assert(pre.node_distinct(a, i as int));
                        assert(pre.node_distinct(b, i as int));
                    }
                    assert forall|a: int|
                        0 <= a < post.node_count() implies #[trigger] post.cache_node_ok(a) by {
                        if a != i as int {
                            assert(pre.cache_node_ok(a));
                        }
                    }
                    JournalEngine::lemma_put_nodes(pre, post);
                    assert forall|a: int|
                        0 <= a < pre.node_count() && (#[trigger] pre.node_at(a)).node_id
                            == node_id implies a == i as int by {
                        assert(pre.node_distinct(a, i as int));
                    }
                }
            },
            None => {
                self.store.nodes.push(record);
                self.cache.nodes.push(copy);
                proof {
                    let pre = *old(self);
                    let post = *self;
                    assert forall|a: int, b: int|
                        0 <= a < post.node_count() && 0 <= b
                            < post.node_count() implies #[trigger] post.node_distinct(a, b) by {
                        if a < pre.node_count() && b < pre.node_count() {
                            assert(pre.node_distinct(a, b));
                        } else if a < pre.node_count() {
                            assert(pre.node_at(a).node_id != node_id);
                        } else if b < pre.node_count() {
                            assert(pre.node_at(b).node_id != node_id);
                        }
                    }
                    assert forall|a: int|
                        0 <= a < post.node_count() implies #[trigger] post.cache_node_ok(a) by {
                        if a < pre.node_count() {
                            assert(pre.cache_node_ok(a));
                        }
                    }
                    JournalEngine::lemma_put_nodes(pre, post);
                }
            },
        }
    }

    /// Records a heartbeat from a node: its timestamp moves and it
    /// counts as healthy again, unless it has already deregistered.  A
    /// heartbeat from an unknown node changes nothing.
    pub fn record_heartbeat(&mut self, node_id: u64, now: u64)
        requires
            old(self).wf(),
            old(self).loaded,
        ensures
            final(self).wf(),
            final(self).loaded,
            JournalEngine::nodes_frame(*old(self), *final(self)),
            final(self).node_count() == old(self).node_count(),
            forall|i: int|
                0 <= i < old(self).node_count() && (#[trigger] old(self).node_at(i)).node_id
                    == node_id ==> NodeRecord::heartbeat_rel(
                    old(self).node_at(i),
                    final(self).node_at(i),
                    now,
                ) && forall|j: int|
                    0 <= j < old(self).node_count() && j != i
                        ==> #[trigger] final(self).store.nodes@[j] == old(self).store.nodes@[j],
            (forall|i: int|
                0 <= i < old(self).node_count() ==> (#[trigger] old(self).node_at(i)).node_id
                    != node_id) ==> final(self).store.nodes@ == old(self).store.nodes@ && final(self).cache.nodes@ == old(self).cache.nodes@,
    {
        let i = match self.find_node(node_id) {
            Some(i) => i,
            None => {
                return ;
            },
        };
        let mut record = self.store.nodes.remove(i);
        if !matches!(record.health, NodeHealth::Unregistered) {
            record.last_heartbeat = now;
            record.health = NodeHealth::Healthy;
        }
        let copy = record.duplicate();
        self.store.nodes.insert(i, record);
        self.cache.nodes.remove(i);
        self.cache.nodes.insert(i, copy);
        proof {
            let pre = *old(self);
            let post = *self;
            assert(post.store.nodes@ =~= pre.store.nodes@.update(i as int, post.node_at(i as int)));
            assert(post.cache.nodes@ =~= pre.cache.nodes@.update(
                i as int,
                post.cache.nodes@[i as int],
            ));
            assert forall|a: int, b: int|
                0 <= a < post.node_count() && 0 <= b
                    < post.node_count() implies #[trigger] post.node_distinct(a, b) by {
                assert(pre.node_distinct(a, b));
                assert(pre.node_distinct(a, i as int));
                assert(pre.node_distinct(b, i as int));
            }
            assert forall|a: int| 0 <= a < post.node_count() implies #[trigger] post.cache_node_ok(
                a,
            ) by {
                if a != i as int {
                    assert(pre.cache_node_ok(a));
                }
            }
            JournalEngine::lemma_put_nodes(pre, post);
            assert forall|a: int|
                0 <= a < pre.node_count() && (#[trigger] pre.node_at(a)).node_id
                    == node_id implies a == i as int by {
                assert(pre.node_distinct(a, i as int));
            }
        }
    }

    /// The periodic timeout sweep: every healthy node whose last
    /// heartbeat is older than the configured timeout at instant `now`
    /// turns suspect; every other record is untouched.
    pub fn check_heartbeat_timeouts(&mut self, now: u64)
        requires
            old(self).wf(),
            old(self).loaded,
        ensures
            final(self).wf(),
            final(self).loaded,
            JournalEngine::nodes_frame(*old(self), *final(self)),
            final(self).node_count() == old(self).node_count(),
            forall|i: int|
                0 <= i < old(self).node_count() ==> NodeRecord::sweep_rel(
                    old(self).node_at(i),
                    #[trigger] final(self).store.nodes@[i],
                    now,
                    old(self).config.heartbeat_timeout,
                ),
    {
        let n = self.store.nodes.len();
        let mut i: usize = 0;
        while i < n
            invariant
                i <= n,
                n == old(self).store.nodes@.len(),
                self.wf(),
                self.loaded,
                old(self).wf(),
                old(self).loaded,
                self.config == old(self).config,
                self.index_threads_running == old(self).index_threads_running,
                self.store.nodes@.len() == n,
                self.store.shard_logs@ == old(self).store.shard_logs@,
                self.store.isrs@ == old(self).store.isrs@,
                self.cache.shard_logs@ == old(self).cache.shard_logs@,
                self.cache.isrs@ == old(self).cache.isrs@,
                forall|j: int|
                    0 <= j < i ==> NodeRecord::sweep_rel(
                        old(self).node_at(j),
                        #[trigger] self.store.nodes@[j],
                        now,
                        old(self).config.heartbeat_timeout,
                    ),
                forall|j: int|
                    i <= j < n ==> #[trigger] self.store.nodes@[j] == old(self).store.nodes@[j],
            decreases n - i,
        {
            let ghost pre_iter = *self;
            let timed_out = {
                let nref = &self.store.nodes[i];
                matches!(nref.health, NodeHealth::Healthy) && (nref.last_heartbeat as u128) + (
                self.config.heartbeat_timeout as u128) < (now as u128)
            };
            if timed_out {
                let mut record = self.store.nodes.remove(i);
                record.health = NodeHealth::Suspect;
                let copy = record.duplicate();
                self.store.nodes.insert(i, record);
                self.cache.nodes.remove(i);
                self.cache.nodes.insert(i, copy);
                proof {
                    let post = *self;
                    assert(post.store.nodes@ =~= pre_iter.store.nodes@.update(
                        i as int,
                        post.node_at(i as int),
                    ));
                    assert(post.cache.nodes@ =~= pre_iter.cache.nodes@.update(
                        i as int,
                        post.cache.nodes@[i as int],
                    ));
                    assert forall|a: int, b: int|
                        0 <= a < post.node_count() && 0 <= b
                            < post.node_count() implies #[trigger] post.node_distinct(a, b) by {
                        assert(pre_iter.node_distinct(a, b));
                        assert(pre_iter.node_distinct(a, i as int));
                        assert(pre_iter.node_distinct(b, i as int));
                    }
                    assert forall|a: int|
                        0 <= a < post.node_count() implies #[trigger] post.cache_node_ok(a) by {
                        if a != i as int {
                            assert(pre_iter.cache_node_ok(a));
                        }
                    }
                    JournalEngine::lemma_put_nodes(pre_iter, post);
                }
            }
            i += 1;
        }
    }

    /// Deregisters a node: its record turns `Unregistered`, so its id
    /// is never reused while the record is still in the cluster view.
    /// Deregistering an unknown node changes nothing.
    pub fn unregister_node(&mut self, node_id: u64)
        requires
            old(self).wf(),
            old(self).loaded,
        ensures
            final(self).wf(),
            final(self).loaded,
            JournalEngine::nodes_frame(*old(self), *final(self)),
            final(self).node_count() == old(self).node_count(),
            forall|i: int|
                0 <= i < old(self).node_count() && (#[trigger] old(self).node_at(i)).node_id
                    == node_id ==> {
                    &&& final(self).node_at(i).node_id == node_id
                    &&& final(self).node_at(i).address@ == old(self).node_at(i).address@
                    &&& final(self).node_at(i).register_time == old(self).node_at(i).register_time
                    &&& final(self).node_at(i).last_heartbeat == old(self).node_at(
                        i,
                    ).last_heartbeat
                    &&& final(self).node_at(i).health == NodeHealth::Unregistered
                    &&& forall|j: int|
                        0 <= j < old(self).node_count() && j != i
                            ==> #[trigger] final(self).store.nodes@[j] == old(self).store.nodes@[j]
                },
            (forall|i: int|
                0 <= i < old(self).node_count() ==> (#[trigger] old(self).node_at(i)).node_id
                    != node_id) ==> final(self).store.nodes@ == old(self).store.nodes@ && final(self).cache.nodes@ == old(self).cache.nodes@,
    {
        let i = match self.find_node(node_id) {
            Some(i) => i,
            None => {
                return ;
            },
        };
        let mut record = self.store.nodes.remove(i);
        record.health = NodeHealth::Unregistered;
        let copy = record.duplicate();
        self.store.nodes.insert(i, record);
        self.cache.nodes.remove(i);
        self.cache.nodes.insert(i, copy);
        proof {
            let pre = *old(self);
            let post = *self;
            assert(post.store.nodes@ =~= pre.store.nodes@.update(i as int, post.node_at(i as int)));
            assert(post.cache.nodes@ =~= pre.cache.nodes@.update(
                i as int,
                post.cache.nodes@[i as int],
            ));
            assert forall|a: int, b: int|
                0 <= a < post.node_count() && 0 <= b
                    < post.node_count() implies #[trigger] post.node_distinct(a, b) by {
                assert(pre.node_distinct(a, b));
                assert(pre.node_distinct(a, i as int));
                assert(pre.node_distinct(b, i as int));
            }
            assert forall|a: int| 0 <= a < post.node_count() implies #[trigger] post.cache_node_ok(
                a,
            ) by {
                if a != i as int {
                    assert(pre.cache_node_ok(a));
                }
            }
            JournalEngine::lemma_put_nodes(pre, post);
            assert forall|a: int|
                0 <= a < pre.node_count() && (#[trigger] pre.node_at(a)).node_id
                    == node_id implies a == i as int by {
                assert(pre.node_distinct(a, i as int));
            }
        }
    }

    /// The key a segment record answers to on disk.
    pub open spec fn seg_ref_of(m: SegmentMeta) -> SegmentRef {
        SegmentRef { namespace: m.namespace, shard: m.shard, segment_id: m.segment_id }
    }

    /// The store holds a segment record with this key.
    pub open spec fn metadata_has(self, r: SegmentRef) -> bool {
        exists|j: int, k: int|
            0 <= j < self.shard_count() && 0 <= k < self.log_at(j).seg_count()
                && JournalEngine::seg_ref_of(#[trigger] self.log_at(j).seg(k)) == r
    }

    /// Persisted records and discovered files agree: every record not
    /// already marked deleting has its file on disk, and every file on
    /// disk has its record.
    pub open spec fn reconcile_ok(self, files: Seq<SegmentRef>) -> bool {
        &&& forall|j: int, k: int|
            0 <= j < self.shard_count() && 0 <= k < self.log_at(j).seg_count() && (
            #[trigger] self.log_at(j).seg(k)).status != SegmentStatus::Deleting ==> files.contains(
                JournalEngine::seg_ref_of(self.log_at(j).seg(k)),
            )
        &&& forall|f: int| 0 <= f < files.len() ==> self.metadata_has(#[trigger] files[f])
    }

    /// Whether the store holds a record with this key.
    fn metadata_contains(&self, r: SegmentRef) -> (b: bool)
        requires
            self.store_wf(),
        ensures
            b == self.metadata_has(r),
    {
        let idx = match self.find_shard(r.namespace, r.shard) {
            Some(i) => i,
            None => {
                proof {
                    assert forall|j: int, k: int|
                        0 <= j < self.shard_count() && 0 <= k < self.log_at(
                            j,
                        ).seg_count() implies JournalEngine::seg_ref_of(
                        #[trigger] self.log_at(j).seg(k),
                    ) != r by {
                        assert(self.shard_wf(j));
                        assert(self.log_at(j).wf_meta(k));
                    }
                }
                return false;
            },
        };
        proof {
            assert(self.shard_wf(idx as int));
        }
        let b = {
            let lref = &self.store.shard_logs[idx];
            lref.contains_segment(r.segment_id)
        };
        proof {
            if b {
                let k = choose|k: int|
                    0 <= k < self.log_at(idx as int).seg_count() && (#[trigger] self.log_at(
                        idx as int,
                    ).seg(k)).segment_id == r.segment_id;
                assert(self.log_at(idx as int).wf_meta(k));
                assert(JournalEngine::seg_ref_of(self.log_at(idx as int).seg(k)) == r);
            } else {
                assert forall|j: int, k: int|
                    0 <= j < self.shard_count() && 0 <= k < self.log_at(
                        j,
                    ).seg_count() implies JournalEngine::seg_ref_of(
                    #[trigger] self.log_at(j).seg(k),
                ) != r by {
                    assert(self.shard_wf(j));
                    assert(self.log_at(j).wf_meta(k));
                    if j != idx as int {
                        assert(self.shard_distinct(j, idx as int));
                    }
                }
            }
        }
        b
    }

    /// Startup reconciliation of persisted segment records against the
    /// segment files actually found on disk.
    ///
    /// Succeeds exactly when they agree: every record not marked
    /// deleting has its file, and every file has its record.  Any
    /// orphaned file or missing file is reported as
    /// `InconsistentState`; the node must not serve traffic until the
    /// disagreement is resolved.
    pub fn reconcile_with_local_files(&self, discovered: &Vec<SegmentRef>) -> (res: Result<
        (),
        JournalError,
    >)
        requires
            self.store_wf(),
        ensures
            res is Ok <==> self.reconcile_ok(discovered@),
            res is Err ==> res == Err::<(), JournalError>(JournalError::InconsistentState),
    {
        let n_shards = self.store.shard_logs.len();
        let mut j: usize = 0;
        while j < n_shards
            invariant
                j <= n_shards,
                n_shards == self.store.shard_logs@.len(),
                self.store_wf(),
                forall|a: int, b: int|
                    0 <= a < j && 0 <= b < self.log_at(a).seg_count() && (#[trigger] self.log_at(
                        a,
                    ).seg(b)).status != SegmentStatus::Deleting ==> discovered@.contains(
                        JournalEngine::seg_ref_of(self.log_at(a).seg(b)),
                    ),
            decreases n_shards - j,
        {
            let n_segs = {
                let lref = &self.store.shard_logs[j];
                lref.segments.len()
            };
            let mut k: usize = 0;
            while k < n_segs
                invariant
                    k <= n_segs,
                    j < n_shards,
                    n_shards == self.store.shard_logs@.len(),
                    n_segs == self.log_at(j as int).seg_count(),
                    self.store_wf(),
                    forall|a: int, b: int|
                        0 <= a < j && 0 <= b < self.log_at(a).seg_count() && (
                        #[trigger] self.log_at(a).seg(b)).status != SegmentStatus::Deleting
                            ==> discovered@.contains(
                            JournalEngine::seg_ref_of(self.log_at(a).seg(b)),
                        ),
                    forall|b: int|
                        0 <= b < k && (#[trigger] self.log_at(j as int).seg(b)).status
                            != SegmentStatus::Deleting ==> discovered@.contains(
                            JournalEngine::seg_ref_of(self.log_at(j as int).seg(b)),
                        ),
                decreases n_segs - k,
            {
                let meta = {
                    let lref = &self.store.shard_logs[j];
                    lref.segments[k]
                };
                if !matches!(meta.status, SegmentStatus::Deleting) {
                    let key = SegmentRef {
                        namespace: meta.namespace,
                        shard: meta.shard,
                        segment_id: meta.segment_id,
                    };
                    proof {
                        assert(self.shard_wf(j as int));
                        assert(self.log_at(j as int).wf_meta(k as int));
                        assert(key == JournalEngine::seg_ref_of(self.log_at(j as int).seg(
                            k as int,
                        )));
                    }
                    if !files_contain(discovered, key) {
                        proof {
                            assert(!self.reconcile_ok(discovered@));
                        }
                        return Err(JournalError::InconsistentState);
                    }
                }
                k += 1;
            }
            j += 1;
        }
        let n_files = discovered.len();
        let mut f: usize = 0;
        while f < n_files
            invariant
                f <= n_files,
                n_files == discovered@.len(),
                self.store_wf(),
                forall|a: int, b: int|
                    0 <= a < self.shard_count() && 0 <= b < self.log_at(a).seg_count() && (
                    #[trigger] self.log_at(a).seg(b)).status != SegmentStatus::Deleting
                        ==> discovered@.contains(JournalEngine::seg_ref_of(self.log_at(a).seg(b))),
                forall|g: int| 0 <= g < f ==> self.metadata_has(#[trigger] discovered@[g]),
            decreases n_files - f,
        {
            let file_ref = discovered[f];
            if !self.metadata_contains(file_ref) {
                proof {
                    assert(!self.reconcile_ok(discovered@));
                }
                return Err(JournalError::InconsistentState);
            }
            f += 1;
        }
        proof {
            assert(self.reconcile_ok(discovered@));
        }
        Ok(())
    }
}

/// Whether the discovered-file list holds this key.
fn files_contain(files: &Vec<SegmentRef>, r: SegmentRef) -> (b: bool)
    ensures
        b == files@.contains(r),
{
    let n = files.len();
    let mut i: usize = 0;
    while i < n
        invariant
            i <= n,
            n == files@.len(),
            forall|j: int| 0 <= j < i ==> #[trigger] files@[j] != r,
        decreases n - i,
    {
        let cur = files[i];
        if cur.namespace == r.namespace && cur.shard == r.shard && cur.segment_id == r.segment_id {
            proof {
                assert(files@[i as int] == r);
            }
            return true;
        }
        i += 1;
    }
    false
}

} // verus!
