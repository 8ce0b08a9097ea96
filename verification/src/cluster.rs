//! Cluster node membership records.
//!
//! Every journal-server process is represented by one node record.  A
//! node registers at startup, is kept alive by heartbeats, turns suspect
//! when its heartbeat expires, and leaves the cluster view on explicit
//! deregistration.  A node id is never reused while its record is still
//! present.

use vstd::prelude::*;

verus! {

/// Health of one cluster node.
#[derive(Clone, Copy, Debug, PartialEq, Eq, Structural)]
pub enum NodeHealth {
    /// Registration was requested but not yet confirmed.
    Registering,
    /// Heartbeats arrive within the timeout window.
    Healthy,
    /// No heartbeat within the timeout window.
    Suspect,
    /// Explicitly deregistered or administratively evicted.
    Unregistered,
}

/// The membership record of one journal-server process.
pub struct NodeRecord {
    pub node_id: u64,
    /// Network address the node serves on.
    pub address: String,
    pub register_time: u64,
    pub last_heartbeat: u64,
    pub health: NodeHealth,
}

impl NodeRecord {
    /// Two records hold the same values.
    pub open spec fn node_eq(a: NodeRecord, b: NodeRecord) -> bool {
        &&& a.node_id == b.node_id
        &&& a.address@ == b.address@
        &&& a.register_time == b.register_time
        &&& a.last_heartbeat == b.last_heartbeat
        &&& a.health == b.health
    }

    /// A freshly registered record.
    pub fn new(node_id: u64, address: String, now: u64) -> (r: NodeRecord)
        ensures
            r.node_id == node_id,
            r.address@ == address@,
            r.register_time == now,
            r.last_heartbeat == now,
            r.health == NodeHealth::Healthy,
    {
        NodeRecord {
            node_id,
            address,
            register_time: now,
            last_heartbeat: now,
            health: NodeHealth::Healthy,
        }
    }

    /// An exact copy of the record.
    pub fn duplicate(&self) -> (r: NodeRecord)
        ensures
            NodeRecord::node_eq(r, *self),
    {
        NodeRecord {
            node_id: self.node_id,
            address: self.address.clone(),
            register_time: self.register_time,
            last_heartbeat: self.last_heartbeat,
            health: self.health,
        }
    }

    /// The record after a heartbeat arrives at `now`: the timestamp
    /// moves and the node counts as healthy again, unless it has
    /// already left the cluster.
    pub open spec fn heartbeat_rel(pre: NodeRecord, post: NodeRecord, now: u64) -> bool {
        if pre.health == NodeHealth::Unregistered {
            NodeRecord::node_eq(post, pre)
        } else {
            &&& post.node_id == pre.node_id
            &&& post.address@ == pre.address@
            &&& post.register_time == pre.register_time
            &&& post.last_heartbeat == now
            &&& post.health == NodeHealth::Healthy
        }
    }

    /// A healthy node whose last heartbeat is older than `timeout` at
    /// instant `now` has timed out.
    pub open spec fn timed_out(self, now: u64, timeout: u64) -> bool {
        self.health == NodeHealth::Healthy && self.last_heartbeat + timeout < now
    }

    /// The record after the timeout sweep at `now`: a timed-out healthy
    /// node turns suspect, every other record is untouched.
    pub open spec fn sweep_rel(pre: NodeRecord, post: NodeRecord, now: u64, timeout: u64) -> bool {
        if pre.timed_out(now, timeout) {
            &&& post.node_id == pre.node_id
            &&& post.address@ == pre.address@
            &&& post.register_time == pre.register_time
            &&& post.last_heartbeat == pre.last_heartbeat
            &&& post.health == NodeHealth::Suspect
        } else {
            NodeRecord::node_eq(post, pre)
        }
    }
}

} // verus!
