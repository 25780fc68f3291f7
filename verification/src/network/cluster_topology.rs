//! The router and the shard table: taking the table from what the cluster
//! reports, and adding the replicas when a command needs them.

use vstd::prelude::*;
use crate::commands::command_info::command_infos_of;
use crate::commands::command_info_manager::{
    find_request_policy, info_for, request_policy_of, CommandInfoManager,
};
use crate::commands::server_commands::RequestPolicy;
use crate::error::{Error, ErrorView};
use crate::network::cluster_connection::ClusterConnection;
use crate::network::topology::{
    all_have_master, chosen_port, exact_cover, master_shards, report_views, reported_ranges,
    node_views, select_port, shard_table, shard_views, sort_by_low, ClusterNodeView,
    ClusterShardResult, ClusterShardView, Node, NodeView, Shard,
};
use crate::resp::command::Command;
use crate::resp::text::{bytes_eq, bytes_of, copy_bytes, text_eq};
use crate::resp::value::Value;

verus! {

/// The node is a replica.
pub open spec fn is_replica(n: ClusterNodeView) -> bool {
    n.role == bytes_of("replica")
}

/// The replicas among the first `n` nodes of a report, as nodes of the
/// shard table; `None` where one of them has no port or two.
pub open spec fn replicas_upto(info: ClusterShardView, n: int) -> Option<Seq<NodeView>>
    decreases n,
{
    if n <= 0 {
        Some(Seq::empty())
    } else {
        match replicas_upto(info, n - 1) {
            None => None,
            Some(front) => {
                let node = info.nodes[n - 1];
                if is_replica(node) {
                    match chosen_port(node.port, node.tls_port) {
                        Some(port) => Some(
                            front.push(NodeView { id: node.id, host: node.ip, port }),
                        ),
                        None => None,
                    }
                } else {
                    Some(front)
                }
            },
        }
    }
}

/// The index of the first shard from `from` on whose master has the
/// identity.
pub open spec fn shard_with_master(shards: Seq<Seq<NodeView>>, id: Seq<u8>, from: int) -> Option<
    int,
>
    decreases shards.len() - from,
{
    if from < 0 || from >= shards.len() {
        None
    } else if shards[from].len() > 0 && shards[from][0].id == id {
        Some(from)
    } else {
        shard_with_master(shards, id, from + 1)
    }
}

/// The shard table with the replicas of the first `n` reports added, each
/// to the shard whose master the report names first; `None` where a report
/// names no node, names a master that no shard has, or names a replica
/// without a port or with two.
pub open spec fn with_replicas(shards: Seq<Seq<NodeView>>, infos: Seq<ClusterShardView>, n: int)
    -> Option<Seq<Seq<NodeView>>>
    decreases n,
{
    if n <= 0 {
        Some(shards)
    } else {
        match with_replicas(shards, infos, n - 1) {
            None => None,
            Some(current) => if infos[n - 1].nodes.len() == 0 {
                None
            } else {
                match (
                    shard_with_master(current, infos[n - 1].nodes[0].id, 0),
                    replicas_upto(infos[n - 1], infos[n - 1].nodes.len() as int),
                ) {
                    (Some(s), Some(replicas)) => Some(current.update(s, current[s] + replicas)),
                    _ => None,
                }
            },
        }
    }
}

/// Where the reports cannot be applied up to some point, they cannot be
/// applied at all.
pub proof fn lemma_with_replicas_none(
    shards: Seq<Seq<NodeView>>,
    infos: Seq<ClusterShardView>,
    k: int,
    n: int,
)
    requires
        0 <= k <= n,
        with_replicas(shards, infos, k) is None,
    ensures
        with_replicas(shards, infos, n) is None,
    decreases n - k,
{
    if k < n {
        lemma_with_replicas_none(shards, infos, k, n - 1);
    }
}

/// Where one of the first nodes is a replica without usable port, the
/// replicas of the report cannot be listed.
pub proof fn lemma_replicas_none(info: ClusterShardView, k: int, n: int)
    requires
        0 <= k <= n,
        replicas_upto(info, k) is None,
    ensures
        replicas_upto(info, n) is None,
    decreases n - k,
{
    if k < n {
        lemma_replicas_none(info, k, n - 1);
    }
}

/// A copy of a node.
pub fn duplicate_node(node: &Node) -> (r: Node)
    ensures
        r@ == node@,
{
    Node {
        id: copy_bytes(node.id.as_slice()),
        address: (copy_bytes(node.address.0.as_slice()), node.address.1),
    }
}

/// A copy of a shard table.
pub fn duplicate_shards(shards: &Vec<Shard>) -> (r: Vec<Shard>)
    ensures
        shard_views(r@) == shard_views(shards@),
{
    let mut out: Vec<Shard> = Vec::new();
    let mut i: usize = 0;
    assert(shard_views(out@) =~= shard_views(shards@).take(0));
    while i < shards.len()
        invariant
            i <= shards.len(),
            shard_views(out@) == shard_views(shards@).take(i as int),
        decreases shards.len() - i,
    {
        let source = &shards[i].nodes;
        let mut nodes: Vec<Node> = Vec::new();
        let mut k: usize = 0;
        while k < source.len()
            invariant
                k <= source.len(),
                nodes@.len() == k,
                forall|m: int| 0 <= m < k ==> (#[trigger] nodes@[m])@ == source@[m]@,
            decreases source.len() - k,
        {
            nodes.push(duplicate_node(&source[k]));
            k = k + 1;
        }
        let shard = Shard { nodes };
        proof {
            assert(shard@ =~= shards@[i as int]@);
            assert(shard_views(out@.push(shard)) =~= shard_views(out@).push(shard@));
            assert(shard_views(shards@).take(i + 1) =~= shard_views(shards@).take(i as int).push(
                shards@[i as int]@,
            ));
        }
        out.push(shard);
        i = i + 1;
    }
    assert(shard_views(shards@).take(shards.len() as int) =~= shard_views(shards@));
    out
}

/// The replicas that a report names, as nodes of the shard table.
pub fn replicas_of(info: &ClusterShardResult) -> (r: Option<Vec<Node>>)
    ensures
        match replicas_upto(info@, info@.nodes.len() as int) {
            Some(nodes) => r matches Some(found) && node_views(found@) == nodes,
            None => r is None,
        },
{
    let mut out: Vec<Node> = Vec::new();
    let mut i: usize = 0;
    assert(node_views(out@) =~= Seq::<NodeView>::empty());
    while i < info.nodes.len()
        invariant
            i <= info.nodes.len(),
            info@.nodes.len() == info.nodes@.len(),
            replicas_upto(info@, i as int) == Some(node_views(out@)),
        decreases info.nodes.len() - i,
    {
        let node = &info.nodes[i];
        assert(info@.nodes[i as int] == node@);
        if text_eq(node.role.as_slice(), "replica") {
            match select_port(node.port, node.tls_port) {
                Some(port) => {
                    let replica = Node {
                        id: copy_bytes(node.id.as_slice()),
                        address: (copy_bytes(node.ip.as_slice()), port),
                    };
                    assert(node_views(out@.push(replica)) =~= node_views(out@).push(replica@));
                    out.push(replica);
                },
                None => {
                    proof {
                        lemma_replicas_none(info@, i + 1, info@.nodes.len() as int);
                    }
                    return None;
                },
            }
        }
        i = i + 1;
    }
    Some(out)
}

/// The index of the first shard whose master has the identity.
pub fn find_shard(shards: &Vec<Shard>, id: &[u8]) -> (r: Option<usize>)
    ensures
        match shard_with_master(shard_views(shards@), id@, 0) {
            Some(s) => r matches Some(found) && found == s && 0 <= s < shards@.len(),
            None => r is None,
        },
{
    let ghost all = shard_views(shards@);
    let mut i: usize = 0;
    while i < shards.len()
        invariant
            i <= shards.len(),
            all == shard_views(shards@),
            shard_with_master(all, id@, 0) == shard_with_master(all, id@, i as int),
        decreases shards.len() - i,
    {
        let nodes = &shards[i].nodes;
        assert(all[i as int] == shards@[i as int]@);
        if nodes.len() > 0 {
            assert(all[i as int][0] == nodes@[0]@);
            if bytes_eq(nodes[0].id.as_slice(), id) {
                return Some(i);
            }
        }
        i = i + 1;
    }
    None
}

impl ClusterConnection {
    /// The router for the cluster that the reports describe, with the
    /// catalog that the reply to `COMMAND` describes. No request is waited
    /// for.
    pub fn connect(shard_info_list: &Vec<ClusterShardResult>, command_reply: &Value) -> (r: Result<
        ClusterConnection,
        Error,
    >)
        ensures
            ({
                let infos = report_views(shard_info_list@);
                let ranges = sort_by_low(reported_ranges(infos, infos.len() as int));
                if !(all_have_master(infos) && exact_cover(ranges)) {
                    r matches Err(e) && e@ == ErrorView::ClusterMisconfiguration
                } else {
                    match command_infos_of(command_reply@) {
                        Err(e) => r matches Err(f) && f@ == e,
                        Ok(catalog) => r matches Ok(c) && c.well_formed() && shard_views(c.shards@)
                            == master_shards(infos, infos.len() as int) && c.slot_ranges@ == ranges
                            && c.command_info_manager@ == catalog && c.pending@.len() == 0,
                    }
                }
            }),
    {
        let (shards, slot_ranges) = match shard_table(shard_info_list) {
            Ok(table) => table,
            Err(e) => {
                return Err(e);
            },
        };
        let command_info_manager = match CommandInfoManager::initialize(command_reply) {
            Ok(m) => m,
            Err(e) => {
                return Err(e);
            },
        };
        Ok(ClusterConnection { shards, slot_ranges, command_info_manager, pending: Vec::new() })
    }

    /// Takes the shard table anew from what the cluster reports. Where the
    /// reports cannot be used the router stays as it is.
    pub fn reconnect(&mut self, shard_info_list: &Vec<ClusterShardResult>) -> (r: Result<(), Error>)
        requires
            old(self).well_formed(),
        ensures
            final(self).well_formed(),
            final(self).command_info_manager == old(self).command_info_manager,
            final(self).pending == old(self).pending,
            ({
                let infos = report_views(shard_info_list@);
                let ranges = sort_by_low(reported_ranges(infos, infos.len() as int));
                if all_have_master(infos) && exact_cover(ranges) {
                    r is Ok && shard_views(final(self).shards@) == master_shards(
                        infos,
                        infos.len() as int,
                    ) && final(self).slot_ranges@ == ranges
                } else {
                    r matches Err(e) && e@ == ErrorView::ClusterMisconfiguration
                        && final(self).shards == old(self).shards && final(self).slot_ranges
                        == old(self).slot_ranges
                }
            }),
    {
        let (shards, slot_ranges) = match shard_table(shard_info_list) {
            Ok(table) => table,
            Err(e) => {
                return Err(e);
            },
        };
        self.shards = shards;
        self.slot_ranges = slot_ranges;
        Ok(())
    }

    /// Whether the replicas are still to be added to the shard table: the
    /// first shard has its master alone.
    pub fn needs_replicas(&self) -> (r: bool)
        requires
            self.well_formed(),
        ensures
            r == (self.shards@[0]@.len() == 1),
    {
        proof {
            assert(self.slot_ranges@[0].shard_index < self.shards@.len());
        }
        self.shards[0].nodes.len() == 1
    }

    /// Whether the replicas are to be added to the shard table before the
    /// command is sent: the command goes to all nodes, and the first shard
    /// has its master alone.
    pub fn wants_replicas(&self, command: &Command) -> (r: bool)
        requires
            self.well_formed(),
        ensures
            r == match info_for(self.command_info_manager@, command@) {
                Some(info) => request_policy_of(info.command_tips) == Some(RequestPolicy::AllNodes)
                    && self.shards@[0]@.len() == 1,
                None => false,
            },
    {
        match self.command_info_manager.get_command_info(command) {
            Some(info) => match find_request_policy(&info.command_tips) {
                Some(RequestPolicy::AllNodes) => self.needs_replicas(),
                _ => false,
            },
            None => false,
        }
    }

    /// Adds the replicas that the cluster reports to the shard table, each
    /// to the shard whose master its report names first. Where a report
    /// cannot be used the shard table stays as it is.
    pub fn connect_replicas(&mut self, shard_infos: &Vec<ClusterShardResult>) -> (r: Result<
        (),
        Error,
    >)
        requires
            old(self).well_formed(),
        ensures
            final(self).well_formed(),
            final(self).slot_ranges == old(self).slot_ranges,
            final(self).command_info_manager == old(self).command_info_manager,
            final(self).pending == old(self).pending,
            match with_replicas(
                shard_views(old(self).shards@),
                report_views(shard_infos@),
                shard_infos@.len() as int,
            ) {
                Some(shards) => r is Ok && shard_views(final(self).shards@) == shards,
                None => r matches Err(e) && e@ == ErrorView::ClusterMisconfiguration
                    && final(self).shards == old(self).shards,
            },
    {
        let ghost start = shard_views(self.shards@);
        let ghost infos = report_views(shard_infos@);
        let mut working = duplicate_shards(&self.shards);
        let mut i: usize = 0;
        proof {
            assert forall|k: int| 0 <= k < working@.len() implies (#[trigger] working@[k])@.len()
                > 0 by {
                assert(shard_views(working@).len() == working@.len());
                assert(shard_views(self.shards@).len() == self.shards@.len());
                assert(shard_views(working@)[k] == working@[k]@);
                assert(shard_views(self.shards@)[k] == self.shards@[k]@);
                assert(self.shards@[k]@.len() > 0);
            }
        }
        while i < shard_infos.len()
            invariant
                i <= shard_infos.len(),
                self.well_formed(),
                infos == report_views(shard_infos@),
                start == shard_views(old(self).shards@),
                *self == *old(self),
                with_replicas(start, infos, i as int) == Some(shard_views(working@)),
                working@.len() == start.len(),
                forall|k: int| 0 <= k < working@.len() ==> (#[trigger] working@[k])@.len() > 0,
            decreases shard_infos.len() - i,
        {
            let info = &shard_infos[i];
            assert(infos[i as int] == info@);
            if info.nodes.len() == 0 {
                proof {
                    lemma_with_replicas_none(start, infos, i + 1, shard_infos@.len() as int);
                }
                return Err(Error::ClusterMisconfiguration);
            }
            assert(info@.nodes[0] == info.nodes@[0]@);
            let ghost current = shard_views(working@);
            let found = find_shard(&working, info.nodes[0].id.as_slice());
            let replicas = replicas_of(info);
            assert(match shard_with_master(current, infos[i as int].nodes[0].id, 0) {
                Some(s) => found matches Some(f) && f == s && 0 <= s < working@.len(),
                None => found is None,
            });
            assert(match replicas_upto(infos[i as int], infos[i as int].nodes.len() as int) {
                Some(nodes) => replicas matches Some(r) && node_views(r@) == nodes,
                None => replicas is None,
            });
            match (found, replicas) {
                (Some(s), Some(mut nodes)) => {
                    let ghost added = node_views(nodes@);
                    let mut shard = working.remove(s);
                    let ghost before = shard@;
                    assert(before == current[s as int]);
                    shard.nodes.append(&mut nodes);
                    assert(shard@ =~= before + added);
                    working.insert(s, shard);
                    proof {
                        assert(shard_views(working@) =~= current.update(
                            s as int,
                            current[s as int] + added,
                        ));
                        assert(with_replicas(start, infos, i as int) == Some(current));
                        assert(shard_with_master(current, infos[i as int].nodes[0].id, 0) == Some(
                            s as int,
                        ));
                        assert(replicas_upto(infos[i as int], infos[i as int].nodes.len() as int)
                            == Some(added));
                        assert(with_replicas(start, infos, i + 1) == Some(
                            current.update(s as int, current[s as int] + added),
                        ));
                    }
                },
                _ => {
                    proof {
                        lemma_with_replicas_none(start, infos, i + 1, shard_infos@.len() as int);
                    }
                    return Err(Error::ClusterMisconfiguration);
                },
            }
            i = i + 1;
        }
        self.shards = working;
        Ok(())
    }
}

} // verus!
