//! Request policies: to which nodes a command is sent, and with which of
//! its keys.

use vstd::prelude::*;
use crate::error::{Error, ErrorView};
use crate::network::cluster_connection::{
    ask_views, route, sub_request_views, write_views, AskReason, AskReasonView, ClusterConnection,
    Dispatch, DispatchView, RequestInfo, RequestInfoView, SubRequest, SubRequestList,
    SubRequestView, Write, WriteView,
};
use crate::network::hash_slot::{key_list, slot_list, slots_of, KeyList, SlotList};
use crate::network::topology::{shard_views, NodeView, SlotRange};
use crate::resp::command::{Command, CommandView};
use crate::resp::text::copy_bytes;

verus! {

/// `Rng::gen_range` of `rand`, on the generator of the thread: some index
/// below `len`, which one is left to chance. It panics on an empty range.
#[verifier::external_body]
pub(crate) fn random_index(len: usize) -> (r: usize)
    requires
        len > 0,
    ensures
        r < len,
{
    rand::Rng::gen_range(&mut rand::thread_rng(), 0..len)
}

/// A write of `command` to the master of a shard without `ASKING`.
pub open spec fn master_write(shard_index: int, command: CommandView) -> WriteView {
    WriteView { shard_index: shard_index as usize, node_index: 0, asking: false, command }
}

/// The part of a request that goes to a node and carries no key.
pub open spec fn bare_part(shard_index: int, node_index: int) -> SubRequestView {
    SubRequestView {
        shard_index: shard_index as usize,
        node_index: node_index as usize,
        keys: Seq::empty(),
    }
}

/// The command goes to the master of every shard, in the order of the shard
/// table; no part carries keys.
pub open spec fn all_shards_plan(
    shards: Seq<Seq<NodeView>>,
    command: CommandView,
    command_name: Seq<u8>,
    keys: Seq<Seq<u8>>,
) -> DispatchView {
    DispatchView {
        writes: Seq::new(shards.len(), |i: int| master_write(i, command)),
        request_info: RequestInfoView {
            command_name,
            keys,
            sub_requests: Seq::new(shards.len(), |i: int| bare_part(i, 0)),
        },
    }
}

/// The nodes of the first `n` shards: shard by shard, and node by node
/// within a shard.
pub open spec fn nodes_upto(shards: Seq<Seq<NodeView>>, n: int) -> Seq<(int, int)>
    decreases n,
{
    if n <= 0 {
        Seq::empty()
    } else {
        nodes_upto(shards, n - 1) + Seq::new(shards[n - 1].len(), |j: int| (n - 1, j))
    }
}

/// The command goes to every node of every shard; no part carries keys.
pub open spec fn all_nodes_plan(
    shards: Seq<Seq<NodeView>>,
    command: CommandView,
    command_name: Seq<u8>,
    keys: Seq<Seq<u8>>,
) -> DispatchView {
    let targets = nodes_upto(shards, shards.len() as int);
    DispatchView {
        writes: targets.map_values(
            |t: (int, int)|
                WriteView {
                    shard_index: t.0 as usize,
                    node_index: t.1 as usize,
                    asking: false,
                    command,
                },
        ),
        request_info: RequestInfoView {
            command_name,
            keys,
            sub_requests: targets.map_values(|t: (int, int)| bare_part(t.0, t.1)),
        },
    }
}

/// All the slots are the same.
pub open spec fn all_equal(slots: Seq<u16>) -> bool {
    forall|i: int, j: int| 0 <= i < slots.len() && 0 <= j < slots.len() ==> slots[i] == slots[j]
}

/// The command goes as it is to the master of one shard, with all its
/// keys.
pub open spec fn single_plan(
    shard_index: usize,
    asking: bool,
    command: CommandView,
    command_name: Seq<u8>,
    keys: Seq<Seq<u8>>,
) -> DispatchView {
    DispatchView {
        writes: seq![WriteView { shard_index, node_index: 0, asking, command }],
        request_info: RequestInfoView {
            command_name,
            keys,
            sub_requests: seq![SubRequestView { shard_index, node_index: 0, keys }],
        },
    }
}

/// What a command without request policy comes to. Its keys have to be of
/// one slot, and it goes to the shard of that slot; without keys it goes to
/// the shard with index `pick`.
pub open spec fn no_policy_plan(
    shards: Seq<Seq<NodeView>>,
    ranges: Seq<SlotRange>,
    asks: Seq<AskReasonView>,
    command: CommandView,
    command_name: Seq<u8>,
    keys: Seq<Seq<u8>>,
    pick: usize,
) -> Result<DispatchView, ErrorView> {
    let slots = slots_of(keys);
    if !all_equal(slots) {
        Err(ErrorView::CrossSlot(command_name))
    } else if slots.len() == 0 {
        Ok(single_plan(pick, false, command, command_name, keys))
    } else {
        match route(shards, ranges, asks, slots[0]) {
            Some((shard_index, asking)) => Ok(
                single_plan(shard_index, asking, command, command_name, keys),
            ),
            None => Err(ErrorView::ClusterMisconfiguration),
        }
    }
}

/// Whether all the slots of the list are the same.
pub fn same_slots(slots: &SlotList) -> (r: bool)
    ensures
        r == all_equal(slot_list(*slots)),
{
    let n = slots.len();
    if n == 0 {
        return true;
    }
    let first = match slots.get(0) {
        Some(s) => s,
        None => {
            return true;
        },
    };
    let mut i: usize = 1;
    while i < n
        invariant
            1 <= i <= n,
            n == slot_list(*slots).len(),
            first == slot_list(*slots)[0],
            forall|k: int| 0 <= k < i ==> slot_list(*slots)[k] == first,
        decreases n - i,
    {
        match slots.get(i) {
            Some(s) => {
                if s != first {
                    return false;
                }
            },
            None => {},
        }
        i = i + 1;
    }
    true
}

impl ClusterConnection {
    /// The command goes to the master of every shard.
    pub fn request_policy_all_shards(&self, command: &Command, command_name: &[u8], keys: KeyList)
        -> (r: Dispatch)
        ensures
            r@ == all_shards_plan(
                shard_views(self.shards@),
                command@,
                command_name@,
                key_list(keys),
            ),
    {
        let ghost plan = all_shards_plan(
            shard_views(self.shards@),
            command@,
            command_name@,
            key_list(keys),
        );
        let mut writes: Vec<Write> = Vec::new();
        let mut sub_requests = SubRequestList::new();
        let mut i: usize = 0;
        assert(write_views(writes@) =~= plan.writes.take(0));
        assert(sub_request_views(sub_requests@) =~= plan.request_info.sub_requests.take(0));
        while i < self.shards.len()
            invariant
                i <= self.shards.len(),
                plan == all_shards_plan(
                    shard_views(self.shards@),
                    command@,
                    command_name@,
                    key_list(keys),
                ),
                write_views(writes@) == plan.writes.take(i as int),
                sub_request_views(sub_requests@) == plan.request_info.sub_requests.take(i as int),
            decreases self.shards.len() - i,
        {
            let write = Write {
                shard_index: i,
                node_index: 0,
                asking: false,
                command: command.duplicate(),
            };
            let part = SubRequest { shard_index: i, node_index: 0, keys: KeyList::new() };
            proof {
                let parts = plan.request_info.sub_requests;
                assert(shard_views(self.shards@).len() == self.shards@.len());
                assert(plan.writes[i as int] == write@);
                assert(parts[i as int] == part@);
                assert(plan.writes.take(i + 1) =~= plan.writes.take(i as int).push(write@));
                assert(parts.take(i + 1) =~= parts.take(i as int).push(part@));
                assert(write_views(writes@.push(write)) =~= write_views(writes@).push(write@));
                assert(sub_request_views(sub_requests@.push(part)) =~= sub_request_views(
                    sub_requests@,
                ).push(part@));
            }
            writes.push(write);
            sub_requests.push(part);
            i = i + 1;
        }
        assert(plan.writes.take(self.shards.len() as int) =~= plan.writes);
        assert(plan.request_info.sub_requests.take(self.shards.len() as int)
            =~= plan.request_info.sub_requests);
        Dispatch {
            writes,
            request_info: RequestInfo { command_name: copy_bytes(command_name), keys, sub_requests },
        }
    }

    /// The command goes to every node, masters and replicas alike. The
    /// replicas have to be in the shard table before.
    pub fn request_policy_all_nodes(&self, command: &Command, command_name: &[u8], keys: KeyList)
        -> (r: Dispatch)
        ensures
            r@ == all_nodes_plan(
                shard_views(self.shards@),
                command@,
                command_name@,
                key_list(keys),
            ),
    {
        let ghost shards = shard_views(self.shards@);
        let ghost c = command@;
        let ghost to_write = |t: (int, int)|
            WriteView {
                shard_index: t.0 as usize,
                node_index: t.1 as usize,
                asking: false,
                command: c,
            };
        let ghost to_part = |t: (int, int)| bare_part(t.0, t.1);
        let mut writes: Vec<Write> = Vec::new();
        let mut sub_requests = SubRequestList::new();
        let mut shard_index: usize = 0;
        assert(write_views(writes@) =~= nodes_upto(shards, 0).map_values(to_write));
        assert(sub_request_views(sub_requests@) =~= nodes_upto(shards, 0).map_values(to_part));
        while shard_index < self.shards.len()
            invariant
                shard_index <= self.shards.len(),
                shards == shard_views(self.shards@),
                c == command@,
                to_write == (|t: (int, int)|
                    WriteView {
                        shard_index: t.0 as usize,
                        node_index: t.1 as usize,
                        asking: false,
                        command: c,
                    }),
                to_part == (|t: (int, int)| bare_part(t.0, t.1)),
                write_views(writes@) == nodes_upto(shards, shard_index as int).map_values(to_write),
                sub_request_views(sub_requests@) == nodes_upto(shards, shard_index as int).map_values(
                    to_part,
                ),
            decreases self.shards.len() - shard_index,
        {
            let count = self.shards[shard_index].nodes.len();
            let ghost before = nodes_upto(shards, shard_index as int);
            let ghost row = Seq::new(
                shards[shard_index as int].len(),
                |j: int| (shard_index as int, j),
            );
            assert(count == shards[shard_index as int].len());
            let mut node_index: usize = 0;
            assert(before + row.take(0) =~= before);
            while node_index < count
                invariant
                    node_index <= count,
                    count == row.len(),
                    shard_index < self.shards.len(),
                    c == command@,
                    row == Seq::new(row.len(), |j: int| (shard_index as int, j)),
                    to_write == (|t: (int, int)|
                        WriteView {
                            shard_index: t.0 as usize,
                            node_index: t.1 as usize,
                            asking: false,
                            command: c,
                        }),
                    to_part == (|t: (int, int)| bare_part(t.0, t.1)),
                    write_views(writes@) == (before + row.take(node_index as int)).map_values(
                        to_write,
                    ),
                    sub_request_views(sub_requests@) == (before + row.take(
                        node_index as int,
                    )).map_values(to_part),
                decreases count - node_index,
            {
                let write = Write {
                    shard_index,
                    node_index,
                    asking: false,
                    command: command.duplicate(),
                };
                let part = SubRequest { shard_index, node_index, keys: KeyList::new() };
                proof {
                    let grown = before + row.take(node_index + 1);
                    assert(grown =~= (before + row.take(node_index as int)).push(
                        (shard_index as int, node_index as int),
                    ));
                    let target = (shard_index as int, node_index as int);
                    assert(to_write(target) == write@);
                    assert(to_part(target) == part@);
                    assert(write_views(writes@.push(write)) =~= write_views(writes@).push(write@));
                    assert(sub_request_views(sub_requests@.push(part)) =~= sub_request_views(
                        sub_requests@,
                    ).push(part@));
                    assert(grown.map_values(to_write) =~= (before + row.take(
                        node_index as int,
                    )).map_values(to_write).push(write@));
                    assert(grown.map_values(to_part) =~= (before + row.take(
                        node_index as int,
                    )).map_values(to_part).push(part@));
                }
                writes.push(write);
                sub_requests.push(part);
                node_index = node_index + 1;
            }
            assert(row.take(count as int) =~= row);
            shard_index = shard_index + 1;
        }
        Dispatch {
            writes,
            request_info: RequestInfo { command_name: copy_bytes(command_name), keys, sub_requests },
        }
    }

    /// What a command without request policy comes to: it goes to the shard
    /// of the one slot of its keys, or, without keys, to the shard with
    /// index `pick`.
    pub fn no_request_policy(
        &self,
        command: &Command,
        command_name: &[u8],
        keys: KeyList,
        slots: &SlotList,
        ask_reasons: &Vec<AskReason>,
        pick: usize,
    ) -> (r: Result<Dispatch, Error>)
        requires
            self.well_formed(),
            slot_list(*slots) == slots_of(key_list(keys)),
        ensures
            match no_policy_plan(
                shard_views(self.shards@),
                self.slot_ranges@,
                ask_views(ask_reasons@),
                command@,
                command_name@,
                key_list(keys),
                pick,
            ) {
                Ok(plan) => r matches Ok(d) && d@ == plan,
                Err(e) => r matches Err(f) && f@ == e,
            },
    {
        if !same_slots(slots) {
            return Err(Error::CrossSlot(copy_bytes(command_name)));
        }
        let (shard_index, should_ask) = match slots.get(0) {
            None => (pick, false),
            Some(slot) => match self.get_shard_index_by_slot(slot, ask_reasons) {
                Some(target) => target,
                None => {
                    return Err(Error::ClusterMisconfiguration);
                },
            },
        };
        let mut writes: Vec<Write> = Vec::new();
        writes.push(
            Write { shard_index, node_index: 0, asking: should_ask, command: command.duplicate() },
        );
        let mut sub_requests = SubRequestList::new();
        sub_requests.push(SubRequest { shard_index, node_index: 0, keys: keys.duplicate() });
        let d = Dispatch {
            writes,
            request_info: RequestInfo { command_name: copy_bytes(command_name), keys, sub_requests },
        };
        proof {
            let plan = single_plan(
                shard_index,
                should_ask,
                command@,
                command_name@,
                key_list(keys),
            );
            assert(d@.writes =~= plan.writes);
            assert(d@.request_info.sub_requests =~= plan.request_info.sub_requests);
        }
        Ok(d)
    }

    /// A command with the policy `special` cannot be routed.
    pub fn request_policy_special(&self) -> (r: Error)
        ensures
            r@ == ErrorView::NotSupported,
    {
        Error::NotSupported
    }
}

} // verus!
