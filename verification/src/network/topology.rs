//! The shard table of a cluster and the index from slots to shards.

use vstd::prelude::*;
use crate::error::Error;
use crate::resp::text::copy_bytes;

verus! {

/// The highest slot of a cluster.
pub const LAST_SLOT: u16 = 16383;

/// One node of a shard.
#[derive(Debug, PartialEq, Eq)]
pub struct Node {
    /// The identity that the cluster gave the node.
    pub id: Vec<u8>,
    /// Host and port.
    pub address: (Vec<u8>, u16),
}

/// Mathematical form of a [`Node`].
pub struct NodeView {
    pub id: Seq<u8>,
    pub host: Seq<u8>,
    pub port: u16,
}

impl View for Node {
    type V = NodeView;

    open spec fn view(&self) -> NodeView {
        NodeView { id: self.id@, host: self.address.0@, port: self.address.1 }
    }
}

/// The views of a sequence of nodes.
pub open spec fn node_views(nodes: Seq<Node>) -> Seq<NodeView> {
    nodes.map_values(|n: Node| n@)
}

/// A shard: its master first, then its replicas as far as they are known.
#[derive(Debug, PartialEq, Eq)]
pub struct Shard {
    pub nodes: Vec<Node>,
}

impl View for Shard {
    type V = Seq<NodeView>;

    open spec fn view(&self) -> Seq<NodeView> {
        node_views(self.nodes@)
    }
}

/// The views of a sequence of shards.
pub open spec fn shard_views(shards: Seq<Shard>) -> Seq<Seq<NodeView>> {
    shards.map_values(|s: Shard| s@)
}

/// A range of slots and the shard that owns it.
#[derive(Clone, Copy, Debug, PartialEq, Eq)]
pub struct SlotRange {
    /// The lowest and the highest slot of the range.
    pub slot_range: (u16, u16),
    /// The index of the owning shard in the shard table.
    pub shard_index: usize,
}

/// What the cluster reports of one node.
#[derive(Debug, PartialEq, Eq)]
pub struct ClusterNodeResult {
    pub id: Vec<u8>,
    pub port: Option<u16>,
    pub tls_port: Option<u16>,
    pub ip: Vec<u8>,
    pub role: Vec<u8>,
}

/// Mathematical form of a [`ClusterNodeResult`].
pub struct ClusterNodeView {
    pub id: Seq<u8>,
    pub port: Option<u16>,
    pub tls_port: Option<u16>,
    pub ip: Seq<u8>,
    pub role: Seq<u8>,
}

impl View for ClusterNodeResult {
    type V = ClusterNodeView;

    open spec fn view(&self) -> ClusterNodeView {
        ClusterNodeView {
            id: self.id@,
            port: self.port,
            tls_port: self.tls_port,
            ip: self.ip@,
            role: self.role@,
        }
    }
}

/// What the cluster reports of one shard: its slot ranges and its nodes,
/// the master first.
#[derive(Debug, PartialEq, Eq)]
pub struct ClusterShardResult {
    pub slots: Vec<(u16, u16)>,
    pub nodes: Vec<ClusterNodeResult>,
}

/// Mathematical form of a [`ClusterShardResult`].
pub struct ClusterShardView {
    pub slots: Seq<(u16, u16)>,
    pub nodes: Seq<ClusterNodeView>,
}

impl View for ClusterShardResult {
    type V = ClusterShardView;

    open spec fn view(&self) -> ClusterShardView {
        ClusterShardView {
            slots: self.slots@,
            nodes: self.nodes@.map_values(|n: ClusterNodeResult| n@),
        }
    }
}

/// The views of a sequence of shard reports.
pub open spec fn report_views(infos: Seq<ClusterShardResult>) -> Seq<ClusterShardView> {
    infos.map_values(|s: ClusterShardResult| s@)
}

/// The port to connect to: the plain one or the TLS one, where exactly one
/// of the two is given.
pub open spec fn chosen_port(port: Option<u16>, tls_port: Option<u16>) -> Option<u16> {
    match (port, tls_port) {
        (None, Some(p)) => Some(p),
        (Some(p), None) => Some(p),
        _ => None,
    }
}

/// The port to connect to: the plain one or the TLS one, where exactly one
/// of the two is given.
pub fn select_port(port: Option<u16>, tls_port: Option<u16>) -> (r: Option<u16>)
    ensures
        r == chosen_port(port, tls_port),
{
    match (port, tls_port) {
        (None, Some(p)) => Some(p),
        (Some(p), None) => Some(p),
        _ => None,
    }
}

/// The report names a master that can be connected to.
pub open spec fn has_master(info: ClusterShardView) -> bool {
    info.nodes.len() > 0 && chosen_port(info.nodes[0].port, info.nodes[0].tls_port) is Some
}

/// The master of a report, as a node of the shard table.
pub open spec fn master_of(info: ClusterShardView) -> NodeView {
    NodeView {
        id: info.nodes[0].id,
        host: info.nodes[0].ip,
        port: chosen_port(info.nodes[0].port, info.nodes[0].tls_port).unwrap(),
    }
}

/// The slot ranges of one report, each with the index of its shard.
pub open spec fn ranges_of(slots: Seq<(u16, u16)>, shard_index: usize) -> Seq<SlotRange> {
    slots.map_values(|s: (u16, u16)| SlotRange { slot_range: s, shard_index })
}

/// The slot ranges of the first `n` reports, in the order reported.
pub open spec fn reported_ranges(infos: Seq<ClusterShardView>, n: int) -> Seq<SlotRange>
    decreases n,
{
    if n <= 0 {
        Seq::empty()
    } else {
        reported_ranges(infos, n - 1) + ranges_of(infos[n - 1].slots, (n - 1) as usize)
    }
}

/// `sorted` with `r` put after the last range that does not start above it.
pub open spec fn insert_by_low(sorted: Seq<SlotRange>, r: SlotRange) -> Seq<SlotRange>
    decreases sorted.len(),
{
    if sorted.len() == 0 {
        seq![r]
    } else if sorted.last().slot_range.0 <= r.slot_range.0 {
        sorted.push(r)
    } else {
        insert_by_low(sorted.drop_last(), r).push(sorted.last())
    }
}

/// The ranges sorted by their lowest slot; ranges with the same lowest slot
/// keep their order.
pub open spec fn sort_by_low(ranges: Seq<SlotRange>) -> Seq<SlotRange>
    decreases ranges.len(),
{
    if ranges.len() == 0 {
        Seq::empty()
    } else {
        insert_by_low(sort_by_low(ranges.drop_last()), ranges.last())
    }
}

/// The ranges start in ascending order.
pub open spec fn sorted_by_low(ranges: Seq<SlotRange>) -> bool {
    forall|i: int, j: int|
        0 <= i <= j < ranges.len() ==> (#[trigger] ranges[i]).slot_range.0 <= (
        #[trigger] ranges[j]).slot_range.0
}

/// The ranges, in order, tile the slots from 0 to 16383: the first starts at
/// 0, each next one starts right after the one before, and the last ends at
/// 16383.
pub open spec fn exact_cover(ranges: Seq<SlotRange>) -> bool {
    &&& ranges.len() > 0
    &&& ranges[0].slot_range.0 == 0
    &&& ranges.last().slot_range.1 == LAST_SLOT
    &&& forall|i: int|
        0 <= i < ranges.len() ==> (#[trigger] ranges[i]).slot_range.0 <= ranges[i].slot_range.1
    &&& forall|i: int|
        0 <= i < ranges.len() - 1 ==> (#[trigger] ranges[i]).slot_range.1 + 1 == ranges[i
            + 1].slot_range.0
}

/// The range holds the slot.
pub open spec fn holds_slot(r: SlotRange, slot: u16) -> bool {
    r.slot_range.0 <= slot <= r.slot_range.1
}

/// Some range holds the slot.
pub open spec fn covered(ranges: Seq<SlotRange>, slot: u16) -> bool {
    exists|i: int| 0 <= i < ranges.len() && holds_slot(#[trigger] ranges[i], slot)
}

/// In an exact cover a later range lies wholly above an earlier one.
pub proof fn lemma_cover_ascends(ranges: Seq<SlotRange>, i: int, j: int)
    requires
        exact_cover(ranges),
        0 <= i < j < ranges.len(),
    ensures
        ranges[i].slot_range.1 < ranges[j].slot_range.0,
    decreases j - i,
{
    if i + 1 < j {
        lemma_cover_ascends(ranges, i, j - 1);
        assert(ranges[j - 1].slot_range.1 + 1 == ranges[j].slot_range.0);
        assert(ranges[j - 1].slot_range.0 <= ranges[j - 1].slot_range.1);
    } else {
        assert(ranges[i].slot_range.1 + 1 == ranges[j].slot_range.0);
    }
}

/// In an exact cover, the ranges up to index `k` hold every slot up to the
/// end of range `k`.
proof fn lemma_cover_reaches(ranges: Seq<SlotRange>, slot: u16, k: int)
    requires
        exact_cover(ranges),
        0 <= k < ranges.len(),
        slot <= ranges[k].slot_range.1,
    ensures
        exists|i: int| 0 <= i <= k && holds_slot(#[trigger] ranges[i], slot),
    decreases k,
{
    if ranges[k].slot_range.0 <= slot {
        assert(holds_slot(ranges[k], slot));
    } else {
        assert(k > 0);
        assert(ranges[k - 1].slot_range.1 + 1 == ranges[k].slot_range.0);
        lemma_cover_reaches(ranges, slot, k - 1);
    }
}

/// An exact cover is a total cover of the slots 0 to 16383 without
/// overlap: every slot lies in one range and in no other, and no range
/// reaches beyond the last slot.
pub proof fn lemma_cover_is_total(ranges: Seq<SlotRange>)
    requires
        exact_cover(ranges),
    ensures
        forall|slot: u16| slot <= LAST_SLOT ==> #[trigger] covered(ranges, slot),
        forall|slot: u16, i: int, j: int|
            0 <= i < ranges.len() && 0 <= j < ranges.len() && #[trigger] holds_slot(
                ranges[i],
                slot,
            ) && #[trigger] holds_slot(ranges[j], slot) ==> i == j,
        forall|i: int| 0 <= i < ranges.len() ==> (#[trigger] ranges[i]).slot_range.1 <= LAST_SLOT,
{
    assert forall|slot: u16| slot <= LAST_SLOT implies #[trigger] covered(ranges, slot) by {
        lemma_cover_reaches(ranges, slot, ranges.len() - 1);
    }
    assert forall|slot: u16, i: int, j: int|
        0 <= i < ranges.len() && 0 <= j < ranges.len() && #[trigger] holds_slot(ranges[i], slot)
            && #[trigger] holds_slot(ranges[j], slot) implies i == j by {
        if i < j {
            lemma_cover_ascends(ranges, i, j);
        } else if j < i {
            lemma_cover_ascends(ranges, j, i);
        }
    }
    assert forall|i: int| 0 <= i < ranges.len() implies (#[trigger] ranges[i]).slot_range.1
        <= LAST_SLOT by {
        if i < ranges.len() - 1 {
            lemma_cover_ascends(ranges, i, ranges.len() - 1);
            assert(ranges[ranges.len() - 1].slot_range.0 <= ranges[ranges.len() - 1].slot_range.1);
        }
    }
}

/// Inserting by lowest slot puts the range at the place after which every
/// range starts above it.
proof fn lemma_insert_at(sorted: Seq<SlotRange>, r: SlotRange, at: int)
    requires
        0 <= at <= sorted.len(),
        at > 0 ==> sorted[at - 1].slot_range.0 <= r.slot_range.0,
        forall|i: int| at <= i < sorted.len() ==> sorted[i].slot_range.0 > r.slot_range.0,
    ensures
        insert_by_low(sorted, r) == sorted.insert(at, r),
    decreases sorted.len() - at,
{
    if at == sorted.len() {
        if sorted.len() > 0 {
            assert(sorted.insert(at, r) =~= sorted.push(r));
        } else {
            assert(sorted.insert(at, r) =~= seq![r]);
        }
    } else {
        lemma_insert_at(sorted.drop_last(), r, at);
        assert(sorted.drop_last().insert(at, r).push(sorted.last()) =~= sorted.insert(at, r));
    }
}

/// Inserting by lowest slot keeps an ascending order and adds the range to
/// those that were there.
pub proof fn lemma_insert_sorted(sorted: Seq<SlotRange>, r: SlotRange)
    requires
        sorted_by_low(sorted),
    ensures
        sorted_by_low(insert_by_low(sorted, r)),
        insert_by_low(sorted, r).to_multiset() == sorted.to_multiset().insert(r),
        insert_by_low(sorted, r).len() == sorted.len() + 1,
    decreases sorted.len(),
{
    broadcast use vstd::multiset::group_multiset_axioms;

    if sorted.len() == 0 {
        assert(seq![r] =~= sorted.push(r));
        vstd::seq_lib::to_multiset_build(sorted, r);
    } else if sorted.last().slot_range.0 <= r.slot_range.0 {
        let out = sorted.push(r);
        vstd::seq_lib::to_multiset_build(sorted, r);
        assert forall|i: int, j: int| 0 <= i <= j < out.len() implies (
        #[trigger] out[i]).slot_range.0 <= (#[trigger] out[j]).slot_range.0 by {
            if j == sorted.len() {
                if i < sorted.len() {
                    assert(sorted[i].slot_range.0 <= sorted[sorted.len() - 1].slot_range.0);
                }
            } else {
                assert(sorted[i].slot_range.0 <= sorted[j].slot_range.0);
            }
        }
    } else {
        let front = sorted.drop_last();
        assert forall|i: int, j: int| 0 <= i <= j < front.len() implies (
        #[trigger] front[i]).slot_range.0 <= (#[trigger] front[j]).slot_range.0 by {
            assert(sorted[i].slot_range.0 <= sorted[j].slot_range.0);
        }
        lemma_insert_sorted(front, r);
        let inner = insert_by_low(front, r);
        let out = inner.push(sorted.last());
        assert(sorted =~= front.push(sorted.last()));
        vstd::seq_lib::to_multiset_build(inner, sorted.last());
        vstd::seq_lib::to_multiset_build(front, sorted.last());
        assert(out.to_multiset() =~= sorted.to_multiset().insert(r));
        assert forall|k: int| 0 <= k < inner.len() implies (#[trigger] inner[k]).slot_range.0
            <= sorted.last().slot_range.0 by {
            vstd::seq_lib::to_multiset_contains(inner, inner[k]);
            vstd::seq_lib::to_multiset_contains(front, inner[k]);
            if inner[k] != r {
                assert(front.contains(inner[k]));
                let w = choose|w: int| 0 <= w < front.len() && front[w] == inner[k];
                assert(sorted[w].slot_range.0 <= sorted[sorted.len() - 1].slot_range.0);
            }
        }
        assert forall|i: int, j: int| 0 <= i <= j < out.len() implies (
        #[trigger] out[i]).slot_range.0 <= (#[trigger] out[j]).slot_range.0 by {
            if j < inner.len() {
                assert(inner[i].slot_range.0 <= inner[j].slot_range.0);
            } else if i < inner.len() {
                assert(inner[i].slot_range.0 <= sorted.last().slot_range.0);
            }
        }
    }
}

/// Sorting by lowest slot gives the same ranges in ascending order.
pub proof fn lemma_sort_by_low(ranges: Seq<SlotRange>)
    ensures
        sorted_by_low(sort_by_low(ranges)),
        sort_by_low(ranges).to_multiset() == ranges.to_multiset(),
        sort_by_low(ranges).len() == ranges.len(),
    decreases ranges.len(),
{
    if ranges.len() > 0 {
        lemma_sort_by_low(ranges.drop_last());
        lemma_insert_sorted(sort_by_low(ranges.drop_last()), ranges.last());
        assert(ranges =~= ranges.drop_last().push(ranges.last()));
        vstd::seq_lib::to_multiset_build(ranges.drop_last(), ranges.last());
    } else {
        assert(ranges =~= Seq::<SlotRange>::empty());
    }
}

/// Puts `r` into `sorted` after the last range that does not start above
/// it.
pub fn insert_range(sorted: &mut Vec<SlotRange>, r: SlotRange)
    ensures
        final(sorted)@ == insert_by_low(old(sorted)@, r),
{
    let mut at: usize = sorted.len();
    while at > 0 && sorted[at - 1].slot_range.0 > r.slot_range.0
        invariant
            at <= sorted.len(),
            sorted@ == old(sorted)@,
            forall|i: int| at <= i < sorted.len() ==> sorted@[i].slot_range.0 > r.slot_range.0,
        decreases at,
    {
        at = at - 1;
    }
    proof {
        lemma_insert_at(sorted@, r, at as int);
    }
    sorted.insert(at, r);
}

/// Whether the ranges, in order, tile the slots from 0 to 16383.
pub fn is_exact_cover(ranges: &Vec<SlotRange>) -> (r: bool)
    ensures
        r == exact_cover(ranges@),
{
    let n = ranges.len();
    if n == 0 {
        return false;
    }
    if ranges[0].slot_range.0 != 0 || ranges[n - 1].slot_range.1 != LAST_SLOT {
        return false;
    }
    let mut i: usize = 0;
    while i < n
        invariant
            i <= n,
            n == ranges@.len(),
            forall|k: int|
                0 <= k < i ==> (#[trigger] ranges@[k]).slot_range.0 <= ranges@[k].slot_range.1,
            forall|k: int|
                0 <= k < i && k < n - 1 ==> (#[trigger] ranges@[k]).slot_range.1 + 1 == ranges@[k
                    + 1].slot_range.0,
        decreases n - i,
    {
        let current = ranges[i];
        if current.slot_range.0 > current.slot_range.1 {
            return false;
        }
        if i + 1 < n {
            let next = ranges[i + 1];
            if current.slot_range.1 == u16::MAX || current.slot_range.1 + 1 != next.slot_range.0 {
                return false;
            }
        }
        i = i + 1;
    }
    true
}

/// The masters of the first `n` reports, one shard each.
pub open spec fn master_shards(infos: Seq<ClusterShardView>, n: int) -> Seq<Seq<NodeView>> {
    Seq::new(n as nat, |i: int| seq![master_of(infos[i])])
}

/// Every one of the reports names a master that can be connected to.
pub open spec fn all_have_master(infos: Seq<ClusterShardView>) -> bool {
    forall|i: int| 0 <= i < infos.len() ==> has_master(#[trigger] infos[i])
}

/// The shard table and the slot index that the reports of the cluster give.
///
/// Each shard starts with its master alone. The slot index holds the
/// reported ranges sorted by their lowest slot. The reports are refused
/// where one names no master, where a master has no port or two, and where
/// the sorted ranges do not tile the slots from 0 to 16383.
pub fn shard_table(shard_info_list: &Vec<ClusterShardResult>) -> (r: Result<
    (Vec<Shard>, Vec<SlotRange>),
    Error,
>)
    ensures
        ({
            let infos = report_views(shard_info_list@);
            let ranges = sort_by_low(reported_ranges(infos, infos.len() as int));
            match r {
                Ok((shards, slot_ranges)) => {
                    &&& all_have_master(infos)
                    &&& shard_views(shards@) == master_shards(infos, infos.len() as int)
                    &&& slot_ranges@ == ranges
                    &&& exact_cover(slot_ranges@)
                    &&& forall|i: int|
                        0 <= i < slot_ranges@.len() ==> (#[trigger] slot_ranges@[i]).shard_index
                            < shards@.len()
                    &&& forall|i: int| 0 <= i < shards@.len() ==> (#[trigger] shards@[i])@.len() == 1
                },
                Err(e) => e is ClusterMisconfiguration && !(all_have_master(infos) && exact_cover(
                    ranges,
                )),
            }
        }),
{
    let ghost infos = report_views(shard_info_list@);
    let mut shards: Vec<Shard> = Vec::new();
    let mut slot_ranges: Vec<SlotRange> = Vec::new();
    let mut shard_index: usize = 0;
    assert(shard_views(shards@) =~= master_shards(infos, 0));
    while shard_index < shard_info_list.len()
        invariant
            shard_index <= shard_info_list.len(),
            infos == report_views(shard_info_list@),
            forall|i: int| 0 <= i < shard_index ==> has_master(#[trigger] infos[i]),
            shard_views(shards@) == master_shards(infos, shard_index as int),
            shards@.len() == shard_index,
            forall|i: int| 0 <= i < shards@.len() ==> (#[trigger] shards@[i])@.len() == 1,
            slot_ranges@ == sort_by_low(reported_ranges(infos, shard_index as int)),
            forall|i: int|
                0 <= i < slot_ranges@.len() ==> (#[trigger] slot_ranges@[i]).shard_index
                    < shard_index,
        decreases shard_info_list.len() - shard_index,
    {
        let shard_info = &shard_info_list[shard_index];
        assert(infos[shard_index as int] == shard_info@);
        if shard_info.nodes.len() == 0 {
            return Err(Error::ClusterMisconfiguration);
        }
        let master_info = &shard_info.nodes[0];
        assert(shard_info@.nodes[0] == master_info@);
        let port = match select_port(master_info.port, master_info.tls_port) {
            Some(port) => port,
            None => {
                return Err(Error::ClusterMisconfiguration);
            },
        };
        let node = Node {
            id: copy_bytes(master_info.id.as_slice()),
            address: (copy_bytes(master_info.ip.as_slice()), port),
        };
        assert(node@ == master_of(infos[shard_index as int]));
        let mut nodes: Vec<Node> = Vec::new();
        nodes.push(node);
        let shard = Shard { nodes };
        assert(shard@ =~= seq![master_of(infos[shard_index as int])]);
        proof {
            let grown = shard_views(shards@.push(shard));
            let wanted = master_shards(infos, shard_index + 1);
            assert forall|i: int| 0 <= i < grown.len() implies grown[i] == wanted[i] by {
                if i < shard_index {
                    assert(shard_views(shards@)[i] == master_shards(infos, shard_index as int)[i]);
                }
            }
            assert(grown =~= wanted);
        }
        shards.push(shard);
        let ghost before = reported_ranges(infos, shard_index as int);
        let mut k: usize = 0;
        assert(before + ranges_of(shard_info@.slots, shard_index).take(0) =~= before);
        while k < shard_info.slots.len()
            invariant
                k <= shard_info.slots.len(),
                shard_index < shard_info_list.len(),
                slot_ranges@ == sort_by_low(
                    before + ranges_of(shard_info@.slots, shard_index).take(k as int),
                ),
                forall|i: int|
                    0 <= i < slot_ranges@.len() ==> (#[trigger] slot_ranges@[i]).shard_index
                        <= shard_index,
            decreases shard_info.slots.len() - k,
        {
            let r = SlotRange { slot_range: shard_info.slots[k], shard_index };
            let ghost done = before + ranges_of(shard_info@.slots, shard_index).take(k as int);
            let ghost more = before + ranges_of(shard_info@.slots, shard_index).take(k + 1);
            proof {
                assert(more =~= done.push(r));
                assert(more.drop_last() =~= done);
                lemma_sort_by_low(done);
                lemma_insert_sorted(sort_by_low(done), r);
                let grown = insert_by_low(slot_ranges@, r);
                assert forall|i: int| 0 <= i < grown.len() implies (
                #[trigger] grown[i]).shard_index <= shard_index by {
                    vstd::seq_lib::to_multiset_contains(grown, grown[i]);
                    vstd::seq_lib::to_multiset_contains(slot_ranges@, grown[i]);
                    if grown[i] != r {
                        assert(slot_ranges@.contains(grown[i]));
                    }
                }
            }
            insert_range(&mut slot_ranges, r);
            k = k + 1;
        }
        proof {
            assert(ranges_of(shard_info@.slots, shard_index).take(shard_info.slots.len() as int)
                =~= ranges_of(shard_info@.slots, shard_index));
        }
        shard_index = shard_index + 1;
    }
    if !is_exact_cover(&slot_ranges) {
        return Err(Error::ClusterMisconfiguration);
    }
    Ok((shards, slot_ranges))
}

} // verus!
