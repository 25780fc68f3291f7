//! The request policy `multi_shard`: the keys of a command are sent out
//! shard by shard, each key to the shard that its slot is routed to.

use vstd::prelude::*;
use crate::commands::command_info::CommandInfoView;
use crate::commands::command_info_manager::{
    info_for, key_position, key_span, segments, shard_command, words, KeySpan,
};
use crate::error::{Error, ErrorView};
use crate::network::cluster_connection::{
    ask_views, route, sub_request_views, write_views, AskReason, AskReasonView, ClusterConnection,
    Dispatch, DispatchView, RequestInfo, SubRequest, SubRequestList, SubRequestView, Write,
    WriteView,
};
use crate::network::hash_slot::{key_list, slot_list, slot_of, slots_of, KeyList, SlotList};
use crate::network::request_policy::single_plan;
use crate::network::topology::{shard_views, NodeView, SlotRange};
use crate::resp::command::{Command, CommandView};
use crate::resp::text::copy_bytes;

verus! {

/// The keys of the parts of a request, part by part.
pub open spec fn all_keys(parts: Seq<SubRequestView>) -> Seq<Seq<u8>>
    decreases parts.len(),
{
    if parts.len() == 0 {
        Seq::empty()
    } else {
        all_keys(parts.drop_last()) + parts.last().keys
    }
}

/// The command rewritten for some of its keys by the catalog.
pub open spec fn rewritten(catalog: Seq<CommandInfoView>, c: CommandView, keys: Seq<Seq<u8>>)
    -> Result<CommandView, ErrorView> {
    match info_for(catalog, c) {
        None => Err(ErrorView::UnknownCommand(c.name)),
        Some(info) => shard_command(info, c, keys),
    }
}

/// Where a key goes: the shard that its slot is routed to, and whether
/// `ASKING` goes before the command.
pub open spec fn target_of(
    shards: Seq<Seq<NodeView>>,
    ranges: Seq<SlotRange>,
    asks: Seq<AskReasonView>,
    key: Seq<u8>,
) -> Option<(usize, bool)> {
    route(shards, ranges, asks, slot_of(key))
}

/// The keys that go to the given target, in the order in which the request
/// has them. A key whose slot is redirected goes with `ASKING`, so it is
/// never among the keys that go to the same shard without it.
pub open spec fn routed_to(
    shards: Seq<Seq<NodeView>>,
    ranges: Seq<SlotRange>,
    asks: Seq<AskReasonView>,
    keys: Seq<Seq<u8>>,
    target: (usize, bool),
) -> Seq<Seq<u8>>
    decreases keys.len(),
{
    if keys.len() == 0 {
        Seq::empty()
    } else {
        let front = routed_to(shards, ranges, asks, keys.drop_last(), target);
        if target_of(shards, ranges, asks, keys.last()) == Some(target) {
            front.push(keys.last())
        } else {
            front
        }
    }
}

/// The target of a write: its shard, and whether `ASKING` goes before it.
pub open spec fn write_target(write: WriteView) -> (usize, bool) {
    (write.shard_index, write.asking)
}

/// Write `a` goes to an earlier shard than write `b`, or to the same shard
/// without `ASKING` while `b` goes with it.
pub open spec fn target_before(a: WriteView, b: WriteView) -> bool {
    a.shard_index < b.shard_index || (a.shard_index == b.shard_index && !a.asking && b.asking)
}

/// One part of a multi-shard request and its write. The part goes to the
/// master of one shard. It carries all the keys of the request that are
/// routed to that shard without `ASKING`, or all those that are routed to it
/// with `ASKING`, in the order of the request; there is at least one. The
/// command written is the command rewritten for the keys of the part.
pub open spec fn part_ok(
    shards: Seq<Seq<NodeView>>,
    ranges: Seq<SlotRange>,
    asks: Seq<AskReasonView>,
    catalog: Seq<CommandInfoView>,
    c: CommandView,
    keys: Seq<Seq<u8>>,
    part: SubRequestView,
    write: WriteView,
) -> bool {
    &&& part.keys.len() > 0
    &&& part.node_index == 0
    &&& write.shard_index == part.shard_index
    &&& write.node_index == 0
    &&& part.keys == routed_to(shards, ranges, asks, keys, write_target(write))
    &&& rewritten(catalog, c, part.keys) == Ok::<CommandView, ErrorView>(write.command)
}

/// What the policy `multi_shard` makes of a command with keys: one part and
/// one write for each shard that a key goes to, and a second one for a shard
/// that keys go to both without and with `ASKING`. The parts stand in the
/// order of the shards, the part without `ASKING` first. The keys of the
/// parts together are the keys of the command, each as often as it was
/// given.
pub open spec fn multi_shard_plan(
    shards: Seq<Seq<NodeView>>,
    ranges: Seq<SlotRange>,
    asks: Seq<AskReasonView>,
    catalog: Seq<CommandInfoView>,
    c: CommandView,
    command_name: Seq<u8>,
    keys: Seq<Seq<u8>>,
    d: DispatchView,
) -> bool {
    let parts = d.request_info.sub_requests;
    &&& d.request_info.command_name == command_name
    &&& d.request_info.keys == keys
    &&& d.writes.len() == parts.len()
    &&& all_keys(parts).to_multiset() == keys.to_multiset()
    &&& forall|j: int|
        0 <= j < parts.len() ==> part_ok(
            shards,
            ranges,
            asks,
            catalog,
            c,
            keys,
            #[trigger] parts[j],
            d.writes[j],
        )
    &&& forall|j: int, k: int|
        0 <= j < k < parts.len() ==> target_before(#[trigger] d.writes[j], #[trigger] d.writes[k])
}

/// One of the keys is of a slot that is redirected to an address that no
/// shard has.
pub open spec fn unroutable(
    shards: Seq<Seq<NodeView>>,
    ranges: Seq<SlotRange>,
    asks: Seq<AskReasonView>,
    keys: Seq<Seq<u8>>,
) -> bool {
    exists|i: int|
        0 <= i < keys.len() && route(shards, ranges, asks, slot_of(#[trigger] keys[i])) is None
}

/// What the policy `multi_shard` comes to. It fails where a key cannot be
/// routed and where the catalog cannot rewrite the command for its keys. A
/// command without keys goes, rewritten without keys, to the first shard.
pub open spec fn multi_shard_outcome(
    shards: Seq<Seq<NodeView>>,
    ranges: Seq<SlotRange>,
    asks: Seq<AskReasonView>,
    catalog: Seq<CommandInfoView>,
    c: CommandView,
    command_name: Seq<u8>,
    keys: Seq<Seq<u8>>,
    r: Result<DispatchView, ErrorView>,
) -> bool {
    if unroutable(shards, ranges, asks, keys) {
        r == Err::<DispatchView, ErrorView>(ErrorView::ClusterMisconfiguration)
    } else {
        match rewritten(catalog, c, keys) {
            Err(e) => r == Err::<DispatchView, ErrorView>(e),
            Ok(whole) => r matches Ok(d) && if keys.len() == 0 {
                d == single_plan(0, false, whole, command_name, keys)
            } else {
                multi_shard_plan(shards, ranges, asks, catalog, c, command_name, keys, d)
            },
        }
    }
}

/// The keys with which the command can be rewritten are those that stand at
/// one of its key positions.
pub proof fn lemma_segments_some(
    argv: Seq<Seq<u8>>,
    keys: Seq<Seq<u8>>,
    first: int,
    last: int,
    step: int,
)
    ensures
        segments(argv, keys, first, last, step) is Some <==> forall|i: int|
            0 <= i < keys.len() ==> key_position(argv, #[trigger] keys[i], first, last, step)
                is Some,
    decreases keys.len(),
{
    if keys.len() > 0 {
        lemma_segments_some(argv, keys.drop_last(), first, last, step);
        if segments(argv, keys, first, last, step) is Some {
            assert forall|i: int| 0 <= i < keys.len() implies key_position(
                argv,
                #[trigger] keys[i],
                first,
                last,
                step,
            ) is Some by {
                if i < keys.len() - 1 {
                    assert(keys.drop_last()[i] == keys[i]);
                }
            }
        }
        if forall|i: int|
            0 <= i < keys.len() ==> key_position(argv, #[trigger] keys[i], first, last, step)
                is Some {
            assert forall|i: int| 0 <= i < keys.drop_last().len() implies key_position(
                argv,
                #[trigger] keys.drop_last()[i],
                first,
                last,
                step,
            ) is Some by {
                assert(keys.drop_last()[i] == keys[i]);
            }
            assert(key_position(argv, keys[keys.len() - 1], first, last, step) is Some);
        }
    }
}

/// A command that can be rewritten for all its keys can be rewritten for
/// any of them.
pub proof fn lemma_rewritable_part(
    catalog: Seq<CommandInfoView>,
    c: CommandView,
    keys: Seq<Seq<u8>>,
    part: Seq<Seq<u8>>,
)
    requires
        rewritten(catalog, c, keys) is Ok,
        keys.len() > 0,
        forall|m: int| 0 <= m < part.len() ==> keys.contains(#[trigger] part[m]),
    ensures
        rewritten(catalog, c, part) is Ok,
{
    let info = info_for(catalog, c).unwrap();
    let argv = words(c);
    match key_span(info.key_specifications[0], argv) {
        KeySpan::Span { first, last, step } => {
            lemma_segments_some(argv, keys, first, last, step);
            lemma_segments_some(argv, part, first, last, step);
            assert forall|m: int| 0 <= m < part.len() implies key_position(
                argv,
                #[trigger] part[m],
                first,
                last,
                step,
            ) is Some by {
                assert(keys.contains(part[m]));
                let k = choose|k: int| 0 <= k < keys.len() && keys[k] == part[m];
                assert(key_position(argv, keys[k], first, last, step) is Some);
            }
        },
        _ => {},
    }
}

/// The keys of the parts with one more part at their end.
pub proof fn lemma_all_keys_push(parts: Seq<SubRequestView>, last: SubRequestView)
    ensures
        all_keys(parts.push(last)) == all_keys(parts) + last.keys,
{
    assert(parts.push(last).drop_last() =~= parts);
}

/// The place of a target in the order of the parts; -1 for no target.
pub open spec fn rank(target: Option<(usize, bool)>) -> int {
    match target {
        Some((shard_index, asking)) => 2 * shard_index + if asking {
            1int
        } else {
            0int
        },
        None => -1,
    }
}

/// The keys that go to a target of a rank below `r`, in the order of the
/// request.
pub open spec fn routed_below(
    shards: Seq<Seq<NodeView>>,
    ranges: Seq<SlotRange>,
    asks: Seq<AskReasonView>,
    keys: Seq<Seq<u8>>,
    r: int,
) -> Seq<Seq<u8>>
    decreases keys.len(),
{
    if keys.len() == 0 {
        Seq::empty()
    } else {
        let front = routed_below(shards, ranges, asks, keys.drop_last(), r);
        if 0 <= rank(target_of(shards, ranges, asks, keys.last())) < r {
            front.push(keys.last())
        } else {
            front
        }
    }
}

/// The keys below the next rank are those below the rank and those of the
/// target with that rank, each as often as it was given.
pub proof fn lemma_routed_step(
    shards: Seq<Seq<NodeView>>,
    ranges: Seq<SlotRange>,
    asks: Seq<AskReasonView>,
    keys: Seq<Seq<u8>>,
    target: (usize, bool),
)
    ensures
        routed_below(shards, ranges, asks, keys, rank(Some(target)) + 1).to_multiset() == (
        routed_below(shards, ranges, asks, keys, rank(Some(target))) + routed_to(
            shards,
            ranges,
            asks,
            keys,
            target,
        )).to_multiset(),
    decreases keys.len(),
{
    broadcast use vstd::multiset::group_multiset_axioms;

    let r = rank(Some(target));
    let below = routed_below(shards, ranges, asks, keys, r);
    let next = routed_below(shards, ranges, asks, keys, r + 1);
    let here = routed_to(shards, ranges, asks, keys, target);
    if keys.len() == 0 {
        assert(below + here =~= next);
    } else {
        let front = keys.drop_last();
        let k = keys.last();
        lemma_routed_step(shards, ranges, asks, front, target);
        let below0 = routed_below(shards, ranges, asks, front, r);
        let next0 = routed_below(shards, ranges, asks, front, r + 1);
        let here0 = routed_to(shards, ranges, asks, front, target);
        let rk = rank(target_of(shards, ranges, asks, k));
        vstd::seq_lib::lemma_multiset_commutative(below0, here0);
        vstd::seq_lib::lemma_multiset_commutative(below, here);
        if 0 <= rk < r {
            vstd::seq_lib::to_multiset_build(next0, k);
            vstd::seq_lib::to_multiset_build(below0, k);
            assert(target_of(shards, ranges, asks, k) != Some(target));
            assert(next.to_multiset() =~= (below + here).to_multiset());
        } else if rk == r {
            assert(target_of(shards, ranges, asks, k) == Some(target));
            vstd::seq_lib::to_multiset_build(next0, k);
            vstd::seq_lib::to_multiset_build(here0, k);
            assert(next.to_multiset() =~= (below + here).to_multiset());
        } else {
            assert(target_of(shards, ranges, asks, k) != Some(target));
        }
    }
}

/// No key goes to a target of a rank below 0.
pub proof fn lemma_routed_none(
    shards: Seq<Seq<NodeView>>,
    ranges: Seq<SlotRange>,
    asks: Seq<AskReasonView>,
    keys: Seq<Seq<u8>>,
)
    ensures
        routed_below(shards, ranges, asks, keys, 0) == Seq::<Seq<u8>>::empty(),
    decreases keys.len(),
{
    if keys.len() > 0 {
        lemma_routed_none(shards, ranges, asks, keys.drop_last());
    }
}

/// Where every key goes to a target of a rank below `r`, the keys below `r`
/// are all the keys.
pub proof fn lemma_routed_all(
    shards: Seq<Seq<NodeView>>,
    ranges: Seq<SlotRange>,
    asks: Seq<AskReasonView>,
    keys: Seq<Seq<u8>>,
    r: int,
)
    requires
        forall|i: int|
            0 <= i < keys.len() ==> 0 <= rank(target_of(shards, ranges, asks, #[trigger] keys[i]))
                < r,
    ensures
        routed_below(shards, ranges, asks, keys, r) == keys,
    decreases keys.len(),
{
    if keys.len() > 0 {
        let front = keys.drop_last();
        assert forall|i: int| 0 <= i < front.len() implies 0 <= rank(
            target_of(shards, ranges, asks, #[trigger] front[i]),
        ) < r by {
            assert(front[i] == keys[i]);
        }
        lemma_routed_all(shards, ranges, asks, front, r);
        assert(0 <= rank(target_of(shards, ranges, asks, keys[keys.len() - 1])) < r);
        assert(front.push(keys.last()) =~= keys);
    } else {
        assert(routed_below(shards, ranges, asks, keys, r) =~= keys);
    }
}

/// The keys that go to a target are keys of the request.
pub proof fn lemma_routed_contained(
    shards: Seq<Seq<NodeView>>,
    ranges: Seq<SlotRange>,
    asks: Seq<AskReasonView>,
    keys: Seq<Seq<u8>>,
    target: (usize, bool),
)
    ensures
        forall|m: int|
            0 <= m < routed_to(shards, ranges, asks, keys, target).len() ==> keys.contains(
                #[trigger] routed_to(shards, ranges, asks, keys, target)[m],
            ),
    decreases keys.len(),
{
    if keys.len() > 0 {
        let front = keys.drop_last();
        lemma_routed_contained(shards, ranges, asks, front, target);
        let here0 = routed_to(shards, ranges, asks, front, target);
        let here = routed_to(shards, ranges, asks, keys, target);
        assert forall|m: int| 0 <= m < here.len() implies keys.contains(#[trigger] here[m]) by {
            if m < here0.len() {
                assert(here[m] == here0[m]);
                assert(front.contains(here0[m]));
                let at = choose|at: int| 0 <= at < front.len() && front[at] == here0[m];
                assert(keys[at] == here[m]);
            } else {
                assert(here[m] == keys[keys.len() - 1]);
            }
        }
    }
}

/// The targets of keys, one for each key.
pub open spec fn targets_fit(
    shards: Seq<Seq<NodeView>>,
    ranges: Seq<SlotRange>,
    asks: Seq<AskReasonView>,
    keys: Seq<Seq<u8>>,
    targets: Seq<(usize, bool)>,
) -> bool {
    &&& targets.len() == keys.len()
    &&& forall|i: int|
        0 <= i < keys.len() ==> target_of(shards, ranges, asks, #[trigger] keys[i]) == Some(
            targets[i],
        ) && targets[i].0 < shards.len()
}

impl ClusterConnection {
    /// Where each of the keys goes: `None` where one of them cannot be
    /// routed.
    fn targets_of(&self, keys: &KeyList, slots: &SlotList, ask_reasons: &Vec<AskReason>) -> (r:
        Option<Vec<(usize, bool)>>)
        requires
            self.well_formed(),
            slot_list(*slots) == slots_of(key_list(*keys)),
        ensures
            ({
                let shards = shard_views(self.shards@);
                let asks = ask_views(ask_reasons@);
                match r {
                    None => unroutable(shards, self.slot_ranges@, asks, key_list(*keys)),
                    Some(targets) => !unroutable(shards, self.slot_ranges@, asks, key_list(*keys))
                        && targets_fit(shards, self.slot_ranges@, asks, key_list(*keys), targets@),
                }
            }),
    {
        let ghost shards = shard_views(self.shards@);
        let ghost asks = ask_views(ask_reasons@);
        let ghost all = key_list(*keys);
        let n = keys.len();
        let mut targets: Vec<(usize, bool)> = Vec::new();
        let mut i: usize = 0;
        while i < n
            invariant
                i <= n,
                n == all.len(),
                all == key_list(*keys),
                shards == shard_views(self.shards@),
                asks == ask_views(ask_reasons@),
                self.well_formed(),
                slot_list(*slots) == slots_of(all),
                targets@.len() == i,
                forall|k: int|
                    0 <= k < i ==> target_of(shards, self.slot_ranges@, asks, #[trigger] all[k])
                        == Some(targets@[k]) && targets@[k].0 < shards.len(),
            decreases n - i,
        {
            let slot = match slots.get(i) {
                Some(slot) => slot,
                None => {
                    assert(false);
                    return None;
                },
            };
            assert(slot == slot_of(all[i as int]));
            match self.get_shard_index_by_slot(slot, ask_reasons) {
                Some(target) => {
                    targets.push(target);
                },
                None => {
                    return None;
                },
            }
            i = i + 1;
        }
        Some(targets)
    }

    /// The keys that go to the given target, in the order of the request.
    fn gather(
        &self,
        keys: &KeyList,
        targets: &Vec<(usize, bool)>,
        ask_reasons: &Vec<AskReason>,
        shard_index: usize,
        asking: bool,
    ) -> (r: KeyList)
        requires
            targets_fit(
                shard_views(self.shards@),
                self.slot_ranges@,
                ask_views(ask_reasons@),
                key_list(*keys),
                targets@,
            ),
        ensures
            key_list(r) == routed_to(
                shard_views(self.shards@),
                self.slot_ranges@,
                ask_views(ask_reasons@),
                key_list(*keys),
                (shard_index, asking),
            ),
    {
        let ghost shards = shard_views(self.shards@);
        let ghost asks = ask_views(ask_reasons@);
        let ghost all = key_list(*keys);
        let n = keys.len();
        let mut group = KeyList::new();
        let mut i: usize = 0;
        assert(all.take(0) =~= Seq::<Seq<u8>>::empty());
        while i < n
            invariant
                i <= n,
                n == all.len(),
                all == key_list(*keys),
                shards == shard_views(self.shards@),
                asks == ask_views(ask_reasons@),
                targets_fit(shards, self.slot_ranges@, asks, all, targets@),
                key_list(group) == routed_to(
                    shards,
                    self.slot_ranges@,
                    asks,
                    all.take(i as int),
                    (shard_index, asking),
                ),
            decreases n - i,
        {
            proof {
                assert(all.take(i + 1).drop_last() =~= all.take(i as int));
                assert(all.take(i + 1).last() == all[i as int]);
            }
            let target = targets[i];
            if target.0 == shard_index && target.1 == asking {
                match keys.get(i) {
                    Some(key) => {
                        group.push(copy_bytes(key.as_slice()));
                    },
                    None => {
                        assert(false);
                    },
                }
            }
            i = i + 1;
        }
        assert(all.take(n as int) =~= all);
        group
    }

    /// The part and the write for the keys that go to the given target;
    /// `None` where no key goes there.
    fn part_for(
        &self,
        command: &Command,
        keys: &KeyList,
        targets: &Vec<(usize, bool)>,
        ask_reasons: &Vec<AskReason>,
        shard_index: usize,
        asking: bool,
    ) -> (r: Option<(SubRequest, Write)>)
        requires
            command@.args.len() < usize::MAX,
            key_list(*keys).len() > 0,
            rewritten(self.command_info_manager@, command@, key_list(*keys)) is Ok,
            targets_fit(
                shard_views(self.shards@),
                self.slot_ranges@,
                ask_views(ask_reasons@),
                key_list(*keys),
                targets@,
            ),
        ensures
            match r {
                None => routed_to(
                    shard_views(self.shards@),
                    self.slot_ranges@,
                    ask_views(ask_reasons@),
                    key_list(*keys),
                    (shard_index, asking),
                ).len() == 0,
                Some((part, write)) => write_target(write@) == (shard_index, asking) && part_ok(
                    shard_views(self.shards@),
                    self.slot_ranges@,
                    ask_views(ask_reasons@),
                    self.command_info_manager@,
                    command@,
                    key_list(*keys),
                    part@,
                    write@,
                ),
            },
    {
        let group = self.gather(keys, targets, ask_reasons, shard_index, asking);
        if group.len() == 0 {
            return None;
        }
        proof {
            lemma_routed_contained(
                shard_views(self.shards@),
                self.slot_ranges@,
                ask_views(ask_reasons@),
                key_list(*keys),
                (shard_index, asking),
            );
            lemma_rewritable_part(
                self.command_info_manager@,
                command@,
                key_list(*keys),
                key_list(group),
            );
        }
        let shard_command = match self.command_info_manager.prepare_command_for_shard(
            command,
            &group,
        ) {
            Ok(c) => c,
            Err(_) => {
                assert(false);
                return None;
            },
        };
        let write = Write { shard_index, node_index: 0, asking, command: shard_command };
        let part = SubRequest { shard_index, node_index: 0, keys: group };
        Some((part, write))
    }

    /// The parts and the writes for the keys of a command, target by
    /// target.
    fn group_keys(
        &self,
        command: &Command,
        command_name: &[u8],
        keys: KeyList,
        targets: &Vec<(usize, bool)>,
        ask_reasons: &Vec<AskReason>,
    ) -> (r: Result<Dispatch, Error>)
        requires
            command@.args.len() < usize::MAX,
            key_list(keys).len() > 0,
            rewritten(self.command_info_manager@, command@, key_list(keys)) is Ok,
            targets_fit(
                shard_views(self.shards@),
                self.slot_ranges@,
                ask_views(ask_reasons@),
                key_list(keys),
                targets@,
            ),
        ensures
            r matches Ok(d) && multi_shard_plan(
                shard_views(self.shards@),
                self.slot_ranges@,
                ask_views(ask_reasons@),
                self.command_info_manager@,
                command@,
                command_name@,
                key_list(keys),
                d@,
            ),
    {
        let ghost shards = shard_views(self.shards@);
        let ghost asks = ask_views(ask_reasons@);
        let ghost catalog = self.command_info_manager@;
        let ghost all = key_list(keys);
        let n = self.shards.len();
        let mut writes: Vec<Write> = Vec::new();
        let mut parts = SubRequestList::new();
        let mut shard_index: usize = 0;
        let mut asking = false;
        proof {
            assert(routed_below(shards, self.slot_ranges@, asks, all, 0) =~= Seq::<
                Seq<u8>,
            >::empty()) by {
                lemma_routed_none(shards, self.slot_ranges@, asks, all);
            }
            assert(all_keys(sub_request_views(parts@)) =~= Seq::<Seq<u8>>::empty());
        }
        while shard_index < n
            invariant
                shard_index <= n,
                shard_index == n ==> !asking,
                n == self.shards@.len(),
                n == shards.len(),
                shards == shard_views(self.shards@),
                asks == ask_views(ask_reasons@),
                catalog == self.command_info_manager@,
                all == key_list(keys),
                all.len() > 0,
                command@.args.len() < usize::MAX,
                rewritten(catalog, command@, all) is Ok,
                targets_fit(shards, self.slot_ranges@, asks, all, targets@),
                writes@.len() == parts@.len(),
                all_keys(sub_request_views(parts@)).to_multiset() == routed_below(
                    shards,
                    self.slot_ranges@,
                    asks,
                    all,
                    rank(Some((shard_index, asking))),
                ).to_multiset(),
                forall|j: int|
                    0 <= j < parts@.len() ==> part_ok(
                        shards,
                        self.slot_ranges@,
                        asks,
                        catalog,
                        command@,
                        all,
                        #[trigger] sub_request_views(parts@)[j],
                        write_views(writes@)[j],
                    ),
                forall|j: int, k: int|
                    0 <= j < k < writes@.len() ==> target_before(
                        #[trigger] write_views(writes@)[j],
                        #[trigger] write_views(writes@)[k],
                    ),
                forall|j: int|
                    0 <= j < writes@.len() ==> rank(
                        Some(write_target(#[trigger] write_views(writes@)[j])),
                    ) < rank(Some((shard_index, asking))),
            decreases 2 * (n - shard_index) - if asking { 1int } else { 0int },
        {
            let ghost r = rank(Some((shard_index, asking)));
            let ghost old_parts = sub_request_views(parts@);
            let ghost old_writes = write_views(writes@);
            proof {
                lemma_routed_step(shards, self.slot_ranges@, asks, all, (shard_index, asking));
            }
            match self.part_for(command, &keys, targets, ask_reasons, shard_index, asking) {
                None => {
                    proof {
                        let below = routed_below(shards, self.slot_ranges@, asks, all, r);
                        let here = routed_to(
                            shards,
                            self.slot_ranges@,
                            asks,
                            all,
                            (shard_index, asking),
                        );
                        assert(below + here =~= below);
                    }
                },
                Some((part, write)) => {
                    proof {
                        let p = part@;
                        let w = write@;
                        let below = routed_below(shards, self.slot_ranges@, asks, all, r);
                        let new_parts = sub_request_views(parts@.push(part));
                        let new_writes = write_views(writes@.push(write));
                        assert(new_parts =~= old_parts.push(p));
                        assert(new_writes =~= old_writes.push(w));
                        lemma_all_keys_push(old_parts, p);
                        vstd::seq_lib::lemma_multiset_commutative(all_keys(old_parts), p.keys);
                        vstd::seq_lib::lemma_multiset_commutative(below, p.keys);
                        assert forall|a: int| 0 <= a < new_parts.len() implies part_ok(
                            shards,
                            self.slot_ranges@,
                            asks,
                            catalog,
                            command@,
                            all,
                            #[trigger] new_parts[a],
                            new_writes[a],
                        ) by {
                            if a < old_parts.len() {
                                assert(new_parts[a] == old_parts[a]);
                                assert(new_writes[a] == old_writes[a]);
                            }
                        }
                        assert forall|a: int, b: int|
                            0 <= a < b < new_writes.len() implies target_before(
                            #[trigger] new_writes[a],
                            #[trigger] new_writes[b],
                        ) by {
                            assert(new_writes[a] == old_writes[a]);
                            if b < old_writes.len() {
                                assert(new_writes[b] == old_writes[b]);
                            } else {
                                assert(rank(Some(write_target(old_writes[a]))) < r);
                            }
                        }
                        assert forall|a: int| 0 <= a < new_writes.len() implies rank(
                            Some(write_target(#[trigger] new_writes[a])),
                        ) < r + 1 by {
                            if a < old_writes.len() {
                                assert(new_writes[a] == old_writes[a]);
                            }
                        }
                    }
                    writes.push(write);
                    parts.push(part);
                },
            }
            if asking {
                shard_index = shard_index + 1;
                asking = false;
            } else {
                asking = true;
            }
            assert(rank(Some((shard_index, asking))) == r + 1);
        }
        proof {
            assert forall|i: int| 0 <= i < all.len() implies 0 <= rank(
                target_of(shards, self.slot_ranges@, asks, #[trigger] all[i]),
            ) < 2 * n by {
                assert(target_of(shards, self.slot_ranges@, asks, all[i]) == Some(targets@[i]));
            }
            lemma_routed_all(shards, self.slot_ranges@, asks, all, 2 * n);
        }
        Ok(
            Dispatch {
                writes,
                request_info: RequestInfo {
                    command_name: copy_bytes(command_name),
                    keys,
                    sub_requests: parts,
                },
            },
        )
    }

    /// The command goes to the shards that own its keys: the keys are
    /// grouped by the shard that they go to, and each shard gets the command
    /// rewritten for its keys. Keys of a slot that is redirected go to their
    /// shard in a part of their own, with `ASKING` before the command.
    pub fn request_policy_multi_shard(
        &self,
        command: &Command,
        command_name: &[u8],
        keys: KeyList,
        slots: &SlotList,
        ask_reasons: &Vec<AskReason>,
    ) -> (r: Result<Dispatch, Error>)
        requires
            self.well_formed(),
            command@.args.len() < usize::MAX,
            slot_list(*slots) == slots_of(key_list(keys)),
        ensures
            multi_shard_outcome(
                shard_views(self.shards@),
                self.slot_ranges@,
                ask_views(ask_reasons@),
                self.command_info_manager@,
                command@,
                command_name@,
                key_list(keys),
                match r {
                    Ok(d) => Ok(d@),
                    Err(e) => Err(e@),
                },
            ),
    {
        let targets = match self.targets_of(&keys, slots, ask_reasons) {
            Some(targets) => targets,
            None => {
                return Err(Error::ClusterMisconfiguration);
            },
        };
        let whole = match self.command_info_manager.prepare_command_for_shard(command, &keys) {
            Ok(whole) => whole,
            Err(e) => {
                return Err(e);
            },
        };
        if keys.len() == 0 {
            let mut writes: Vec<Write> = Vec::new();
            writes.push(Write { shard_index: 0, node_index: 0, asking: false, command: whole });
            let mut sub_requests = SubRequestList::new();
            sub_requests.push(SubRequest { shard_index: 0, node_index: 0, keys: keys.duplicate() });
            let d = Dispatch {
                writes,
                request_info: RequestInfo {
                    command_name: copy_bytes(command_name),
                    keys,
                    sub_requests,
                },
            };
            proof {
                let plan = single_plan(0, false, whole@, command_name@, key_list(keys));
                assert(d@.writes =~= plan.writes);
                assert(d@.request_info.sub_requests =~= plan.request_info.sub_requests);
            }
            return Ok(d);
        }
        self.group_keys(command, command_name, keys, &targets, ask_reasons)
    }
}

} // verus!
