//! The cluster router: where each command goes, and how the replies of the
//! nodes it went to become one reply.

use vstd::prelude::*;
use crate::commands::command_info_manager::CommandInfoManager;
use crate::error::{retry_views, RetryReason, RetryReasonView};
use crate::network::hash_slot::{key_list, KeyList};
use crate::network::topology::{
    covered, exact_cover, holds_slot, lemma_cover_ascends, lemma_cover_is_total, shard_views,
    NodeView, Shard, SlotRange, LAST_SLOT,
};
use crate::resp::command::{Command, CommandView};
use crate::resp::text::{bytes_eq, copy_bytes};

verus! {

/// A redirection to follow once: the slot, and the host and port to ask.
#[derive(Debug, PartialEq, Eq)]
pub struct AskReason {
    pub hash_slot: u16,
    pub address: (Vec<u8>, u16),
}

/// Mathematical form of an [`AskReason`].
pub struct AskReasonView {
    pub hash_slot: u16,
    pub host: Seq<u8>,
    pub port: u16,
}

impl View for AskReason {
    type V = AskReasonView;

    open spec fn view(&self) -> AskReasonView {
        AskReasonView { hash_slot: self.hash_slot, host: self.address.0@, port: self.address.1 }
    }
}

/// The views of a sequence of redirections.
pub open spec fn ask_views(asks: Seq<AskReason>) -> Seq<AskReasonView> {
    asks.map_values(|a: AskReason| a@)
}

/// One part of a request: the node it went to and the keys it carries.
#[derive(Debug, PartialEq, Eq)]
pub struct SubRequest {
    pub shard_index: usize,
    pub node_index: usize,
    pub keys: KeyList,
}

/// Mathematical form of a [`SubRequest`].
pub struct SubRequestView {
    pub shard_index: usize,
    pub node_index: usize,
    pub keys: Seq<Seq<u8>>,
}

impl View for SubRequest {
    type V = SubRequestView;

    open spec fn view(&self) -> SubRequestView {
        SubRequestView {
            shard_index: self.shard_index,
            node_index: self.node_index,
            keys: key_list(self.keys),
        }
    }
}

/// The views of a sequence of sub-requests.
pub open spec fn sub_request_views(subs: Seq<SubRequest>) -> Seq<SubRequestView> {
    subs.map_values(|s: SubRequest| s@)
}

/// The parts of a request, kept inline up to ten: a `smallvec::SmallVec`
/// of sub-requests. Nothing is known of what is inside but what
/// `sub_request_list` names.
#[verifier::external_body]
#[derive(Debug, PartialEq, Eq)]
pub struct SubRequestList {
    inner: smallvec::SmallVec<[SubRequest; 10]>,
}

/// The sub-requests that the `SmallVec` of the list holds, in order.
pub uninterp spec fn sub_request_list(parts: SubRequestList) -> Seq<SubRequest>;

impl View for SubRequestList {
    type V = Seq<SubRequest>;

    open spec fn view(&self) -> Seq<SubRequest> {
        sub_request_list(*self)
    }
}

/// `SmallVec::new`: a list that holds nothing.
#[verifier::external_body]
pub(crate) fn sub_request_list_new() -> (r: SubRequestList)
    ensures
        sub_request_list(r) == Seq::<SubRequest>::empty(),
{
    SubRequestList { inner: smallvec::SmallVec::new() }
}

/// `SmallVec::push`: the list holds one more sub-request, at its end.
#[verifier::external_body]
pub(crate) fn sub_request_list_push(parts: &mut SubRequestList, part: SubRequest)
    ensures
        sub_request_list(*final(parts)) == sub_request_list(*old(parts)).push(part),
{
    parts.inner.push(part)
}

/// `SmallVec::len`: the number of sub-requests that the list holds.
#[verifier::external_body]
pub(crate) fn sub_request_list_len(parts: &SubRequestList) -> (n: usize)
    ensures
        n == sub_request_list(*parts).len(),
{
    parts.inner.len()
}

/// `Index::index` of `SmallVec`: the sub-request at `index`. It panics
/// where the list holds no such sub-request.
#[verifier::external_body]
pub(crate) fn sub_request_list_get(parts: &SubRequestList, index: usize) -> (part: &SubRequest)
    requires
        index < sub_request_list(*parts).len(),
    ensures
        *part == sub_request_list(*parts)[index as int],
{
    &parts.inner[index]
}

impl SubRequestList {
    /// A list that holds nothing.
    pub fn new() -> (r: SubRequestList)
        ensures
            r@ == Seq::<SubRequest>::empty(),
    {
        sub_request_list_new()
    }

    /// Appends a sub-request.
    pub fn push(&mut self, part: SubRequest)
        ensures
            final(self)@ == old(self)@.push(part),
    {
        sub_request_list_push(self, part)
    }

    /// The number of sub-requests.
    pub fn len(&self) -> (n: usize)
        ensures
            n == self@.len(),
    {
        sub_request_list_len(self)
    }

    /// The sub-request at `index`.
    pub fn at(&self, index: usize) -> (part: &SubRequest)
        requires
            index < self@.len(),
        ensures
            *part == self@[index as int],
    {
        sub_request_list_get(self, index)
    }

    /// The list that holds copies of the given sub-requests, in order.
    pub fn from_vec(parts: &Vec<SubRequest>) -> (r: SubRequestList)
        ensures
            sub_request_views(r@) == sub_request_views(parts@),
    {
        let mut out = sub_request_list_new();
        let mut i: usize = 0;
        assert(sub_request_views(out@) =~= sub_request_views(parts@).take(0));
        while i < parts.len()
            invariant
                i <= parts.len(),
                sub_request_views(out@) == sub_request_views(parts@).take(i as int),
            decreases parts.len() - i,
        {
            let part = SubRequest {
                shard_index: parts[i].shard_index,
                node_index: parts[i].node_index,
                keys: parts[i].keys.duplicate(),
            };
            assert(part@ == parts@[i as int]@);
            assert(sub_request_views(out@.push(part)) =~= sub_request_views(out@).push(part@));
            assert(sub_request_views(parts@).take(i + 1) =~= sub_request_views(parts@).take(
                i as int,
            ).push(parts@[i as int]@));
            sub_request_list_push(&mut out, part);
            i = i + 1;
        }
        assert(sub_request_views(parts@).take(parts.len() as int) =~= sub_request_views(parts@));
        out
    }

    /// Copies of the sub-requests of the list, in order.
    pub fn to_vec(&self) -> (r: Vec<SubRequest>)
        ensures
            sub_request_views(r@) == sub_request_views(self@),
    {
        let mut out: Vec<SubRequest> = Vec::new();
        let n = sub_request_list_len(self);
        let mut i: usize = 0;
        assert(sub_request_views(out@) =~= sub_request_views(self@).take(0));
        while i < n
            invariant
                i <= n,
                n == self@.len(),
                sub_request_views(out@) == sub_request_views(self@).take(i as int),
            decreases n - i,
        {
            let found = sub_request_list_get(self, i);
            let part = SubRequest {
                shard_index: found.shard_index,
                node_index: found.node_index,
                keys: found.keys.duplicate(),
            };
            assert(part@ == self@[i as int]@);
            assert(sub_request_views(out@.push(part)) =~= sub_request_views(out@).push(part@));
            assert(sub_request_views(self@).take(i + 1) =~= sub_request_views(self@).take(
                i as int,
            ).push(self@[i as int]@));
            out.push(part);
            i = i + 1;
        }
        assert(sub_request_views(self@).take(n as int) =~= sub_request_views(self@));
        out
    }
}

/// A request in flight: the name of its command, its keys in the order
/// given, and its parts in the order sent.
#[derive(Debug, PartialEq, Eq)]
pub struct RequestInfo {
    pub command_name: Vec<u8>,
    pub keys: KeyList,
    pub sub_requests: SubRequestList,
}

/// Mathematical form of a [`RequestInfo`].
pub struct RequestInfoView {
    pub command_name: Seq<u8>,
    pub keys: Seq<Seq<u8>>,
    pub sub_requests: Seq<SubRequestView>,
}

impl View for RequestInfo {
    type V = RequestInfoView;

    open spec fn view(&self) -> RequestInfoView {
        RequestInfoView {
            command_name: self.command_name@,
            keys: key_list(self.keys),
            sub_requests: sub_request_views(self.sub_requests@),
        }
    }
}

/// One command to write: the node to write it to, and whether `ASKING` goes
/// before it.
#[derive(Debug, PartialEq, Eq)]
pub struct Write {
    pub shard_index: usize,
    pub node_index: usize,
    pub asking: bool,
    pub command: Command,
}

/// Mathematical form of a [`Write`].
pub struct WriteView {
    pub shard_index: usize,
    pub node_index: usize,
    pub asking: bool,
    pub command: CommandView,
}

impl View for Write {
    type V = WriteView;

    open spec fn view(&self) -> WriteView {
        WriteView {
            shard_index: self.shard_index,
            node_index: self.node_index,
            asking: self.asking,
            command: self.command@,
        }
    }
}

/// The views of a sequence of writes.
pub open spec fn write_views(writes: Seq<Write>) -> Seq<WriteView> {
    writes.map_values(|w: Write| w@)
}

/// What to do for one command: the writes, in order, and the request to
/// remember until its replies are in.
#[derive(Debug, PartialEq, Eq)]
pub struct Dispatch {
    pub writes: Vec<Write>,
    pub request_info: RequestInfo,
}

/// Mathematical form of a [`Dispatch`].
pub struct DispatchView {
    pub writes: Seq<WriteView>,
    pub request_info: RequestInfoView,
}

impl View for Dispatch {
    type V = DispatchView;

    open spec fn view(&self) -> DispatchView {
        DispatchView { writes: write_views(self.writes@), request_info: self.request_info@ }
    }
}

/// The target of the first redirection for the slot.
pub open spec fn ask_target(asks: Seq<AskReasonView>, slot: u16) -> Option<(Seq<u8>, u16)>
    decreases asks.len(),
{
    if asks.len() == 0 {
        None
    } else if asks[0].hash_slot == slot {
        Some((asks[0].host, asks[0].port))
    } else {
        ask_target(asks.drop_first(), slot)
    }
}

/// One of the nodes has the address.
pub open spec fn has_address(nodes: Seq<NodeView>, host: Seq<u8>, port: u16) -> bool {
    exists|i: int| 0 <= i < nodes.len() && (#[trigger] nodes[i]).host == host && nodes[i].port == port
}

/// The index of the first shard from `from` on with a node at the address.
pub open spec fn owner_of_address(shards: Seq<Seq<NodeView>>, host: Seq<u8>, port: u16, from: int)
    -> Option<int>
    decreases shards.len() - from,
{
    if from < 0 || from >= shards.len() {
        None
    } else if has_address(shards[from], host, port) {
        Some(from)
    } else {
        owner_of_address(shards, host, port, from + 1)
    }
}

/// The shard that owns the slot by the slot index.
pub open spec fn owner_of_slot(ranges: Seq<SlotRange>, slot: u16) -> Option<usize> {
    if covered(ranges, slot) {
        Some(
            ranges[choose|i: int|
                0 <= i < ranges.len() && holds_slot(#[trigger] ranges[i], slot)].shard_index,
        )
    } else {
        None
    }
}

/// Where a command for the slot goes, and whether `ASKING` goes before it.
/// A redirection for the slot overrules the slot index: the command goes to
/// the shard that has a node at the address given. `None` where no shard has
/// one, and where no range holds the slot.
pub open spec fn route(
    shards: Seq<Seq<NodeView>>,
    ranges: Seq<SlotRange>,
    asks: Seq<AskReasonView>,
    slot: u16,
) -> Option<(usize, bool)> {
    match ask_target(asks, slot) {
        Some((host, port)) => match owner_of_address(shards, host, port, 0) {
            Some(i) => Some((i as usize, true)),
            None => None,
        },
        None => match owner_of_slot(ranges, slot) {
            Some(i) => Some((i, false)),
            None => None,
        },
    }
}

/// The redirections to follow once among the reasons for a retry.
pub open spec fn asks_among(reasons: Seq<RetryReasonView>) -> Seq<AskReasonView>
    decreases reasons.len(),
{
    if reasons.len() == 0 {
        Seq::empty()
    } else {
        match reasons.last() {
            RetryReasonView::Ask { hash_slot, host, port } => asks_among(reasons.drop_last()).push(
                AskReasonView { hash_slot, host, port },
            ),
            RetryReasonView::Moved { .. } => asks_among(reasons.drop_last()),
        }
    }
}

/// One of the reasons says that a slot has moved for good.
pub open spec fn any_moved(reasons: Seq<RetryReasonView>) -> bool {
    exists|i: int| 0 <= i < reasons.len() && #[trigger] reasons[i] is Moved
}

/// Whether the shard table is stale and has to be read again before the
/// request is sent again.
pub fn must_reconnect(retry_reasons: &Vec<RetryReason>) -> (r: bool)
    ensures
        r == any_moved(retry_views(retry_reasons@)),
{
    let mut i: usize = 0;
    while i < retry_reasons.len()
        invariant
            i <= retry_reasons.len(),
            forall|k: int| 0 <= k < i ==> !(#[trigger] retry_views(retry_reasons@)[k] is Moved),
        decreases retry_reasons.len() - i,
    {
        if let RetryReason::Moved { .. } = &retry_reasons[i] {
            assert(retry_views(retry_reasons@)[i as int] is Moved);
            return true;
        }
        i = i + 1;
    }
    false
}

/// The redirections to follow once among the reasons for a retry.
pub fn ask_reasons(retry_reasons: &Vec<RetryReason>) -> (r: Vec<AskReason>)
    ensures
        ask_views(r@) == asks_among(retry_views(retry_reasons@)),
{
    let ghost all = retry_views(retry_reasons@);
    let mut out: Vec<AskReason> = Vec::new();
    let mut i: usize = 0;
    assert(all.take(0) =~= Seq::<RetryReasonView>::empty());
    assert(ask_views(out@) =~= Seq::<AskReasonView>::empty());
    while i < retry_reasons.len()
        invariant
            i <= retry_reasons.len(),
            all == retry_views(retry_reasons@),
            ask_views(out@) == asks_among(all.take(i as int)),
        decreases retry_reasons.len() - i,
    {
        proof {
            assert(all.take(i + 1).drop_last() =~= all.take(i as int));
        }
        if let RetryReason::Ask { hash_slot, address } = &retry_reasons[i] {
            let ask = AskReason {
                hash_slot: *hash_slot,
                address: (copy_bytes(address.0.as_slice()), address.1),
            };
            assert(ask_views(out@.push(ask)) =~= ask_views(out@).push(ask@));
            out.push(ask);
        }
        i = i + 1;
    }
    assert(all.take(retry_reasons.len() as int) =~= all);
    out
}

/// The cluster as the router knows it: the shards, the index from slots to
/// shards, the catalog of commands, and the requests whose replies are
/// still to come, oldest first.
pub struct ClusterConnection {
    pub shards: Vec<Shard>,
    pub slot_ranges: Vec<SlotRange>,
    pub command_info_manager: CommandInfoManager,
    pub pending: Vec<RequestInfo>,
}

impl ClusterConnection {
    /// The slot index tiles the slots, every range belongs to a shard of the
    /// table, and every shard has its master.
    pub open spec fn well_formed(&self) -> bool {
        &&& exact_cover(self.slot_ranges@)
        &&& forall|i: int|
            0 <= i < self.slot_ranges@.len() ==> (#[trigger] self.slot_ranges@[i]).shard_index
                < self.shards@.len()
        &&& forall|i: int| 0 <= i < self.shards@.len() ==> (#[trigger] self.shards@[i])@.len() > 0
    }

    /// Whether the router is well formed.
    pub fn is_well_formed(&self) -> (r: bool)
        ensures
            r == self.well_formed(),
    {
        if !crate::network::topology::is_exact_cover(&self.slot_ranges) {
            return false;
        }
        let mut i: usize = 0;
        while i < self.slot_ranges.len()
            invariant
                i <= self.slot_ranges.len(),
                forall|k: int|
                    0 <= k < i ==> (#[trigger] self.slot_ranges@[k]).shard_index < self.shards@.len(),
            decreases self.slot_ranges.len() - i,
        {
            if self.slot_ranges[i].shard_index >= self.shards.len() {
                return false;
            }
            i = i + 1;
        }
        let mut s: usize = 0;
        while s < self.shards.len()
            invariant
                s <= self.shards.len(),
                forall|k: int| 0 <= k < s ==> (#[trigger] self.shards@[k])@.len() > 0,
            decreases self.shards.len() - s,
        {
            if self.shards[s].nodes.len() == 0 {
                assert(self.shards@[s as int]@.len() == 0);
                return false;
            }
            assert(self.shards@[s as int]@.len() == self.shards@[s as int].nodes@.len());
            s = s + 1;
        }
        true
    }

    /// The index of the range that holds the slot.
    pub fn find_range(&self, slot: u16) -> (r: Option<usize>)
        requires
            self.well_formed(),
        ensures
            match r {
                Some(i) => i < self.slot_ranges@.len() && holds_slot(self.slot_ranges@[i as int], slot)
                    && slot <= LAST_SLOT,
                None => slot > LAST_SLOT,
            },
    {
        if slot > LAST_SLOT {
            return None;
        }
        let ranges = &self.slot_ranges;
        let mut lo: usize = 0;
        let mut hi: usize = ranges.len();
        proof {
            lemma_cover_is_total(ranges@);
        }
        while lo < hi
            invariant
                lo <= hi <= ranges@.len(),
                ranges == &self.slot_ranges,
                exact_cover(ranges@),
                slot <= LAST_SLOT,
                forall|i: int| 0 <= i < lo ==> (#[trigger] ranges@[i]).slot_range.1 < slot,
                forall|i: int| hi <= i < ranges@.len() ==> (#[trigger] ranges@[i]).slot_range.0 > slot,
            decreases hi - lo,
        {
            let mid = lo + (hi - lo) / 2;
            let range = ranges[mid];
            if range.slot_range.0 > slot {
                proof {
                    assert forall|i: int| mid <= i < ranges@.len() implies (
                    #[trigger] ranges@[i]).slot_range.0 > slot by {
                        if i > mid {
                            lemma_cover_ascends(ranges@, mid as int, i);
                            assert(ranges@[mid as int].slot_range.0
                                <= ranges@[mid as int].slot_range.1);
                        }
                    }
                }
                hi = mid;
            } else if range.slot_range.1 < slot {
                proof {
                    assert forall|i: int| 0 <= i < mid + 1 implies (
                    #[trigger] ranges@[i]).slot_range.1 < slot by {
                        if i < mid {
                            lemma_cover_ascends(ranges@, i, mid as int);
                            assert(ranges@[mid as int].slot_range.0
                                <= ranges@[mid as int].slot_range.1);
                        }
                    }
                }
                lo = mid + 1;
            } else {
                return Some(mid);
            }
        }
        proof {
            lemma_cover_is_total(ranges@);
            assert(covered(ranges@, slot));
            let k = choose|i: int| 0 <= i < ranges@.len() && holds_slot(#[trigger] ranges@[i], slot);
            assert(holds_slot(ranges@[k], slot));
            assert(false);
        }
        None
    }

    /// The index of the first shard with a node at the address.
    pub fn find_owner(&self, host: &[u8], port: u16) -> (r: Option<usize>)
        ensures
            match owner_of_address(shard_views(self.shards@), host@, port, 0) {
                Some(i) => r matches Some(found) && found == i && 0 <= i < self.shards@.len(),
                None => r is None,
            },
    {
        let ghost shards = shard_views(self.shards@);
        let mut s: usize = 0;
        while s < self.shards.len()
            invariant
                s <= self.shards.len(),
                shards == shard_views(self.shards@),
                owner_of_address(shards, host@, port, 0) == owner_of_address(
                    shards,
                    host@,
                    port,
                    s as int,
                ),
            decreases self.shards.len() - s,
        {
            let nodes = &self.shards[s].nodes;
            let mut n: usize = 0;
            let mut found = false;
            while n < nodes.len()
                invariant
                    n <= nodes.len(),
                    s < self.shards.len(),
                    nodes == &self.shards@[s as int].nodes,
                    shards == shard_views(self.shards@),
                    owner_of_address(shards, host@, port, 0) == owner_of_address(
                        shards,
                        host@,
                        port,
                        s as int,
                    ),
                    !found,
                    forall|k: int|
                        0 <= k < n ==> !((#[trigger] shards[s as int][k]).host == host@
                            && shards[s as int][k].port == port),
                decreases nodes.len() - n,
            {
                let node = &nodes[n];
                assert(shards[s as int][n as int] == node@);
                if node.address.1 == port && bytes_eq(node.address.0.as_slice(), host) {
                    assert(has_address(shards[s as int], host@, port));
                    return Some(s);
                }
                n = n + 1;
            }
            assert(!has_address(shards[s as int], host@, port));
            s = s + 1;
        }
        None
    }

    /// Where a command for the slot goes, and whether `ASKING` goes before
    /// it.
    pub fn get_shard_index_by_slot(&self, slot: u16, ask_reasons: &Vec<AskReason>) -> (r: Option<
        (usize, bool),
    >)
        requires
            self.well_formed(),
        ensures
            r == route(shard_views(self.shards@), self.slot_ranges@, ask_views(ask_reasons@), slot),
            r matches Some(found) ==> found.0 < self.shards@.len(),
            slot <= LAST_SLOT && ask_target(ask_views(ask_reasons@), slot) is None ==> r is Some,
    {
        let ghost asks = ask_views(ask_reasons@);
        let mut i: usize = 0;
        assert(asks.skip(0) =~= asks);
        while i < ask_reasons.len()
            invariant
                i <= ask_reasons.len(),
                asks == ask_views(ask_reasons@),
                ask_target(asks, slot) == ask_target(asks.skip(i as int), slot),
            decreases ask_reasons.len() - i,
        {
            proof {
                assert(asks.skip(i as int).drop_first() =~= asks.skip(i + 1));
                assert(asks[i as int] == ask_reasons@[i as int]@);
            }
            let ask = &ask_reasons[i];
            if ask.hash_slot == slot {
                return match self.find_owner(ask.address.0.as_slice(), ask.address.1) {
                    Some(shard_index) => Some((shard_index, true)),
                    None => None,
                };
            }
            i = i + 1;
        }
        match self.find_range(slot) {
            Some(k) => {
                proof {
                    lemma_cover_is_total(self.slot_ranges@);
                    assert(covered(self.slot_ranges@, slot));
                }
                Some((self.slot_ranges[k].shard_index, false))
            },
            None => {
                proof {
                    lemma_cover_is_total(self.slot_ranges@);
                    if covered(self.slot_ranges@, slot) {
                        let k = choose|i: int|
                            0 <= i < self.slot_ranges@.len() && holds_slot(
                                #[trigger] self.slot_ranges@[i],
                                slot,
                            );
                        assert(self.slot_ranges@[k].slot_range.1 <= LAST_SLOT);
                    }
                }
                None
            },
        }
    }
}

} // verus!
