//! The two halves of the router: sending a batch of commands out, and
//! taking the replies of the oldest request in.

use vstd::prelude::*;
use crate::commands::command_info::CommandInfoView;
use crate::commands::command_info_manager::{
    entry_named, find_request_policy, find_response_policy, info_for, keys_of, request_policy_of,
    response_policy_of,
};
use crate::commands::server_commands::{RequestPolicy, ResponsePolicy};
use crate::error::{
    retry_views, Error, ErrorView, RedisErrorKind, RedisErrorKindView, RetryReason,
    RetryReasonView, RetryReasons,
};
use crate::network::cluster_connection::{
    any_moved, ask_reasons, ask_views, asks_among, must_reconnect, write_views, AskReason,
    AskReasonView, ClusterConnection, Dispatch, DispatchView, RequestInfo, RequestInfoView, Write,
};
use crate::network::hash_slot::{hash_slots, key_list, KeyList};
use crate::network::multi_shard::multi_shard_outcome;
use crate::network::read_policy::{default_combined, no_response_policy};
use crate::network::request_policy::{
    all_nodes_plan, all_shards_plan, no_policy_plan, random_index,
};
use crate::network::response_policy::{
    aggregated, all_succeeded, one_succeeded, reply_view, reply_views, response_policy_agg,
    response_policy_all_succeeded, response_policy_one_succeeded, response_policy_special, Reply,
};
use crate::network::topology::{shard_views, NodeView, SlotRange};
use crate::resp::command::{Command, CommandView};
use crate::resp::text::copy_bytes;
use crate::resp::value::{Value, ValueView};

verus! {

/// What sending one command comes to: the writes and the request to
/// remember, or the error. The request policy of the command decides; a
/// command without one goes to the shard of its keys, or, without keys, to
/// any shard.
pub open spec fn dispatch_outcome(
    shards: Seq<Seq<NodeView>>,
    ranges: Seq<SlotRange>,
    catalog: Seq<CommandInfoView>,
    asks: Seq<AskReasonView>,
    c: CommandView,
    keys: Seq<Seq<u8>>,
    r: Result<DispatchView, ErrorView>,
) -> bool {
    match info_for(catalog, c) {
        None => r == Err::<DispatchView, ErrorView>(ErrorView::UnknownCommand(c.name)),
        Some(info) => match request_policy_of(info.command_tips) {
            Some(RequestPolicy::AllNodes) => r == Ok::<DispatchView, ErrorView>(
                all_nodes_plan(shards, c, info.name, keys),
            ),
            Some(RequestPolicy::AllShards) => r == Ok::<DispatchView, ErrorView>(
                all_shards_plan(shards, c, info.name, keys),
            ),
            Some(RequestPolicy::MultiShard) => multi_shard_outcome(
                shards,
                ranges,
                asks,
                catalog,
                c,
                info.name,
                keys,
                r,
            ),
            Some(RequestPolicy::Special) => r == Err::<DispatchView, ErrorView>(
                ErrorView::NotSupported,
            ),
            None => exists|pick: usize|
                pick < shards.len() && r == #[trigger] no_policy_plan(
                    shards,
                    ranges,
                    asks,
                    c,
                    info.name,
                    keys,
                    pick,
                ),
        },
    }
}

/// The view of what sending one command came to.
pub open spec fn dispatch_view(r: Result<Dispatch, Error>) -> Result<DispatchView, ErrorView> {
    match r {
        Ok(d) => Ok(d@),
        Err(e) => Err(e@),
    }
}

/// The keys of a command: those given, or those that the catalog finds.
pub open spec fn keys_for(catalog: Seq<CommandInfoView>, c: CommandView, given: Option<Seq<Seq<u8>>>)
    -> Result<Seq<Seq<u8>>, ErrorView> {
    match given {
        Some(keys) => Ok(keys),
        None => match info_for(catalog, c) {
            None => Err(ErrorView::UnknownCommand(c.name)),
            Some(info) => match keys_of(info, c) {
                Some(keys) => Ok(keys),
                None => Err(ErrorView::KeyExtraction),
            },
        },
    }
}

/// What sending one command of a batch comes to.
pub open spec fn command_outcome(
    shards: Seq<Seq<NodeView>>,
    ranges: Seq<SlotRange>,
    catalog: Seq<CommandInfoView>,
    asks: Seq<AskReasonView>,
    c: CommandView,
    given: Option<Seq<Seq<u8>>>,
    r: Result<DispatchView, ErrorView>,
) -> bool {
    match keys_for(catalog, c, given) {
        Err(e) => r == Err::<DispatchView, ErrorView>(e),
        Ok(keys) => dispatch_outcome(shards, ranges, catalog, asks, c, keys, r),
    }
}

/// The keys that were given for the command at index `i`, if any were.
pub open spec fn given_at(given: Seq<Option<KeyList>>, i: int) -> Option<Seq<Seq<u8>>> {
    if 0 <= i < given.len() {
        match given[i] {
            Some(keys) => Some(key_list(keys)),
            None => None,
        }
    } else {
        None
    }
}

/// The view of a reply that may be missing.
pub open spec fn arrival_view(a: Option<Result<Value, Error>>) -> Option<Reply> {
    match a {
        Some(r) => Some(reply_view(r)),
        None => None,
    }
}

/// The views of replies that may be missing.
pub open spec fn arrival_views(arrivals: Seq<Option<Result<Value, Error>>>) -> Seq<Option<Reply>> {
    arrivals.map_values(|a: Option<Result<Value, Error>>| arrival_view(a))
}

/// The retry that a reply asks for: that of a `MOVED` or an `ASK` error.
pub open spec fn redirect_of(a: Option<Reply>) -> Option<RetryReasonView> {
    match a {
        Some(Ok(ValueView::Error(e))) => match e.kind {
            RedisErrorKindView::Ask { hash_slot, host, port } => Some(
                RetryReasonView::Ask { hash_slot, host, port },
            ),
            RedisErrorKindView::Moved { hash_slot, host, port } => Some(
                RetryReasonView::Moved { hash_slot, host, port },
            ),
            _ => None,
        },
        _ => None,
    }
}

/// The retries that the replies ask for, in the order of the replies.
pub open spec fn redirects(arrivals: Seq<Option<Reply>>) -> Seq<RetryReasonView>
    decreases arrivals.len(),
{
    if arrivals.len() == 0 {
        Seq::empty()
    } else {
        match redirect_of(arrivals.last()) {
            Some(reason) => redirects(arrivals.drop_last()).push(reason),
            None => redirects(arrivals.drop_last()),
        }
    }
}

/// The replies that are there and ask for no retry, in order.
pub open spec fn settled(arrivals: Seq<Option<Reply>>) -> Seq<Reply>
    decreases arrivals.len(),
{
    if arrivals.len() == 0 {
        Seq::empty()
    } else {
        match arrivals.last() {
            Some(r) => if redirect_of(arrivals.last()) is None {
                settled(arrivals.drop_last()).push(r)
            } else {
                settled(arrivals.drop_last())
            },
            None => settled(arrivals.drop_last()),
        }
    }
}

/// One of the replies is missing: its connection is closed.
pub open spec fn any_missing(arrivals: Seq<Option<Reply>>) -> bool {
    exists|i: int| 0 <= i < arrivals.len() && #[trigger] arrivals[i] is None
}

/// The replies of the parts of a request as one reply, by the response
/// policy of its command.
pub open spec fn combined_reply(
    catalog: Seq<CommandInfoView>,
    info: RequestInfoView,
    results: Seq<Reply>,
) -> Reply {
    match entry_named(catalog, info.command_name) {
        None => Err(ErrorView::UnknownCommand(info.command_name)),
        Some(entry) => match response_policy_of(entry.command_tips) {
            Some(ResponsePolicy::OneSucceeded) => one_succeeded(results),
            Some(ResponsePolicy::AllSucceeded) => all_succeeded(results),
            Some(ResponsePolicy::Special) => Err(ErrorView::NotSupported),
            Some(policy) => aggregated(policy, results),
            None => default_combined(results, info),
        },
    }
}

/// What reading a request comes to: nothing where a reply is missing; a
/// retry where a reply is a redirection; else the replies as one.
pub open spec fn read_outcome(
    catalog: Seq<CommandInfoView>,
    info: RequestInfoView,
    arrivals: Seq<Option<Reply>>,
) -> Option<Reply> {
    if any_missing(arrivals) {
        None
    } else if redirects(arrivals).len() > 0 {
        Some(Err(ErrorView::Retry(redirects(arrivals))))
    } else {
        Some(combined_reply(catalog, info, settled(arrivals)))
    }
}

/// What one read after the other comes to, for the replies that arrive for
/// each read: a read takes the request that has waited longest, answers for
/// it alone, and waits for it no longer; a read with nothing waited for
/// gives nothing.
pub open spec fn read_history(
    catalog: Seq<CommandInfoView>,
    pending: Seq<RequestInfoView>,
    arrivals: Seq<Seq<Option<Reply>>>,
) -> Seq<Option<Reply>>
    decreases arrivals.len(),
{
    if arrivals.len() == 0 {
        Seq::empty()
    } else if pending.len() == 0 {
        seq![None] + read_history(catalog, pending, arrivals.drop_first())
    } else {
        seq![read_outcome(catalog, pending[0], arrivals[0])] + read_history(
            catalog,
            pending.drop_first(),
            arrivals.drop_first(),
        )
    }
}

/// Replies are given in the order in which the requests were sent: the
/// read at place `k` answers for the request at place `k` among those
/// waited for, from the replies that arrived for that read; none is passed
/// over and none is answered twice.
pub proof fn lemma_reads_in_order(
    catalog: Seq<CommandInfoView>,
    pending: Seq<RequestInfoView>,
    arrivals: Seq<Seq<Option<Reply>>>,
    k: int,
)
    requires
        0 <= k < arrivals.len(),
        k < pending.len(),
    ensures
        read_history(catalog, pending, arrivals).len() == arrivals.len(),
        read_history(catalog, pending, arrivals)[k] == read_outcome(
            catalog,
            pending[k],
            arrivals[k],
        ),
    decreases arrivals.len(),
{
    lemma_read_history_len(catalog, pending, arrivals);
    if k > 0 {
        lemma_reads_in_order(catalog, pending.drop_first(), arrivals.drop_first(), k - 1);
    }
}

/// There is one outcome for each read.
pub proof fn lemma_read_history_len(
    catalog: Seq<CommandInfoView>,
    pending: Seq<RequestInfoView>,
    arrivals: Seq<Seq<Option<Reply>>>,
)
    ensures
        read_history(catalog, pending, arrivals).len() == arrivals.len(),
    decreases arrivals.len(),
{
    if arrivals.len() > 0 {
        if pending.len() == 0 {
            lemma_read_history_len(catalog, pending, arrivals.drop_first());
        } else {
            lemma_read_history_len(catalog, pending.drop_first(), arrivals.drop_first());
        }
    }
}

/// The retry that a reply asks for.
pub fn retry_reason(reply: &Option<Result<Value, Error>>) -> (r: Option<RetryReason>)
    ensures
        match redirect_of(arrival_view(*reply)) {
            Some(reason) => r matches Some(found) && found@ == reason,
            None => r is None,
        },
{
    match reply {
        Some(Ok(Value::Error(e))) => match &e.kind {
            RedisErrorKind::Ask { hash_slot, address } => Some(
                RetryReason::Ask {
                    hash_slot: *hash_slot,
                    address: (copy_bytes(address.0.as_slice()), address.1),
                },
            ),
            RedisErrorKind::Moved { hash_slot, address } => Some(
                RetryReason::Moved {
                    hash_slot: *hash_slot,
                    address: (copy_bytes(address.0.as_slice()), address.1),
                },
            ),
            _ => None,
        },
        _ => None,
    }
}

impl ClusterConnection {
    /// The nodes whose replies the oldest request waits for, in the order
    /// in which they are to be read: shard index and node index.
    pub fn next_reads(&self) -> (r: Option<Vec<(usize, usize)>>)
        ensures
            match r {
                None => self.pending@.len() == 0,
                Some(targets) => {
                    &&& self.pending@.len() > 0
                    &&& targets@.len() == self.pending@[0]@.sub_requests.len()
                    &&& forall|i: int|
                        0 <= i < targets@.len() ==> (#[trigger] targets@[i]).0
                            == self.pending@[0]@.sub_requests[i].shard_index && targets@[i].1
                            == self.pending@[0]@.sub_requests[i].node_index
                },
            },
    {
        if self.pending.len() == 0 {
            return None;
        }
        let parts = &self.pending[0].sub_requests;
        let mut targets: Vec<(usize, usize)> = Vec::new();
        let mut i: usize = 0;
        while i < parts.len()
            invariant
                i <= parts@.len(),
                self.pending@.len() > 0,
                parts == &self.pending@[0].sub_requests,
                targets@.len() == i,
                forall|k: int|
                    0 <= k < i ==> (#[trigger] targets@[k]).0 == parts@[k].shard_index
                        && targets@[k].1 == parts@[k].node_index,
            decreases parts@.len() - i,
        {
            targets.push((parts.at(i).shard_index, parts.at(i).node_index));
            i = i + 1;
        }
        proof {
            assert forall|i: int| 0 <= i < targets@.len() implies (#[trigger] targets@[i]).0
                == self.pending@[0]@.sub_requests[i].shard_index && targets@[i].1
                == self.pending@[0]@.sub_requests[i].node_index by {
                assert(self.pending@[0]@.sub_requests[i] == parts@[i]@);
            }
        }
        Some(targets)
    }

    /// The replies of the parts of a request as one reply.
    pub fn combine_replies(&self, sub_results: Vec<Result<Value, Error>>, request_info: &RequestInfo)
        -> (r: Result<Value, Error>)
        ensures
            reply_view(r) == combined_reply(
                self.command_info_manager@,
                request_info@,
                reply_views(sub_results@),
            ),
    {
        let command_info = match self.command_info_manager.get_command_info_by_name(
            request_info.command_name.as_slice(),
        ) {
            Some(info) => info,
            None => {
                return Err(Error::UnknownCommand(copy_bytes(request_info.command_name.as_slice())));
            },
        };
        let combined = match find_response_policy(&command_info.command_tips) {
            Some(ResponsePolicy::OneSucceeded) => response_policy_one_succeeded(sub_results),
            Some(ResponsePolicy::AllSucceeded) => response_policy_all_succeeded(sub_results),
            Some(ResponsePolicy::Special) => response_policy_special(sub_results),
            Some(policy) => response_policy_agg(sub_results, policy),
            None => no_response_policy(sub_results, request_info),
        };
        match combined {
            Some(r) => r,
            None => Err(Error::UnexpectedReply),
        }
    }

    /// Takes in the replies of the oldest request, one for each of its
    /// parts in their order; a reply is missing where its connection is
    /// closed. The request is no longer waited for.
    pub fn read(&mut self, replies: Vec<Option<Result<Value, Error>>>) -> (r: Option<
        Result<Value, Error>,
    >)
        ensures
            final(self).shards == old(self).shards,
            final(self).slot_ranges == old(self).slot_ranges,
            final(self).command_info_manager == old(self).command_info_manager,
            old(self).pending@.len() == 0 ==> r is None && final(self).pending@ == old(self).pending@,
            old(self).pending@.len() > 0 ==> {
                &&& final(self).pending@ == old(self).pending@.drop_first()
                &&& match read_outcome(
                    old(self).command_info_manager@,
                    old(self).pending@[0]@,
                    arrival_views(replies@),
                ) {
                    None => r is None,
                    Some(reply) => r matches Some(found) && reply_view(found) == reply,
                }
            },
    {
        if self.pending.len() == 0 {
            return None;
        }
        let request_info = self.pending.remove(0);
        assert(self.pending@ =~= old(self).pending@.drop_first());
        let ghost all = arrival_views(replies@);
        let mut sub_results: Vec<Result<Value, Error>> = Vec::new();
        let mut retry_reasons = RetryReasons::new();
        let mut is_none = false;
        let mut i: usize = 0;
        assert(all.take(0) =~= Seq::<Option<Reply>>::empty());
        assert(reply_views(sub_results@) =~= Seq::<Reply>::empty());
        assert(retry_views(retry_reasons@) =~= Seq::<RetryReasonView>::empty());
        while i < replies.len()
            invariant
                i <= replies.len(),
                all == arrival_views(replies@),
                reply_views(sub_results@) == settled(all.take(i as int)),
                retry_views(retry_reasons@) == redirects(all.take(i as int)),
                is_none == any_missing(all.take(i as int)),
            decreases replies.len() - i,
        {
            proof {
                assert(all.take(i + 1).drop_last() =~= all.take(i as int));
                assert(all[i as int] == arrival_view(replies@[i as int]));
                let grown = all.take(i + 1);
                if all[i as int] is None {
                    assert(grown[i as int] is None);
                } else if any_missing(grown) {
                    let k = choose|k: int| 0 <= k < grown.len() && #[trigger] grown[k] is None;
                    assert(all.take(i as int)[k] is None);
                }
                if any_missing(all.take(i as int)) {
                    let k = choose|k: int|
                        0 <= k < all.take(i as int).len() && #[trigger] all.take(i as int)[k]
                            is None;
                    assert(grown[k] is None);
                }
            }
            match &replies[i] {
                Some(result) => match retry_reason(&replies[i]) {
                    Some(reason) => {
                        assert(retry_views(retry_reasons@.push(reason)) =~= retry_views(
                            retry_reasons@,
                        ).push(reason@));
                        retry_reasons.push(reason);
                    },
                    None => {
                        let copy = crate::network::response_policy::duplicate_reply(result);
                        assert(reply_views(sub_results@.push(copy)) =~= reply_views(
                            sub_results@,
                        ).push(reply_view(copy)));
                        sub_results.push(copy);
                    },
                },
                None => {
                    is_none = true;
                },
            }
            i = i + 1;
        }
        assert(all.take(replies.len() as int) =~= all);
        if is_none {
            return None;
        }
        if retry_reasons.len() > 0 {
            return Some(Err(Error::Retry(retry_reasons)));
        }
        Some(self.combine_replies(sub_results, &request_info))
    }
}

/// What sending a batch out comes to. The shard table and the catalog stay
/// as they were. For each command that was sent, in order, there are its
/// writes and, behind the requests that waited before, its request; both
/// are what `command_outcome` says of the command, with the redirections
/// among the reasons followed once. The batch ends with the first command
/// that fails, with the error of that command.
pub open spec fn batch_written(
    before: ClusterConnection,
    after: ClusterConnection,
    commands: Seq<Command>,
    given_keys: Seq<Option<KeyList>>,
    reasons: Seq<RetryReasonView>,
    writes: Seq<Vec<Write>>,
    error: Option<Error>,
) -> bool {
    &&& after.well_formed()
    &&& after.shards == before.shards
    &&& after.slot_ranges == before.slot_ranges
    &&& after.command_info_manager == before.command_info_manager
    &&& writes.len() <= commands.len()
    &&& after.pending@.len() == before.pending@.len() + writes.len()
    &&& after.pending@.take(before.pending@.len() as int) == before.pending@
    &&& forall|i: int|
        0 <= i < writes.len() ==> command_outcome(
            shard_views(before.shards@),
            before.slot_ranges@,
            before.command_info_manager@,
            asks_among(reasons),
            (#[trigger] commands[i])@,
            given_at(given_keys, i),
            Ok(
                DispatchView {
                    writes: write_views(writes[i]@),
                    request_info: after.pending@[before.pending@.len() + i]@,
                },
            ),
        )
    &&& error is None ==> writes.len() == commands.len()
    &&& error matches Some(e) ==> writes.len() < commands.len() && command_outcome(
        shard_views(before.shards@),
        before.slot_ranges@,
        before.command_info_manager@,
        asks_among(reasons),
        commands[writes.len() as int]@,
        given_at(given_keys, writes.len() as int),
        Err(e@),
    )
}

/// The reasons for a retry that are left once the shard table has been read
/// anew: the redirections to follow once, in order.
pub open spec fn reasons_left(reasons: Seq<RetryReasonView>) -> Seq<RetryReasonView>
    decreases reasons.len(),
{
    if reasons.len() == 0 {
        Seq::empty()
    } else if reasons.last() is Moved {
        reasons_left(reasons.drop_last())
    } else {
        reasons_left(reasons.drop_last()).push(reasons.last())
    }
}

/// Among the reasons that are left none says that a slot has moved, and the
/// redirections to follow once are those that there were.
pub proof fn lemma_reasons_left(reasons: Seq<RetryReasonView>)
    ensures
        !any_moved(reasons_left(reasons)),
        asks_among(reasons_left(reasons)) == asks_among(reasons),
        !any_moved(reasons) ==> reasons_left(reasons) == reasons,
    decreases reasons.len(),
{
    if reasons.len() > 0 {
        let front = reasons.drop_last();
        lemma_reasons_left(front);
        let left = reasons_left(reasons);
        if !(reasons.last() is Moved) {
            assert(left.drop_last() =~= reasons_left(front));
            assert forall|i: int| 0 <= i < left.len() implies !(#[trigger] left[i] is Moved) by {
                if i < left.len() - 1 {
                    assert(left[i] == reasons_left(front)[i]);
                }
            }
        }
        if !any_moved(reasons) {
            assert(!(reasons[reasons.len() - 1] is Moved));
            assert forall|i: int| 0 <= i < front.len() implies !(#[trigger] front[i] is Moved) by {
                assert(front[i] == reasons[i]);
            }
            assert(reasons_left(front).push(reasons.last()) =~= reasons);
        }
    }
}

/// The reasons for a retry that are left once the shard table has been read
/// anew.
pub fn after_reconnect(retry_reasons: &Vec<RetryReason>) -> (r: Vec<RetryReason>)
    ensures
        retry_views(r@) == reasons_left(retry_views(retry_reasons@)),
        !any_moved(retry_views(r@)),
        asks_among(retry_views(r@)) == asks_among(retry_views(retry_reasons@)),
{
    let ghost all = retry_views(retry_reasons@);
    let mut left: Vec<RetryReason> = Vec::new();
    let mut i: usize = 0;
    assert(all.take(0) =~= Seq::<RetryReasonView>::empty());
    assert(retry_views(left@) =~= Seq::<RetryReasonView>::empty());
    while i < retry_reasons.len()
        invariant
            i <= retry_reasons.len(),
            all == retry_views(retry_reasons@),
            retry_views(left@) == reasons_left(all.take(i as int)),
        decreases retry_reasons.len() - i,
    {
        proof {
            assert(all.take(i + 1).drop_last() =~= all.take(i as int));
            assert(all.take(i + 1).last() == retry_reasons@[i as int]@);
        }
        match &retry_reasons[i] {
            RetryReason::Moved { .. } => {},
            other => {
                let reason = other.duplicate();
                assert(retry_views(left@.push(reason)) =~= retry_views(left@).push(reason@));
                left.push(reason);
            },
        }
        i = i + 1;
    }
    proof {
        assert(all.take(retry_reasons.len() as int) =~= all);
        lemma_reasons_left(all);
    }
    left
}

/// What is to be done with a batch of commands.
pub enum BatchStep {
    /// One of the reasons for the retry says that a slot has moved: nothing
    /// was written. The shard table is to be read anew, and the batch to be
    /// sent again with the keys as they were given and the reasons that are
    /// left.
    Reconnect { given_keys: Vec<Option<KeyList>>, retry_reasons: Vec<RetryReason> },
    /// The batch was sent out: the writes for each command that was sent,
    /// and the error of the first command that failed.
    Written { writes: Vec<Vec<Write>>, error: Option<Error> },
}

impl ClusterConnection {
    /// What to do for one command with the given keys: the writes and the
    /// request to remember.
    pub fn dispatch(&self, command: &Command, keys: KeyList, ask_reasons: &Vec<AskReason>) -> (r:
        Result<Dispatch, Error>)
        requires
            self.well_formed(),
            command@.args.len() < usize::MAX,
        ensures
            dispatch_outcome(
                shard_views(self.shards@),
                self.slot_ranges@,
                self.command_info_manager@,
                ask_views(ask_reasons@),
                command@,
                key_list(keys),
                dispatch_view(r),
            ),
    {
        let command_info = match self.command_info_manager.get_command_info(command) {
            Some(info) => info,
            None => {
                return Err(Error::UnknownCommand(copy_bytes(command.name.as_slice())));
            },
        };
        let command_name = command_info.name.as_slice();
        let slots = hash_slots(&keys);
        match find_request_policy(&command_info.command_tips) {
            Some(RequestPolicy::AllNodes) => Ok(
                self.request_policy_all_nodes(command, command_name, keys),
            ),
            Some(RequestPolicy::AllShards) => Ok(
                self.request_policy_all_shards(command, command_name, keys),
            ),
            Some(RequestPolicy::MultiShard) => self.request_policy_multi_shard(
                command,
                command_name,
                keys,
                &slots,
                ask_reasons,
            ),
            Some(RequestPolicy::Special) => Err(self.request_policy_special()),
            None => {
                proof {
                    assert(self.slot_ranges@[0].shard_index < self.shards@.len());
                }
                let pick = random_index(self.shards.len());
                self.no_request_policy(command, command_name, keys, &slots, ask_reasons, pick)
            },
        }
    }

    /// Sends a batch of commands out: for each command in turn the writes,
    /// in order, and the request to wait for. Keys may be given for a
    /// command, at its index; where none are, the catalog has to find them.
    /// The batch stops at the first command that fails; the commands before
    /// it stay sent. None of the reasons for a retry may say that a slot has
    /// moved: the shard table has to be read anew first, see `prepare_batch`.
    pub fn write_batch(
        &mut self,
        commands: &Vec<Command>,
        given_keys: Vec<Option<KeyList>>,
        retry_reasons: &Vec<RetryReason>,
    ) -> (r: (Vec<Vec<Write>>, Option<Error>))
        requires
            old(self).well_formed(),
            !any_moved(retry_views(retry_reasons@)),
            forall|i: int|
                0 <= i < commands@.len() ==> (#[trigger] commands@[i])@.args.len() < usize::MAX,
        ensures
            batch_written(
                *old(self),
                *final(self),
                commands@,
                given_keys@,
                retry_views(retry_reasons@),
                r.0@,
                r.1,
            ),
    {
        let asks = ask_reasons(retry_reasons);
        let ghost given = given_keys@;
        let mut remaining = given_keys;
        let mut batches: Vec<Vec<Write>> = Vec::new();
        let mut i: usize = 0;
        assert(self.pending@.take(old(self).pending@.len() as int) =~= old(self).pending@);
        while i < commands.len()
            invariant
                i <= commands.len(),
                given == given_keys@,
                remaining@.len() == given.len(),
                forall|k: int| i <= k < given.len() ==> remaining@[k] == #[trigger] given[k],
                forall|k: int|
                    0 <= k < commands@.len() ==> (#[trigger] commands@[k])@.args.len() < usize::MAX,
                ask_views(asks@) == asks_among(retry_views(retry_reasons@)),
                self.well_formed(),
                self.shards == old(self).shards,
                self.slot_ranges == old(self).slot_ranges,
                self.command_info_manager == old(self).command_info_manager,
                batches@.len() == i,
                self.pending@.len() == old(self).pending@.len() + i,
                self.pending@.take(old(self).pending@.len() as int) == old(self).pending@,
                forall|k: int|
                    0 <= k < i ==> command_outcome(
                        shard_views(old(self).shards@),
                        old(self).slot_ranges@,
                        old(self).command_info_manager@,
                        asks_among(retry_views(retry_reasons@)),
                        (#[trigger] commands@[k])@,
                        given_at(given, k),
                        Ok(
                            DispatchView {
                                writes: write_views(batches@[k]@),
                                request_info: self.pending@[old(self).pending@.len() + k]@,
                            },
                        ),
                    ),
            decreases commands.len() - i,
        {
            let command = &commands[i];
            let mut taken: Option<KeyList> = None;
            if i < remaining.len() {
                std::mem::swap(&mut taken, &mut remaining[i]);
                assert(taken == given[i as int]);
            }
            let keys = match taken {
                Some(keys) => keys,
                None => match self.command_info_manager.extract_keys(command) {
                    Ok(Some(keys)) => keys,
                    Ok(None) => {
                        return (batches, Some(Error::KeyExtraction));
                    },
                    Err(e) => {
                        return (batches, Some(e));
                    },
                },
            };
            match self.dispatch(command, keys, &asks) {
                Ok(d) => {
                    let ghost before = self.pending@;
                    let ghost done = batches@;
                    let Dispatch { writes, request_info } = d;
                    self.pending.push(request_info);
                    batches.push(writes);
                    proof {
                        let base = old(self).pending@.len() as int;
                        assert(self.pending@.take(base) =~= before.take(base));
                        assert forall|k: int| 0 <= k < i + 1 implies command_outcome(
                            shard_views(old(self).shards@),
                            old(self).slot_ranges@,
                            old(self).command_info_manager@,
                            asks_among(retry_views(retry_reasons@)),
                            (#[trigger] commands@[k])@,
                            given_at(given, k),
                            Ok(
                                DispatchView {
                                    writes: write_views(batches@[k]@),
                                    request_info: self.pending@[base + k]@,
                                },
                            ),
                        ) by {
                            if k < i {
                                assert(batches@[k] == done[k]);
                                assert(self.pending@[base + k] == before[base + k]);
                            }
                        }
                    }
                },
                Err(e) => {
                    return (batches, Some(e));
                },
            }
            i = i + 1;
        }
        (batches, None)
    }

    /// Sends a batch of commands out unless the shard table is stale. Where
    /// one of the reasons for the retry says that a slot has moved, nothing
    /// is written and nothing changes: the answer is to read the shard
    /// table anew first. Else the batch is sent out as `write_batch` does.
    pub fn prepare_batch(
        &mut self,
        commands: &Vec<Command>,
        given_keys: Vec<Option<KeyList>>,
        retry_reasons: &Vec<RetryReason>,
    ) -> (r: BatchStep)
        requires
            old(self).well_formed(),
            forall|i: int|
                0 <= i < commands@.len() ==> (#[trigger] commands@[i])@.args.len() < usize::MAX,
        ensures
            any_moved(retry_views(retry_reasons@)) ==> *final(self) == *old(self) && (
            r matches BatchStep::Reconnect { given_keys: given, retry_reasons: left } && given
                == given_keys && retry_views(left@) == reasons_left(retry_views(retry_reasons@))
                && !any_moved(retry_views(left@)) && asks_among(retry_views(left@)) == asks_among(
                retry_views(retry_reasons@),
            )),
            !any_moved(retry_views(retry_reasons@)) ==> (r matches BatchStep::Written {
                writes,
                error,
            } && batch_written(
                *old(self),
                *final(self),
                commands@,
                given_keys@,
                retry_views(retry_reasons@),
                writes@,
                error,
            )),
    {
        if must_reconnect(retry_reasons) {
            return BatchStep::Reconnect {
                given_keys,
                retry_reasons: after_reconnect(retry_reasons),
            };
        }
        let (writes, error) = self.write_batch(commands, given_keys, retry_reasons);
        BatchStep::Written { writes, error }
    }
}

} // verus!
