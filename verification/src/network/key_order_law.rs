//! What holds of a request that is sent out in parts: keys of one shard go
//! in one part, and the reply follows the keys of the request.

use vstd::prelude::*;
use crate::commands::command_info::CommandInfoView;
use crate::network::cluster_connection::{
    AskReasonView, DispatchView, RequestInfoView, SubRequestView, WriteView,
};
use crate::network::multi_shard::{
    all_keys, multi_shard_plan, part_ok, routed_to, target_before, target_of, write_target,
};
use crate::network::topology::{NodeView, SlotRange};
use crate::resp::command::CommandView;
use crate::network::read_policy::{
    all_answered, answer_at, answers, count_of, keyed, lemma_answer_found, ordered, pair_keys,
    pairs_from, zipped,
};
use crate::network::response_policy::Reply;
use crate::resp::value::ValueView;

verus! {

/// The keys that belong to part `j`, in the order of the request.
pub open spec fn keys_of_part(keys: Seq<Seq<u8>>, part_of: spec_fn(Seq<u8>) -> int, j: int) -> Seq<
    Seq<u8>,
>
    decreases keys.len(),
{
    if keys.len() == 0 {
        Seq::empty()
    } else if part_of(keys.last()) == j {
        keys_of_part(keys.drop_last(), part_of, j).push(keys.last())
    } else {
        keys_of_part(keys.drop_last(), part_of, j)
    }
}

/// The parts split the keys of the request: every key belongs to one of
/// the parts, and each part carries the keys that belong to it, in the order
/// of the request.
pub open spec fn split_by(
    keys: Seq<Seq<u8>>,
    parts: Seq<SubRequestView>,
    part_of: spec_fn(Seq<u8>) -> int,
) -> bool {
    &&& forall|i: int| 0 <= i < keys.len() ==> 0 <= #[trigger] part_of(keys[i]) < parts.len()
    &&& forall|j: int|
        0 <= j < parts.len() ==> (#[trigger] parts[j]).keys == keys_of_part(keys, part_of, j)
}

/// The place within its part of the key at `i`: the number of keys before
/// it that belong to the same part.
pub open spec fn place_of(keys: Seq<Seq<u8>>, part_of: spec_fn(Seq<u8>) -> int, i: int) -> int {
    keys_of_part(keys.take(i), part_of, part_of(keys[i])).len() as int
}

/// Every part has got an array of as many values as it has keys.
pub open spec fn replies_fit(results: Seq<Reply>, parts: Seq<SubRequestView>) -> bool {
    &&& results.len() == parts.len()
    &&& forall|j: int|
        0 <= j < results.len() ==> (#[trigger] results[j] matches Ok(ValueView::Array(Some(v)))
            && v.len() == parts[j].keys.len())
}

/// The values that the reply of a part holds.
pub open spec fn reply_values(r: Reply) -> Seq<ValueView> {
    match r {
        Ok(ValueView::Array(Some(v))) => v,
        _ => Seq::empty(),
    }
}

/// The keys of the first `n` parts, each with the value that the reply of
/// its part holds at its place.
pub open spec fn joined(results: Seq<Reply>, parts: Seq<SubRequestView>, n: int) -> Seq<
    (Seq<u8>, ValueView),
>
    decreases n,
{
    if n <= 0 {
        Seq::empty()
    } else {
        joined(results, parts, n - 1) + zipped(parts[n - 1].keys, reply_values(results[n - 1]))
    }
}

/// Where every reply fits its part, the pairs taken from the replies are
/// the keys of the parts with their values, part by part.
proof fn lemma_joined(results: Seq<Reply>, parts: Seq<SubRequestView>, i: int)
    requires
        replies_fit(results, parts),
        0 <= i <= results.len(),
    ensures
        pairs_from(results, parts, joined(results, parts, i), i) == Ok::<
            Seq<(Seq<u8>, ValueView)>,
            Reply,
        >(joined(results, parts, results.len() as int)),
    decreases results.len() - i,
{
    if i < results.len() {
        lemma_joined(results, parts, i + 1);
    }
}

/// The keys of the pairs of the first `n` parts are the keys of those
/// parts.
proof fn lemma_joined_keys(results: Seq<Reply>, parts: Seq<SubRequestView>, n: int)
    requires
        replies_fit(results, parts),
        0 <= n <= parts.len(),
    ensures
        pair_keys(joined(results, parts, n)) == all_keys(parts.take(n)),
    decreases n,
{
    if n > 0 {
        lemma_joined_keys(results, parts, n - 1);
        assert(parts.take(n).drop_last() =~= parts.take(n - 1));
        assert(parts.take(n).last() == parts[n - 1]);
        let row = zipped(parts[n - 1].keys, reply_values(results[n - 1]));
        assert(pair_keys(row) =~= parts[n - 1].keys);
        assert(pair_keys(joined(results, parts, n - 1) + row) =~= pair_keys(
            joined(results, parts, n - 1),
        ) + pair_keys(row));
    } else {
        assert(pair_keys(joined(results, parts, n)) =~= all_keys(parts.take(n)));
    }
}

/// The pairs of the first parts stand at the head of the pairs of more
/// parts.
proof fn lemma_joined_prefix(results: Seq<Reply>, parts: Seq<SubRequestView>, a: int, b: int)
    requires
        0 <= a <= b,
    ensures
        joined(results, parts, a).len() <= joined(results, parts, b).len(),
        joined(results, parts, b).take(joined(results, parts, a).len() as int) == joined(
            results,
            parts,
            a,
        ),
    decreases b - a,
{
    if a < b {
        lemma_joined_prefix(results, parts, a, b - 1);
        let front = joined(results, parts, b - 1);
        let whole = joined(results, parts, b);
        let head = joined(results, parts, a);
        assert(whole.take(head.len() as int) =~= front.take(head.len() as int));
    } else {
        assert(joined(results, parts, b).take(joined(results, parts, a).len() as int)
            =~= joined(results, parts, a));
    }
}

/// Every key of a part belongs to it.
proof fn lemma_part_elements(keys: Seq<Seq<u8>>, part_of: spec_fn(Seq<u8>) -> int, j: int)
    ensures
        forall|m: int|
            0 <= m < keys_of_part(keys, part_of, j).len() ==> part_of(
                #[trigger] keys_of_part(keys, part_of, j)[m],
            ) == j,
    decreases keys.len(),
{
    if keys.len() > 0 {
        lemma_part_elements(keys.drop_last(), part_of, j);
        let front = keys_of_part(keys.drop_last(), part_of, j);
        let whole = keys_of_part(keys, part_of, j);
        assert forall|m: int| 0 <= m < whole.len() implies part_of(#[trigger] whole[m]) == j by {
            if m < front.len() {
                assert(whole[m] == front[m]);
            }
        }
    }
}

/// A key that stands nowhere among the keys is counted zero times.
proof fn lemma_count_none(keys: Seq<Seq<u8>>, key: Seq<u8>)
    requires
        forall|m: int| 0 <= m < keys.len() ==> #[trigger] keys[m] != key,
    ensures
        count_of(keys, key) == 0,
    decreases keys.len(),
{
    if keys.len() > 0 {
        assert forall|m: int| 0 <= m < keys.drop_last().len() implies #[trigger] keys.drop_last()[m]
            != key by {
            assert(keys.drop_last()[m] == keys[m]);
        }
        lemma_count_none(keys.drop_last(), key);
        assert(keys[keys.len() - 1] != key);
    }
}

/// A key is counted in two runs of keys as often as in the one and in the
/// other.
proof fn lemma_count_concat(a: Seq<Seq<u8>>, b: Seq<Seq<u8>>, key: Seq<u8>)
    ensures
        count_of(a + b, key) == count_of(a, key) + count_of(b, key),
    decreases b.len(),
{
    if b.len() > 0 {
        lemma_count_concat(a, b.drop_last(), key);
        assert((a + b).drop_last() =~= a + b.drop_last());
        assert((a + b).last() == b.last());
    } else {
        assert(a + b =~= a);
    }
}

/// The part that a key belongs to holds it as often as the request.
proof fn lemma_count_part(keys: Seq<Seq<u8>>, part_of: spec_fn(Seq<u8>) -> int, key: Seq<u8>)
    ensures
        count_of(keys_of_part(keys, part_of, part_of(key)), key) == count_of(keys, key),
    decreases keys.len(),
{
    if keys.len() > 0 {
        lemma_count_part(keys.drop_last(), part_of, key);
        let front = keys_of_part(keys.drop_last(), part_of, part_of(key));
        if part_of(keys.last()) == part_of(key) {
            assert(front.push(keys.last()).drop_last() =~= front);
        }
    }
}

/// The key at `i` stands in its part at its place, and before it stand the
/// keys of the part that the request has before `i`.
proof fn lemma_part_place(keys: Seq<Seq<u8>>, part_of: spec_fn(Seq<u8>) -> int, i: int, n: int)
    requires
        0 <= i < n <= keys.len(),
    ensures
        ({
            let part = keys_of_part(keys.take(n), part_of, part_of(keys[i]));
            let place = place_of(keys, part_of, i);
            &&& place < part.len()
            &&& part[place] == keys[i]
            &&& part.take(place) == keys_of_part(keys.take(i), part_of, part_of(keys[i]))
        }),
    decreases n,
{
    let j = part_of(keys[i]);
    let before = keys_of_part(keys.take(i), part_of, j);
    let part = keys_of_part(keys.take(n), part_of, j);
    assert(keys.take(n).drop_last() =~= keys.take(n - 1));
    assert(keys.take(n).last() == keys[n - 1]);
    if n == i + 1 {
        assert(part =~= before.push(keys[i]));
        assert(part.take(before.len() as int) =~= before);
    } else {
        lemma_part_place(keys, part_of, i, n - 1);
        let shorter = keys_of_part(keys.take(n - 1), part_of, j);
        assert(part.take(before.len() as int) =~= shorter.take(before.len() as int));
    }
}

/// None of the keys of the first `n` parts belongs to part `n` or a later
/// one.
proof fn lemma_earlier_parts(
    keys: Seq<Seq<u8>>,
    parts: Seq<SubRequestView>,
    part_of: spec_fn(Seq<u8>) -> int,
    n: int,
)
    requires
        split_by(keys, parts, part_of),
        0 <= n <= parts.len(),
    ensures
        forall|m: int|
            0 <= m < all_keys(parts.take(n)).len() ==> part_of(
                #[trigger] all_keys(parts.take(n))[m],
            ) < n,
    decreases n,
{
    if n > 0 {
        lemma_earlier_parts(keys, parts, part_of, n - 1);
        lemma_part_elements(keys, part_of, n - 1);
        assert(parts.take(n).drop_last() =~= parts.take(n - 1));
        assert(parts.take(n).last() == parts[n - 1]);
        let front = all_keys(parts.take(n - 1));
        let whole = all_keys(parts.take(n));
        assert forall|m: int| 0 <= m < whole.len() implies part_of(#[trigger] whole[m]) < n by {
            if m < front.len() {
                assert(whole[m] == front[m]);
            } else {
                assert(whole[m] == parts[n - 1].keys[m - front.len()]);
            }
        }
    } else {
        assert(all_keys(parts.take(n)) =~= Seq::<Seq<u8>>::empty());
    }
}

/// The pair that answers the key at `i` is the one that the part of the key
/// holds at the place of the key.
proof fn lemma_answer_in_part(
    results: Seq<Reply>,
    info: RequestInfoView,
    part_of: spec_fn(Seq<u8>) -> int,
    i: int,
)
    requires
        split_by(info.keys, info.sub_requests, part_of),
        replies_fit(results, info.sub_requests),
        0 <= i < info.keys.len(),
    ensures
        ({
            let pairs = joined(results, info.sub_requests, results.len() as int);
            let j = part_of(info.keys[i]);
            let place = place_of(info.keys, part_of, i);
            let at = joined(results, info.sub_requests, j).len() + place;
            &&& 0 <= place < reply_values(results[j]).len()
            &&& answers(pairs, info.keys, i, at)
            &&& pairs[at].1 == reply_values(results[j])[place]
        }),
{
    let keys = info.keys;
    let parts = info.sub_requests;
    let n = results.len() as int;
    let key = keys[i];
    let j = part_of(key);
    let place = place_of(keys, part_of, i);
    let pairs = joined(results, parts, n);
    let head = joined(results, parts, j);
    let upto = joined(results, parts, j + 1);
    let row = zipped(parts[j].keys, reply_values(results[j]));
    let at = head.len() + place;
    assert(0 <= j < parts.len());
    lemma_part_place(keys, part_of, i, keys.len() as int);
    assert(keys.take(keys.len() as int) =~= keys);
    assert(parts[j].keys == keys_of_part(keys, part_of, j));
    assert(place < row.len());
    lemma_joined_prefix(results, parts, j + 1, n);
    assert(upto =~= head + row);
    assert(pairs.take(upto.len() as int)[at] == upto[at]);
    assert(upto[at] == row[place]);
    assert(pairs[at] == (key, reply_values(results[j])[place]));
    let names = pair_keys(pairs);
    lemma_joined_keys(results, parts, j);
    lemma_earlier_parts(keys, parts, part_of, j);
    let early = all_keys(parts.take(j));
    assert forall|m: int| 0 <= m < early.len() implies #[trigger] early[m] != key by {
        assert(part_of(early[m]) < j);
    }
    lemma_count_none(early, key);
    let inside = parts[j].keys.take(place);
    assert(names.take(at) =~= pair_keys(head) + inside) by {
        assert forall|m: int| 0 <= m < at implies names.take(at)[m] == (pair_keys(head) + inside)[m] by {
            assert(pairs.take(upto.len() as int)[m] == upto[m]);
            if m >= head.len() {
                assert(upto[m] == row[m - head.len()]);
            } else {
                assert(upto[m] == head[m]);
            }
        }
    }
    lemma_count_concat(early, inside, key);
    lemma_count_part(keys.take(i), part_of, key);
}

/// The reply to a request that was sent out in parts follows its keys. Let
/// the parts split the keys of the request, the keys of the parts together
/// be the keys of the request, each as often as it was given, and every
/// part have got an array of as many values as it has keys. Then the
/// combined reply is an array with one value for each key of the request,
/// in the order of those keys: the value that the part of the key got at the
/// place of the key, also where a key is given more than once.
pub proof fn lemma_reply_follows_keys(
    results: Seq<Reply>,
    info: RequestInfoView,
    part_of: spec_fn(Seq<u8>) -> int,
)
    requires
        split_by(info.keys, info.sub_requests, part_of),
        all_keys(info.sub_requests).to_multiset() == info.keys.to_multiset(),
        replies_fit(results, info.sub_requests),
    ensures
        keyed(results, info) matches Ok(ValueView::Array(Some(values))) && values.len()
            == info.keys.len() && forall|i: int|
            0 <= i < info.keys.len() ==> #[trigger] values[i] == reply_values(
                results[part_of(info.keys[i])],
            )[place_of(info.keys, part_of, i)],
{
    let parts = info.sub_requests;
    let keys = info.keys;
    let n = results.len() as int;
    let pairs = joined(results, parts, n);
    lemma_joined(results, parts, 0);
    lemma_joined_keys(results, parts, n);
    assert(parts.take(n) =~= parts);
    vstd::seq_lib::to_multiset_len(pair_keys(pairs));
    vstd::seq_lib::to_multiset_len(keys);
    assert(pairs.len() == keys.len());
    assert forall|i: int| 0 <= i < keys.len() implies #[trigger] answer_at(pairs, keys, i) >= 0
        && pairs[answer_at(pairs, keys, i)].1 == reply_values(results[part_of(keys[i])])[place_of(
        keys,
        part_of,
        i,
    )] by {
        lemma_answer_in_part(results, info, part_of, i);
        let at = joined(results, parts, part_of(keys[i])).len() + place_of(keys, part_of, i);
        lemma_answer_found(pairs, keys, i, at, pairs.len() as int);
    }
    assert(all_answered(pairs, keys));
    let values = ordered(pairs, keys);
    assert forall|i: int| 0 <= i < keys.len() implies #[trigger] values[i] == reply_values(
        results[part_of(keys[i])],
    )[place_of(keys, part_of, i)] by {
        assert(answer_at(pairs, keys, i) >= 0);
    }
}

/// The index of the part that a key goes with: the index below `n` of the
/// write that has the target of the key; -1 where none has it.
pub open spec fn part_index(
    shards: Seq<Seq<NodeView>>,
    ranges: Seq<SlotRange>,
    asks: Seq<AskReasonView>,
    writes: Seq<WriteView>,
    key: Seq<u8>,
    n: int,
) -> int
    decreases n,
{
    if n <= 0 {
        -1
    } else if target_of(shards, ranges, asks, key) == Some(write_target(writes[n - 1])) {
        n - 1
    } else {
        part_index(shards, ranges, asks, writes, key, n - 1)
    }
}

/// The writes stand in the order of their targets.
pub open spec fn targets_ascend(writes: Seq<WriteView>) -> bool {
    forall|j: int, k: int|
        0 <= j < k < writes.len() ==> target_before(#[trigger] writes[j], #[trigger] writes[k])
}

/// A key goes with the part whose write has its target.
proof fn lemma_part_index(
    shards: Seq<Seq<NodeView>>,
    ranges: Seq<SlotRange>,
    asks: Seq<AskReasonView>,
    writes: Seq<WriteView>,
    key: Seq<u8>,
    n: int,
    j: int,
)
    requires
        targets_ascend(writes),
        0 <= j < n <= writes.len(),
        target_of(shards, ranges, asks, key) == Some(write_target(writes[j])),
    ensures
        part_index(shards, ranges, asks, writes, key, n) == j,
    decreases n,
{
    if n - 1 > j {
        assert(target_before(writes[j], writes[n - 1]));
        lemma_part_index(shards, ranges, asks, writes, key, n - 1, j);
    }
}

/// The write of the part that a key goes with has the target of the key.
proof fn lemma_part_index_target(
    shards: Seq<Seq<NodeView>>,
    ranges: Seq<SlotRange>,
    asks: Seq<AskReasonView>,
    writes: Seq<WriteView>,
    key: Seq<u8>,
    n: int,
)
    requires
        0 <= n <= writes.len(),
    ensures
        ({
            let j = part_index(shards, ranges, asks, writes, key, n);
            -1 <= j < n && (j >= 0 ==> target_of(shards, ranges, asks, key) == Some(
                write_target(writes[j]),
            ))
        }),
    decreases n,
{
    if n > 0 {
        lemma_part_index_target(shards, ranges, asks, writes, key, n - 1);
    }
}

/// The keys that belong to a part are the keys that go to the target of its
/// write.
proof fn lemma_part_is_routed(
    shards: Seq<Seq<NodeView>>,
    ranges: Seq<SlotRange>,
    asks: Seq<AskReasonView>,
    writes: Seq<WriteView>,
    keys: Seq<Seq<u8>>,
    j: int,
)
    requires
        targets_ascend(writes),
        0 <= j < writes.len(),
    ensures
        keys_of_part(
            keys,
            |k: Seq<u8>| part_index(shards, ranges, asks, writes, k, writes.len() as int),
            j,
        ) == routed_to(shards, ranges, asks, keys, write_target(writes[j])),
    decreases keys.len(),
{
    let part_of = |k: Seq<u8>| part_index(shards, ranges, asks, writes, k, writes.len() as int);
    if keys.len() > 0 {
        lemma_part_is_routed(shards, ranges, asks, writes, keys.drop_last(), j);
        let key = keys.last();
        lemma_part_index_target(shards, ranges, asks, writes, key, writes.len() as int);
        if target_of(shards, ranges, asks, key) == Some(write_target(writes[j])) {
            lemma_part_index(shards, ranges, asks, writes, key, writes.len() as int, j);
        }
        assert(part_of(key) == j <==> target_of(shards, ranges, asks, key) == Some(
            write_target(writes[j]),
        ));
    }
}

/// Every key that goes to a target has that target.
proof fn lemma_routed_elements(
    shards: Seq<Seq<NodeView>>,
    ranges: Seq<SlotRange>,
    asks: Seq<AskReasonView>,
    keys: Seq<Seq<u8>>,
    target: (usize, bool),
)
    ensures
        forall|m: int|
            0 <= m < routed_to(shards, ranges, asks, keys, target).len() ==> target_of(
                shards,
                ranges,
                asks,
                #[trigger] routed_to(shards, ranges, asks, keys, target)[m],
            ) == Some(target),
    decreases keys.len(),
{
    if keys.len() > 0 {
        lemma_routed_elements(shards, ranges, asks, keys.drop_last(), target);
        let front = routed_to(shards, ranges, asks, keys.drop_last(), target);
        let whole = routed_to(shards, ranges, asks, keys, target);
        assert forall|m: int| 0 <= m < whole.len() implies target_of(
            shards,
            ranges,
            asks,
            #[trigger] whole[m],
        ) == Some(target) by {
            if m < front.len() {
                assert(whole[m] == front[m]);
            }
        }
    }
}

/// A key among the keys of the parts is a key of one of the parts.
proof fn lemma_key_in_part(parts: Seq<SubRequestView>, key: Seq<u8>)
    requires
        all_keys(parts).contains(key),
    ensures
        exists|j: int, m: int|
            0 <= j < parts.len() && 0 <= m < parts[j].keys.len() && #[trigger] parts[j].keys[m]
                == key,
    decreases parts.len(),
{
    let at = choose|at: int| 0 <= at < all_keys(parts).len() && all_keys(parts)[at] == key;
    if parts.len() > 0 {
        let front = all_keys(parts.drop_last());
        if at < front.len() {
            assert(front[at] == key);
            lemma_key_in_part(parts.drop_last(), key);
            let (j, m) = choose|j: int, m: int|
                0 <= j < parts.drop_last().len() && 0 <= m < parts.drop_last()[j].keys.len()
                    && #[trigger] parts.drop_last()[j].keys[m] == key;
            assert(parts[j].keys[m] == key);
        } else {
            assert(parts[parts.len() - 1].keys[at - front.len()] == key);
        }
    }
}

/// The parts of a multi-shard request split its keys: every key goes with
/// the part whose write has the target of the key, and each part carries its
/// keys in the order of the request.
pub proof fn lemma_plan_splits(
    shards: Seq<Seq<NodeView>>,
    ranges: Seq<SlotRange>,
    asks: Seq<AskReasonView>,
    catalog: Seq<CommandInfoView>,
    c: CommandView,
    command_name: Seq<u8>,
    keys: Seq<Seq<u8>>,
    d: DispatchView,
)
    requires
        multi_shard_plan(shards, ranges, asks, catalog, c, command_name, keys, d),
    ensures
        split_by(
            keys,
            d.request_info.sub_requests,
            |k: Seq<u8>| part_index(shards, ranges, asks, d.writes, k, d.writes.len() as int),
        ),
{
    let parts = d.request_info.sub_requests;
    let writes = d.writes;
    let part_of = |k: Seq<u8>| part_index(shards, ranges, asks, writes, k, writes.len() as int);
    assert(targets_ascend(writes));
    assert forall|j: int| 0 <= j < parts.len() implies (#[trigger] parts[j]).keys == keys_of_part(
        keys,
        part_of,
        j,
    ) by {
        lemma_part_is_routed(shards, ranges, asks, writes, keys, j);
        assert(part_ok(shards, ranges, asks, catalog, c, keys, parts[j], writes[j]));
    }
    assert forall|i: int| 0 <= i < keys.len() implies 0 <= #[trigger] part_of(keys[i])
        < parts.len() by {
        let key = keys[i];
        assert(keys.contains(key));
        vstd::seq_lib::to_multiset_contains(keys, key);
        vstd::seq_lib::to_multiset_contains(all_keys(parts), key);
        lemma_key_in_part(parts, key);
        let (j, m) = choose|j: int, m: int|
            0 <= j < parts.len() && 0 <= m < parts[j].keys.len() && #[trigger] parts[j].keys[m]
                == key;
        assert(part_ok(shards, ranges, asks, catalog, c, keys, parts[j], writes[j]));
        lemma_routed_elements(shards, ranges, asks, keys, write_target(writes[j]));
        assert(routed_to(shards, ranges, asks, keys, write_target(writes[j]))[m] == key);
        lemma_part_index(shards, ranges, asks, writes, key, writes.len() as int, j);
    }
}

/// Where every key goes to the target, the keys that go to it are all the
/// keys.
proof fn lemma_routed_whole(
    shards: Seq<Seq<NodeView>>,
    ranges: Seq<SlotRange>,
    asks: Seq<AskReasonView>,
    keys: Seq<Seq<u8>>,
    target: (usize, bool),
)
    requires
        forall|i: int|
            0 <= i < keys.len() ==> target_of(shards, ranges, asks, #[trigger] keys[i]) == Some(
                target,
            ),
    ensures
        routed_to(shards, ranges, asks, keys, target) == keys,
    decreases keys.len(),
{
    if keys.len() > 0 {
        let front = keys.drop_last();
        assert forall|i: int| 0 <= i < front.len() implies target_of(
            shards,
            ranges,
            asks,
            #[trigger] front[i],
        ) == Some(target) by {
            assert(front[i] == keys[i]);
        }
        lemma_routed_whole(shards, ranges, asks, front, target);
        assert(target_of(shards, ranges, asks, keys[keys.len() - 1]) == Some(target));
        assert(front.push(keys.last()) =~= keys);
    } else {
        assert(routed_to(shards, ranges, asks, keys, target) =~= keys);
    }
}

/// Keys that all go to one shard, all without `ASKING` or all with it, are
/// sent in one part, whatever their slots: the request has one part and one
/// write, and the part carries the keys as the request has them.
pub proof fn lemma_one_part_for_one_shard(
    shards: Seq<Seq<NodeView>>,
    ranges: Seq<SlotRange>,
    asks: Seq<AskReasonView>,
    catalog: Seq<CommandInfoView>,
    c: CommandView,
    command_name: Seq<u8>,
    keys: Seq<Seq<u8>>,
    d: DispatchView,
    target: (usize, bool),
)
    requires
        multi_shard_plan(shards, ranges, asks, catalog, c, command_name, keys, d),
        keys.len() > 0,
        forall|i: int|
            0 <= i < keys.len() ==> target_of(shards, ranges, asks, #[trigger] keys[i]) == Some(
                target,
            ),
    ensures
        d.request_info.sub_requests.len() == 1,
        d.writes.len() == 1,
        d.request_info.sub_requests[0].keys == keys,
        write_target(d.writes[0]) == target,
{
    let parts = d.request_info.sub_requests;
    let writes = d.writes;
    assert forall|j: int| 0 <= j < parts.len() implies write_target(#[trigger] writes[j])
        == target by {
        assert(part_ok(shards, ranges, asks, catalog, c, keys, parts[j], writes[j]));
        let here = routed_to(shards, ranges, asks, keys, write_target(writes[j]));
        lemma_routed_elements(shards, ranges, asks, keys, write_target(writes[j]));
        crate::network::multi_shard::lemma_routed_contained(
            shards,
            ranges,
            asks,
            keys,
            write_target(writes[j]),
        );
        assert(keys.contains(here[0]));
        let at = choose|at: int| 0 <= at < keys.len() && keys[at] == here[0];
        assert(target_of(shards, ranges, asks, keys[at]) == Some(target));
    }
    if parts.len() >= 2 {
        assert(target_before(writes[0], writes[1]));
        assert(write_target(writes[0]) == target);
        assert(write_target(writes[1]) == target);
    }
    if parts.len() == 0 {
        assert(all_keys(parts) =~= Seq::<Seq<u8>>::empty());
        vstd::seq_lib::to_multiset_len(all_keys(parts));
        vstd::seq_lib::to_multiset_len(keys);
    }
    assert(part_ok(shards, ranges, asks, catalog, c, keys, parts[0], writes[0]));
    lemma_routed_whole(shards, ranges, asks, keys, target);
}

/// The reply to a multi-shard request follows the keys of the request.
/// Where every part has got an array of as many values as it has keys, the
/// combined reply is an array with one value for each key of the request, in
/// the order of those keys: the value that the part of the key got at the
/// place of the key, also where a key is given more than once.
pub proof fn lemma_multi_shard_reply(
    shards: Seq<Seq<NodeView>>,
    ranges: Seq<SlotRange>,
    asks: Seq<AskReasonView>,
    catalog: Seq<CommandInfoView>,
    c: CommandView,
    command_name: Seq<u8>,
    keys: Seq<Seq<u8>>,
    d: DispatchView,
    results: Seq<Reply>,
)
    requires
        multi_shard_plan(shards, ranges, asks, catalog, c, command_name, keys, d),
        replies_fit(results, d.request_info.sub_requests),
    ensures
        ({
            let part_of = |k: Seq<u8>|
                part_index(shards, ranges, asks, d.writes, k, d.writes.len() as int);
            keyed(results, d.request_info) matches Ok(ValueView::Array(Some(values)))
                && values.len() == keys.len() && forall|i: int|
                0 <= i < keys.len() ==> #[trigger] values[i] == reply_values(
                    results[part_of(keys[i])],
                )[place_of(keys, part_of, i)]
        }),
{
    let part_of = |k: Seq<u8>| part_index(shards, ranges, asks, d.writes, k, d.writes.len() as int);
    lemma_plan_splits(shards, ranges, asks, catalog, c, command_name, keys, d);
    lemma_reply_follows_keys(results, d.request_info, part_of);
}

} // verus!
