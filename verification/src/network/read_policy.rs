//! Reading the reply of a request: the replies of its parts are taken in,
//! redirections become a retry, and the rest is combined into one reply.

use vstd::prelude::*;
use crate::error::{Error, ErrorView};
use crate::network::cluster_connection::{RequestInfo, RequestInfoView, SubRequestView};
use crate::network::hash_slot::{key_list, KeyList};
use crate::network::response_policy::{
    duplicate_reply, failed, is_failure, reply_view, reply_views, Reply,
};
use crate::resp::text::{bytes_eq, copy_bytes};
use crate::resp::value::{lemma_views_push, views, Value, ValueView};

verus! {

/// The arrays among the replies from index `i` on appended to `acc`: the
/// first failure wins, a reply that is no array is an error.
pub open spec fn concat_from(results: Seq<Reply>, acc: Seq<ValueView>, i: int) -> Reply
    decreases results.len() - i,
{
    if i < 0 || i >= results.len() {
        Ok(ValueView::Array(Some(acc)))
    } else {
        match results[i] {
            Ok(ValueView::Array(Some(v))) => concat_from(results, acc + v, i + 1),
            _ => if is_failure(results[i]) {
                results[i]
            } else {
                Err(ErrorView::UnexpectedReply)
            },
        }
    }
}

/// Each key with the value at its place.
pub open spec fn zipped(keys: Seq<Seq<u8>>, values: Seq<ValueView>) -> Seq<(Seq<u8>, ValueView)> {
    Seq::new(keys.len(), |m: int| (keys[m], values[m]))
}

/// The keys of the parts from index `i` on, each with the value that the
/// reply of its part holds at its place, appended to `acc`. The first
/// failure wins; a reply that is no array of as many values as its part has
/// keys is an error.
pub open spec fn pairs_from(
    results: Seq<Reply>,
    parts: Seq<SubRequestView>,
    acc: Seq<(Seq<u8>, ValueView)>,
    i: int,
) -> Result<Seq<(Seq<u8>, ValueView)>, Reply>
    decreases results.len() - i,
{
    if i < 0 || i >= results.len() || i >= parts.len() {
        Ok(acc)
    } else {
        match results[i] {
            Ok(ValueView::Array(Some(v))) => if parts[i].keys.len() == v.len() {
                pairs_from(results, parts, acc + zipped(parts[i].keys, v), i + 1)
            } else {
                Err(Err(ErrorView::UnexpectedReply))
            },
            _ => if is_failure(results[i]) {
                Err(results[i])
            } else {
                Err(Err(ErrorView::UnexpectedReply))
            },
        }
    }
}

/// The keys of pairs of a key and a value.
pub open spec fn pair_keys(pairs: Seq<(Seq<u8>, ValueView)>) -> Seq<Seq<u8>> {
    pairs.map_values(|p: (Seq<u8>, ValueView)| p.0)
}

/// How often the key stands among the keys.
pub open spec fn count_of(keys: Seq<Seq<u8>>, key: Seq<u8>) -> nat
    decreases keys.len(),
{
    if keys.len() == 0 {
        0
    } else if keys.last() == key {
        count_of(keys.drop_last(), key) + 1
    } else {
        count_of(keys.drop_last(), key)
    }
}

/// The pair at `p` answers the key at `i`: it has that key, and as many
/// pairs before it have that key as keys before `i` are that key. So the
/// first pair with a key answers the first place at which the key stands,
/// the second pair the second place, and so on.
pub open spec fn answers(
    pairs: Seq<(Seq<u8>, ValueView)>,
    keys: Seq<Seq<u8>>,
    i: int,
    p: int,
) -> bool {
    &&& 0 <= p < pairs.len()
    &&& pairs[p].0 == keys[i]
    &&& count_of(pair_keys(pairs).take(p), keys[i]) == count_of(keys.take(i), keys[i])
}

/// The index of the pair among the first `n` that answers the key at `i`;
/// -1 where none does.
pub open spec fn answer_below(
    pairs: Seq<(Seq<u8>, ValueView)>,
    keys: Seq<Seq<u8>>,
    i: int,
    n: int,
) -> int
    decreases n,
{
    if n <= 0 {
        -1
    } else if answers(pairs, keys, i, n - 1) {
        n - 1
    } else {
        answer_below(pairs, keys, i, n - 1)
    }
}

/// The index of the pair that answers the key at `i`; -1 where none does.
pub open spec fn answer_at(pairs: Seq<(Seq<u8>, ValueView)>, keys: Seq<Seq<u8>>, i: int) -> int {
    answer_below(pairs, keys, i, pairs.len() as int)
}

/// Every key has a pair that answers it.
pub open spec fn all_answered(pairs: Seq<(Seq<u8>, ValueView)>, keys: Seq<Seq<u8>>) -> bool {
    forall|i: int| 0 <= i < keys.len() ==> #[trigger] answer_at(pairs, keys, i) >= 0
}

/// The values in the order of the keys of the request: at the place of each
/// key stands the value of the pair that answers it.
pub open spec fn ordered(pairs: Seq<(Seq<u8>, ValueView)>, keys: Seq<Seq<u8>>) -> Seq<ValueView> {
    Seq::new(keys.len(), |i: int| pairs[answer_at(pairs, keys, i)].1)
}

/// The replies of the parts of a request with keys as one array in the
/// order of the keys of the request. There have to be as many values as
/// keys, and a value for every key.
pub open spec fn keyed(results: Seq<Reply>, info: RequestInfoView) -> Reply {
    match pairs_from(results, info.sub_requests, Seq::empty(), 0) {
        Err(r) => r,
        Ok(pairs) => if pairs.len() == info.keys.len() && all_answered(pairs, info.keys) {
            Ok(ValueView::Array(Some(ordered(pairs, info.keys))))
        } else {
            Err(ErrorView::UnexpectedReply)
        },
    }
}

/// A longer run of keys holds a key at least as often as a shorter one.
pub proof fn lemma_count_grows(keys: Seq<Seq<u8>>, key: Seq<u8>, a: int, b: int)
    requires
        0 <= a <= b <= keys.len(),
    ensures
        count_of(keys.take(a), key) <= count_of(keys.take(b), key),
    decreases b - a,
{
    if a < b {
        lemma_count_grows(keys, key, a, b - 1);
        assert(keys.take(b).drop_last() =~= keys.take(b - 1));
    }
}

/// No two pairs answer the same key: the pair that answers a key is the one
/// that `answer_below` finds.
pub proof fn lemma_answer_found(
    pairs: Seq<(Seq<u8>, ValueView)>,
    keys: Seq<Seq<u8>>,
    i: int,
    p: int,
    n: int,
)
    requires
        answers(pairs, keys, i, p),
        p < n <= pairs.len(),
    ensures
        answer_below(pairs, keys, i, n) == p,
    decreases n,
{
    if n - 1 > p {
        let names = pair_keys(pairs);
        lemma_count_grows(names, keys[i], p + 1, n - 1);
        assert(names.take(p + 1).drop_last() =~= names.take(p));
        assert(names.take(p + 1).last() == pairs[p].0);
        assert(!answers(pairs, keys, i, n - 1));
        lemma_answer_found(pairs, keys, i, p, n - 1);
    }
}

/// Where none of the first `n` pairs answers a key, none is found.
pub proof fn lemma_answer_missing(
    pairs: Seq<(Seq<u8>, ValueView)>,
    keys: Seq<Seq<u8>>,
    i: int,
    n: int,
)
    requires
        forall|p: int| 0 <= p < n ==> !answers(pairs, keys, i, p),
    ensures
        answer_below(pairs, keys, i, n) == -1,
    decreases n,
{
    if n > 0 {
        lemma_answer_missing(pairs, keys, i, n - 1);
    }
}

/// The replies combined where the command has no response policy: a single
/// reply as it is; the arrays of a command without keys as one array; the
/// arrays of a command with keys as one array in the order of its keys.
pub open spec fn default_combined(results: Seq<Reply>, info: RequestInfoView) -> Reply {
    if results.len() == 1 {
        results[0]
    } else if info.keys.len() == 0 {
        concat_from(results, Seq::empty(), 0)
    } else {
        keyed(results, info)
    }
}

/// Keys with their values, kept inline up to ten: a `smallvec::SmallVec`
/// of pairs. Nothing is known of what is inside but what `pair_list` names.
#[verifier::external_body]
#[derive(Debug, PartialEq, Eq)]
pub struct PairList {
    inner: smallvec::SmallVec<[(Vec<u8>, Value); 10]>,
}

/// The pairs that the `SmallVec` of the list holds, in order.
pub uninterp spec fn pair_list(pairs: PairList) -> Seq<(Vec<u8>, Value)>;

impl View for PairList {
    type V = Seq<(Vec<u8>, Value)>;

    open spec fn view(&self) -> Seq<(Vec<u8>, Value)> {
        pair_list(*self)
    }
}

/// `SmallVec::new`: a list that holds nothing.
#[verifier::external_body]
pub(crate) fn pair_list_new() -> (r: PairList)
    ensures
        pair_list(r) == Seq::<(Vec<u8>, Value)>::empty(),
{
    PairList { inner: smallvec::SmallVec::new() }
}

/// `SmallVec::push`: the list holds one more pair, at its end.
#[verifier::external_body]
pub(crate) fn pair_list_push(pairs: &mut PairList, pair: (Vec<u8>, Value))
    ensures
        pair_list(*final(pairs)) == pair_list(*old(pairs)).push(pair),
{
    pairs.inner.push(pair)
}

/// `SmallVec::len`: the number of pairs that the list holds.
#[verifier::external_body]
pub(crate) fn pair_list_len(pairs: &PairList) -> (n: usize)
    ensures
        n == pair_list(*pairs).len(),
{
    pairs.inner.len()
}

/// `Index::index` of `SmallVec`: the pair at `index`. It panics where the
/// list holds no such pair.
#[verifier::external_body]
pub(crate) fn pair_list_get(pairs: &PairList, index: usize) -> (pair: &(Vec<u8>, Value))
    requires
        index < pair_list(*pairs).len(),
    ensures
        *pair == pair_list(*pairs)[index as int],
{
    &pairs.inner[index]
}

impl PairList {
    /// A list that holds nothing.
    pub fn new() -> (r: PairList)
        ensures
            r@ == Seq::<(Vec<u8>, Value)>::empty(),
    {
        pair_list_new()
    }

    /// Appends a pair.
    pub fn push(&mut self, pair: (Vec<u8>, Value))
        ensures
            final(self)@ == old(self)@.push(pair),
    {
        pair_list_push(self, pair)
    }

    /// The number of pairs.
    pub fn len(&self) -> (n: usize)
        ensures
            n == self@.len(),
    {
        pair_list_len(self)
    }

    /// The pair at `index`.
    pub fn at(&self, index: usize) -> (pair: &(Vec<u8>, Value))
        requires
            index < self@.len(),
        ensures
            *pair == self@[index as int],
    {
        pair_list_get(self, index)
    }
}

/// The views of pairs of a key and a value.
pub open spec fn keyed_views(pairs: Seq<(Vec<u8>, Value)>) -> Seq<(Seq<u8>, ValueView)> {
    pairs.map_values(|p: (Vec<u8>, Value)| (p.0@, p.1@))
}

/// Appends copies of the values to `out`.
pub fn extend_values(out: &mut Vec<Value>, more: &Vec<Value>)
    ensures
        views(final(out)@) == views(old(out)@) + views(more@),
{
    let mut i: usize = 0;
    assert(views(out@) =~= views(old(out)@) + views(more@).take(0));
    while i < more.len()
        invariant
            i <= more.len(),
            views(out@) == views(old(out)@) + views(more@).take(i as int),
        decreases more.len() - i,
    {
        let item = more[i].duplicate();
        proof {
            lemma_views_push(out@, item);
            assert(views(old(out)@) + views(more@).take(i + 1) =~= (views(old(out)@) + views(
                more@,
            ).take(i as int)).push(more@[i as int]@));
        }
        out.push(item);
        i = i + 1;
    }
    assert(views(more@).take(more.len() as int) =~= views(more@));
}

/// How often the key at `index` stands before it in the list.
fn count_before(keys: &KeyList, index: usize) -> (r: usize)
    requires
        index < key_list(*keys).len(),
    ensures
        r == count_of(key_list(*keys).take(index as int), key_list(*keys)[index as int]),
{
    let ghost all = key_list(*keys);
    let key = match keys.get(index) {
        Some(k) => k,
        None => {
            assert(false);
            return 0;
        },
    };
    let mut count: usize = 0;
    let mut j: usize = 0;
    assert(all.take(0) =~= Seq::<Seq<u8>>::empty());
    while j < index
        invariant
            j <= index < all.len(),
            all == key_list(*keys),
            key@ == all[index as int],
            count <= j,
            count == count_of(all.take(j as int), key@),
        decreases index - j,
    {
        proof {
            assert(all.take(j + 1).drop_last() =~= all.take(j as int));
            assert(all.take(j + 1).last() == all[j as int]);
        }
        if let Some(k) = keys.get(j) {
            if bytes_eq(k.as_slice(), key.as_slice()) {
                count = count + 1;
            }
        }
        j = j + 1;
    }
    count
}

/// The index of the pair with the given key that has `wanted` pairs with
/// that key before it.
fn find_answer(pairs: &PairList, key: &[u8], wanted: usize) -> (r: Option<usize>)
    ensures
        ({
            let all = keyed_views(pairs@);
            let names = pair_keys(all);
            match r {
                Some(p) => p < all.len() && all[p as int].0 == key@ && count_of(
                    names.take(p as int),
                    key@,
                ) == wanted,
                None => forall|p: int|
                    0 <= p < all.len() ==> !(all[p].0 == key@ && count_of(names.take(p), key@)
                        == wanted),
            }
        }),
{
    let ghost all = keyed_views(pairs@);
    let ghost names = pair_keys(all);
    let mut count: usize = 0;
    let mut p: usize = 0;
    assert(names.take(0) =~= Seq::<Seq<u8>>::empty());
    while p < pairs.len()
        invariant
            p <= pairs@.len(),
            all == keyed_views(pairs@),
            names == pair_keys(all),
            count <= p,
            count == count_of(names.take(p as int), key@),
            forall|q: int|
                0 <= q < p ==> !(all[q].0 == key@ && count_of(names.take(q), key@) == wanted),
        decreases pairs@.len() - p,
    {
        proof {
            assert(names.take(p + 1).drop_last() =~= names.take(p as int));
            assert(names.take(p + 1).last() == all[p as int].0);
            assert(all[p as int].0 == pairs@[p as int].0@);
        }
        if bytes_eq(pairs.at(p).0.as_slice(), key) {
            if count == wanted {
                return Some(p);
            }
            count = count + 1;
        }
        p = p + 1;
    }
    None
}

/// The values of the pairs in the order of the keys of the list: `None`
/// where a key has no pair that answers it.
pub fn order_by_keys(pairs: &PairList, keys: &KeyList) -> (r: Option<Vec<Value>>)
    ensures
        match r {
            Some(values) => all_answered(keyed_views(pairs@), key_list(*keys)) && views(values@)
                == ordered(keyed_views(pairs@), key_list(*keys)),
            None => !all_answered(keyed_views(pairs@), key_list(*keys)),
        },
{
    let ghost all = keyed_views(pairs@);
    let ghost names = key_list(*keys);
    let mut out: Vec<Value> = Vec::new();
    let n = keys.len();
    let mut i: usize = 0;
    while i < n
        invariant
            i <= n,
            n == names.len(),
            all == keyed_views(pairs@),
            names == key_list(*keys),
            out@.len() == i,
            forall|k: int| 0 <= k < i ==> #[trigger] answer_at(all, names, k) >= 0,
            forall|k: int| 0 <= k < i ==> (#[trigger] out@[k])@ == all[answer_at(all, names, k)].1,
        decreases n - i,
    {
        let key = match keys.get(i) {
            Some(k) => k,
            None => {
                assert(false);
                return None;
            },
        };
        let wanted = count_before(keys, i);
        match find_answer(pairs, key.as_slice(), wanted) {
            Some(p) => {
                proof {
                    assert(answers(all, names, i as int, p as int));
                    lemma_answer_found(all, names, i as int, p as int, all.len() as int);
                    assert(all[p as int].1 == pairs@[p as int].1@);
                }
                out.push(pairs.at(p).1.duplicate());
            },
            None => {
                proof {
                    lemma_answer_missing(all, names, i as int, all.len() as int);
                    assert(answer_at(all, names, i as int) == -1);
                }
                return None;
            },
        }
        i = i + 1;
    }
    assert(views(out@) =~= ordered(all, names));
    Some(out)
}

/// The replies combined where the command has no response policy.
pub fn no_response_policy(sub_results: Vec<Result<Value, Error>>, request_info: &RequestInfo) -> (r:
    Option<Result<Value, Error>>)
    ensures
        r matches Some(found) && reply_view(found) == default_combined(
            reply_views(sub_results@),
            request_info@,
        ),
{
    let ghost all = reply_views(sub_results@);
    let ghost info = request_info@;
    if sub_results.len() == 1 {
        return Some(duplicate_reply(&sub_results[0]));
    }
    if request_info.keys.len() == 0 {
        let mut values: Vec<Value> = Vec::new();
        let mut i: usize = 0;
        assert(views(values@) =~= Seq::<ValueView>::empty());
        while i < sub_results.len()
            invariant
                i <= sub_results.len(),
                all == reply_views(sub_results@),
                info == request_info@,
                all.len() != 1,
                info.keys.len() == 0,
                concat_from(all, Seq::empty(), 0) == concat_from(all, views(values@), i as int),
            decreases sub_results.len() - i,
        {
            assert(all[i as int] == reply_view(sub_results@[i as int]));
            match &sub_results[i] {
                Ok(Value::Array(Some(v))) => {
                    extend_values(&mut values, v);
                },
                other => {
                    if failed(other) {
                        return Some(duplicate_reply(other));
                    }
                    return Some(Err(Error::UnexpectedReply));
                },
            }
            i = i + 1;
        }
        return Some(Ok(Value::Array(Some(values))));
    }
    let parts = &request_info.sub_requests;
    let mut results = PairList::new();
    let mut i: usize = 0;
    assert(keyed_views(results@) =~= Seq::<(Seq<u8>, ValueView)>::empty());
    while i < sub_results.len() && i < parts.len()
        invariant
            i <= sub_results.len(),
            i <= parts@.len(),
            all == reply_views(sub_results@),
            info == request_info@,
            all.len() != 1,
            info.keys.len() != 0,
            parts == &request_info.sub_requests,
            pairs_from(all, info.sub_requests, Seq::empty(), 0) == pairs_from(
                all,
                info.sub_requests,
                keyed_views(results@),
                i as int,
            ),
        decreases sub_results.len() - i,
    {
        assert(all[i as int] == reply_view(sub_results@[i as int]));
        assert(info.sub_requests[i as int] == parts@[i as int]@);
        let sub_request = parts.at(i);
        match &sub_results[i] {
            Ok(Value::Array(Some(values))) => {
                if sub_request.keys.len() != values.len() {
                    return Some(Err(Error::UnexpectedReply));
                }
                let ghost before = keyed_views(results@);
                let ghost row = zipped(key_list(sub_request.keys), views(values@));
                let mut m: usize = 0;
                assert(before + row.take(0) =~= before);
                while m < values.len()
                    invariant
                        m <= values.len(),
                        values.len() == key_list(sub_request.keys).len(),
                        row == zipped(key_list(sub_request.keys), views(values@)),
                        keyed_views(results@) == before + row.take(m as int),
                    decreases values.len() - m,
                {
                    let key = match sub_request.keys.get(m) {
                        Some(k) => copy_bytes(k.as_slice()),
                        None => {
                            assert(false);
                            Vec::new()
                        },
                    };
                    let pair = (key, values[m].duplicate());
                    proof {
                        assert(row[m as int] == (pair.0@, pair.1@));
                        assert(keyed_views(results@.push(pair)) =~= keyed_views(results@).push(
                            (pair.0@, pair.1@),
                        ));
                        assert(before + row.take(m + 1) =~= (before + row.take(m as int)).push(
                            row[m as int],
                        ));
                    }
                    results.push(pair);
                    m = m + 1;
                }
                assert(row.take(values.len() as int) =~= row);
            },
            other => {
                if failed(other) {
                    return Some(duplicate_reply(other));
                }
                return Some(Err(Error::UnexpectedReply));
            },
        }
        i = i + 1;
    }
    if results.len() != request_info.keys.len() {
        return Some(Err(Error::UnexpectedReply));
    }
    match order_by_keys(&results, &request_info.keys) {
        Some(values) => Some(Ok(Value::Array(Some(values)))),
        None => Some(Err(Error::UnexpectedReply)),
    }
}

} // verus!
