//! Response policies: how the replies of the nodes that a command was sent
//! to become one reply.

use vstd::prelude::*;
use crate::commands::server_commands::ResponsePolicy;
use crate::error::{Error, ErrorView};
use crate::resp::value::{duplicate_all, lemma_views_push, views, Value, ValueView};

verus! {

/// The reply of one node, or the error met in reading it.
pub type Reply = Result<ValueView, ErrorView>;

/// The view of a reply.
pub open spec fn reply_view(r: Result<Value, Error>) -> Reply {
    match r {
        Ok(v) => Ok(v@),
        Err(e) => Err(e@),
    }
}

/// The views of a sequence of replies.
pub open spec fn reply_views(results: Seq<Result<Value, Error>>) -> Seq<Reply> {
    results.map_values(|r: Result<Value, Error>| reply_view(r))
}

/// The reply is an error of the client or an error reply of the server.
pub open spec fn is_failure(r: Reply) -> bool {
    match r {
        Err(_) => true,
        Ok(v) => v is Error,
    }
}

/// The nil reply.
pub open spec fn nil() -> ValueView {
    ValueView::BulkString(None)
}

/// The first reply that is no failure; the last failure where all are
/// failures; nil where there is no reply.
pub open spec fn one_succeeded(results: Seq<Reply>) -> Reply
    decreases results.len(),
{
    if results.len() == 0 {
        Ok(nil())
    } else if !is_failure(results[0]) || results.len() == 1 {
        results[0]
    } else {
        one_succeeded(results.drop_first())
    }
}

/// The first failure; the last reply where none is a failure; nil where
/// there is no reply.
pub open spec fn all_succeeded(results: Seq<Reply>) -> Reply
    decreases results.len(),
{
    if results.len() == 0 {
        Ok(nil())
    } else if is_failure(results[0]) || results.len() == 1 {
        results[0]
    } else {
        all_succeeded(results.drop_first())
    }
}

/// Two numbers combined by an aggregating policy. The logical policies take
/// 1 for true and every other number for false in `and`, 0 for false and
/// every other number for true in `or`; the sum wraps around.
pub open spec fn combined(policy: ResponsePolicy, v: i64, r: i64) -> i64 {
    match policy {
        ResponsePolicy::AggLogicalAnd => if v == 1 && r == 1 {
            1
        } else {
            0
        },
        ResponsePolicy::AggLogicalOr => if v == 0 && r == 0 {
            0
        } else {
            1
        },
        ResponsePolicy::AggMin => if v <= r {
            v
        } else {
            r
        },
        ResponsePolicy::AggMax => if v >= r {
            v
        } else {
            r
        },
        _ => v.wrapping_add(r),
    }
}

/// The first `n` values of two arrays combined one by one; `None` where one
/// of them is no integer.
pub open spec fn merged(policy: ResponsePolicy, v: Seq<ValueView>, a: Seq<ValueView>, n: int)
    -> Option<Seq<ValueView>>
    decreases n,
{
    if n <= 0 {
        Some(Seq::empty())
    } else {
        match merged(policy, v, a, n - 1) {
            None => None,
            Some(front) => match (v[n - 1], a[n - 1]) {
                (ValueView::Integer(x), ValueView::Integer(y)) => Some(
                    front.push(ValueView::Integer(combined(policy, x, y))),
                ),
                _ => None,
            },
        }
    }
}

/// What has been aggregated so far with one reply more: an integer with an
/// integer, an array with an array of the same length; the first reply is
/// taken as it is. `None` where the reply does not fit.
pub open spec fn agg_step(policy: ResponsePolicy, acc: ValueView, value: ValueView) -> Option<
    ValueView,
> {
    match (value, acc) {
        (ValueView::Integer(v), ValueView::Integer(r)) => Some(
            ValueView::Integer(combined(policy, v, r)),
        ),
        (ValueView::Integer(v), ValueView::BulkString(None)) => Some(ValueView::Integer(v)),
        (ValueView::Array(Some(v)), ValueView::Array(Some(r))) => if v.len() == r.len() {
            match merged(policy, v, r, v.len() as int) {
                Some(m) => Some(ValueView::Array(Some(m))),
                None => None,
            }
        } else {
            None
        },
        (ValueView::Array(Some(v)), ValueView::BulkString(None)) => Some(
            ValueView::Array(Some(v)),
        ),
        _ => None,
    }
}

/// The replies from index `i` on aggregated onto `acc`: the first failure
/// wins, a reply that does not fit is an error.
pub open spec fn agg_from(policy: ResponsePolicy, acc: ValueView, results: Seq<Reply>, i: int)
    -> Reply
    decreases results.len() - i,
{
    if i < 0 || i >= results.len() {
        Ok(acc)
    } else if is_failure(results[i]) {
        results[i]
    } else {
        match agg_step(policy, acc, results[i]->Ok_0) {
            None => Err(ErrorView::UnexpectedReply),
            Some(next) => agg_from(policy, next, results, i + 1),
        }
    }
}

/// The replies aggregated by the policy.
pub open spec fn aggregated(policy: ResponsePolicy, results: Seq<Reply>) -> Reply {
    agg_from(policy, nil(), results, 0)
}

/// A copy of a reply.
pub fn duplicate_reply(r: &Result<Value, Error>) -> (copy: Result<Value, Error>)
    ensures
        reply_view(copy) == reply_view(*r),
{
    match r {
        Ok(v) => Ok(v.duplicate()),
        Err(e) => Err(e.duplicate()),
    }
}

/// Whether a reply is a failure.
pub fn failed(r: &Result<Value, Error>) -> (b: bool)
    ensures
        b == is_failure(reply_view(*r)),
{
    match r {
        Err(_) => true,
        Ok(v) => v.is_error(),
    }
}

/// The first reply that is no failure wins; where all are failures, the
/// last one does.
pub fn response_policy_one_succeeded(sub_results: Vec<Result<Value, Error>>) -> (r: Option<
    Result<Value, Error>,
>)
    ensures
        r matches Some(found) && reply_view(found) == one_succeeded(reply_views(sub_results@)),
{
    let ghost all = reply_views(sub_results@);
    let n = sub_results.len();
    if n == 0 {
        return Some(Ok(Value::BulkString(None)));
    }
    let mut i: usize = 0;
    assert(all.skip(0) =~= all);
    while i + 1 < n
        invariant
            i < n,
            n == sub_results@.len(),
            all == reply_views(sub_results@),
            one_succeeded(all) == one_succeeded(all.skip(i as int)),
        decreases n - i,
    {
        if !failed(&sub_results[i]) {
            return Some(duplicate_reply(&sub_results[i]));
        }
        proof {
            assert(all.skip(i as int).drop_first() =~= all.skip(i + 1));
        }
        i = i + 1;
    }
    Some(duplicate_reply(&sub_results[i]))
}

/// The first failure wins; where there is none, the last reply does.
pub fn response_policy_all_succeeded(sub_results: Vec<Result<Value, Error>>) -> (r: Option<
    Result<Value, Error>,
>)
    ensures
        r matches Some(found) && reply_view(found) == all_succeeded(reply_views(sub_results@)),
{
    let ghost all = reply_views(sub_results@);
    let n = sub_results.len();
    if n == 0 {
        return Some(Ok(Value::BulkString(None)));
    }
    let mut i: usize = 0;
    assert(all.skip(0) =~= all);
    while i + 1 < n
        invariant
            i < n,
            n == sub_results@.len(),
            all == reply_views(sub_results@),
            all_succeeded(all) == all_succeeded(all.skip(i as int)),
        decreases n - i,
    {
        if failed(&sub_results[i]) {
            return Some(duplicate_reply(&sub_results[i]));
        }
        proof {
            assert(all.skip(i as int).drop_first() =~= all.skip(i + 1));
        }
        i = i + 1;
    }
    Some(duplicate_reply(&sub_results[i]))
}

/// Two numbers combined by an aggregating policy.
pub fn combine(policy: ResponsePolicy, v: i64, r: i64) -> (c: i64)
    ensures
        c == combined(policy, v, r),
{
    match policy {
        ResponsePolicy::AggLogicalAnd => if v == 1 && r == 1 {
            1
        } else {
            0
        },
        ResponsePolicy::AggLogicalOr => if v == 0 && r == 0 {
            0
        } else {
            1
        },
        ResponsePolicy::AggMin => if v <= r {
            v
        } else {
            r
        },
        ResponsePolicy::AggMax => if v >= r {
            v
        } else {
            r
        },
        _ => v.wrapping_add(r),
    }
}

/// What has been aggregated so far with one reply more.
pub fn aggregate_step(policy: ResponsePolicy, result: Value, value: &Value) -> (r: Option<Value>)
    ensures
        match agg_step(policy, result@, value@) {
            Some(next) => r matches Some(found) && found@ == next,
            None => r is None,
        },
{
    let ghost acc = result@;
    assert(acc == result@);
    match (value, result) {
        (Value::Integer(v), Value::Integer(r)) => Some(Value::Integer(combine(policy, *v, r))),
        (Value::Integer(v), Value::BulkString(None)) => Some(Value::Integer(*v)),
        (Value::Array(Some(v)), Value::Array(Some(r))) => {
            if v.len() != r.len() {
                return None;
            }
            let ghost vs = views(v@);
            let ghost rs = views(r@);
            let mut out: Vec<Value> = Vec::new();
            let mut i: usize = 0;
            assert(views(out@) =~= Seq::<ValueView>::empty());
            while i < v.len()
                invariant
                    i <= v.len(),
                    v.len() == r.len(),
                    vs == views(v@),
                    rs == views(r@),
                    value@ == ValueView::Array(Some(vs)),
                    acc == ValueView::Array(Some(rs)),
                    acc == result@,
                    merged(policy, vs, rs, i as int) == Some(views(out@)),
                decreases v.len() - i,
            {
                match (&v[i], &r[i]) {
                    (Value::Integer(vi), Value::Integer(ri)) => {
                        let item = Value::Integer(combine(policy, *vi, *ri));
                        proof {
                            lemma_views_push(out@, item);
                        }
                        out.push(item);
                    },
                    _ => {
                        proof {
                            assert(vs[i as int] == v@[i as int]@);
                            assert(rs[i as int] == r@[i as int]@);
                            assert(merged(policy, vs, rs, i + 1) is None);
                            lemma_merged_none(policy, vs, rs, i + 1, v.len() as int);
                            assert(agg_step(policy, acc, value@) is None);
                        }
                        return None;
                    },
                }
                i = i + 1;
            }
            Some(Value::Array(Some(out)))
        },
        (Value::Array(Some(v)), Value::BulkString(None)) => Some(
            Value::Array(Some(duplicate_all(v))),
        ),
        _ => None,
    }
}

/// Where the first values cannot be combined, neither can all of them.
pub proof fn lemma_merged_none(
    policy: ResponsePolicy,
    v: Seq<ValueView>,
    a: Seq<ValueView>,
    k: int,
    n: int,
)
    requires
        0 <= k <= n,
        merged(policy, v, a, k) is None,
    ensures
        merged(policy, v, a, n) is None,
    decreases n - k,
{
    if k < n {
        lemma_merged_none(policy, v, a, k, n - 1);
    }
}

/// The replies combined by an aggregating policy: integers with integers,
/// arrays with arrays one by one. The first failure wins.
pub fn response_policy_agg(sub_results: Vec<Result<Value, Error>>, policy: ResponsePolicy) -> (r:
    Option<Result<Value, Error>>)
    ensures
        r matches Some(found) && reply_view(found) == aggregated(policy, reply_views(sub_results@)),
{
    let ghost all = reply_views(sub_results@);
    let mut result = Value::BulkString(None);
    let mut i: usize = 0;
    while i < sub_results.len()
        invariant
            i <= sub_results.len(),
            all == reply_views(sub_results@),
            aggregated(policy, all) == agg_from(policy, result@, all, i as int),
        decreases sub_results.len() - i,
    {
        if failed(&sub_results[i]) {
            return Some(duplicate_reply(&sub_results[i]));
        }
        let value = match &sub_results[i] {
            Ok(value) => value,
            Err(_) => {
                assert(false);
                return None;
            },
        };
        assert(all[i as int] == reply_view(sub_results@[i as int]));
        result = match aggregate_step(policy, result, value) {
            Some(next) => next,
            None => {
                return Some(Err(Error::UnexpectedReply));
            },
        };
        i = i + 1;
    }
    Some(Ok(result))
}

/// Replies cannot be combined by the policy `special`.
pub fn response_policy_special(sub_results: Vec<Result<Value, Error>>) -> (r: Option<
    Result<Value, Error>,
>)
    ensures
        r matches Some(Err(e)) && e@ == ErrorView::NotSupported,
{
    Some(Err(Error::NotSupported))
}

} // verus!
