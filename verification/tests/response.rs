use rustis::commands::server_commands::ResponsePolicy;
use rustis::error::{Error, RedisError, RedisErrorKind};
use rustis::network::cluster_connection::{RequestInfo, SubRequest, SubRequestList};
use rustis::network::hash_slot::KeyList;
use rustis::network::read_policy::{no_response_policy, order_by_keys, PairList};
use rustis::network::response_policy::{
    combine, response_policy_agg, response_policy_all_succeeded, response_policy_one_succeeded,
    response_policy_special,
};
use rustis::resp::value::Value;

fn bulk(text: &str) -> Value {
    Value::BulkString(Some(text.as_bytes().to_vec()))
}

fn array(items: Vec<Value>) -> Value {
    Value::Array(Some(items))
}

fn numbers(items: &[i64]) -> Value {
    array(items.iter().map(|i| Value::Integer(*i)).collect())
}

fn server_error(text: &str) -> Value {
    Value::Error(RedisError { kind: RedisErrorKind::Generic, description: text.as_bytes().to_vec() })
}

fn keys(names: &[&str]) -> KeyList {
    KeyList::from_vec(names.iter().map(|n| n.as_bytes().to_vec()).collect())
}

fn request(all: &[&str], parts: &[&[&str]]) -> RequestInfo {
    RequestInfo {
        command_name: b"mget".to_vec(),
        keys: keys(all),
        sub_requests: SubRequestList::from_vec(
            &parts
                .iter()
                .enumerate()
                .map(|(i, p)| SubRequest { shard_index: i, node_index: 0, keys: keys(p) })
                .collect(),
        ),
    }
}

#[test]
fn one_succeeded() {
    let r = response_policy_one_succeeded(vec![Ok(server_error("a")), Ok(bulk("x")), Ok(bulk("y"))]);
    assert_eq!(r, Some(Ok(bulk("x"))));
    let r = response_policy_one_succeeded(vec![Ok(server_error("a")), Err(Error::Disconnected), Ok(server_error("c"))]);
    assert_eq!(r, Some(Ok(server_error("c"))));
    let r = response_policy_one_succeeded(vec![Ok(server_error("a")), Err(Error::Disconnected)]);
    assert_eq!(r, Some(Err(Error::Disconnected)));
    assert_eq!(response_policy_one_succeeded(vec![]), Some(Ok(Value::BulkString(None))));
}

#[test]
fn all_succeeded() {
    let r = response_policy_all_succeeded(vec![Ok(bulk("x")), Ok(server_error("a")), Ok(server_error("b"))]);
    assert_eq!(r, Some(Ok(server_error("a"))));
    let r = response_policy_all_succeeded(vec![Ok(bulk("x")), Ok(bulk("y"))]);
    assert_eq!(r, Some(Ok(bulk("y"))));
    let r = response_policy_all_succeeded(vec![Ok(bulk("x")), Err(Error::Aborted)]);
    assert_eq!(r, Some(Err(Error::Aborted)));
    assert_eq!(response_policy_all_succeeded(vec![]), Some(Ok(Value::BulkString(None))));
}

#[test]
fn numbers_are_combined() {
    let sum = |items: &[i64]| {
        response_policy_agg(items.iter().map(|i| Ok(Value::Integer(*i))).collect(), ResponsePolicy::AggSum)
    };
    assert_eq!(sum(&[10, 20, 30]), Some(Ok(Value::Integer(60))));
    assert_eq!(sum(&[5]), Some(Ok(Value::Integer(5))));
    assert_eq!(sum(&[]), Some(Ok(Value::BulkString(None))));
    assert_eq!(sum(&[i64::MAX, 1]), Some(Ok(Value::Integer(i64::MIN))));
    assert_eq!(combine(ResponsePolicy::AggMin, 3, -4), -4);
    assert_eq!(combine(ResponsePolicy::AggMax, 3, -4), 3);
    assert_eq!(combine(ResponsePolicy::AggSum, 3, -4), -1);
    assert_eq!(combine(ResponsePolicy::AggLogicalAnd, 1, 1), 1);
    assert_eq!(combine(ResponsePolicy::AggLogicalAnd, 1, 0), 0);
    assert_eq!(combine(ResponsePolicy::AggLogicalAnd, 2, 1), 0);
    assert_eq!(combine(ResponsePolicy::AggLogicalAnd, 2, 2), 0);
    assert_eq!(combine(ResponsePolicy::AggLogicalOr, 0, 0), 0);
    assert_eq!(combine(ResponsePolicy::AggLogicalOr, 0, 1), 1);
    assert_eq!(combine(ResponsePolicy::AggLogicalOr, 5, 0), 1);
}

#[test]
fn arrays_are_combined_one_by_one() {
    let agg = |policy, rows: &[&[i64]]| {
        response_policy_agg(rows.iter().map(|r| Ok(numbers(r))).collect(), policy)
    };
    assert_eq!(
        agg(ResponsePolicy::AggLogicalAnd, &[&[1, 1], &[1, 0], &[1, 1]]),
        Some(Ok(numbers(&[1, 0])))
    );
    assert_eq!(agg(ResponsePolicy::AggLogicalOr, &[&[0, 0], &[1, 0]]), Some(Ok(numbers(&[1, 0]))));
    assert_eq!(agg(ResponsePolicy::AggMin, &[&[3, 9], &[4, 2]]), Some(Ok(numbers(&[3, 2]))));
    assert_eq!(agg(ResponsePolicy::AggMax, &[&[3, 9], &[4, 2]]), Some(Ok(numbers(&[4, 9]))));
    assert_eq!(agg(ResponsePolicy::AggSum, &[&[3, 9], &[4, 2], &[1, 1]]), Some(Ok(numbers(&[8, 12]))));
    assert_eq!(agg(ResponsePolicy::AggSum, &[&[3, 9], &[4]]), Some(Err(Error::UnexpectedReply)));
    assert_eq!(agg(ResponsePolicy::AggSum, &[&[], &[]]), Some(Ok(numbers(&[]))));
}

#[test]
fn replies_that_do_not_fit_are_refused() {
    let sum = |replies| response_policy_agg(replies, ResponsePolicy::AggSum);
    assert_eq!(sum(vec![Ok(Value::Integer(1)), Ok(numbers(&[1]))]), Some(Err(Error::UnexpectedReply)));
    assert_eq!(sum(vec![Ok(numbers(&[1])), Ok(Value::Integer(1))]), Some(Err(Error::UnexpectedReply)));
    assert_eq!(sum(vec![Ok(bulk("1"))]), Some(Err(Error::UnexpectedReply)));
    assert_eq!(
        sum(vec![Ok(array(vec![Value::Integer(1), bulk("x")])), Ok(numbers(&[1, 2]))]),
        Some(Err(Error::UnexpectedReply))
    );
    assert_eq!(
        sum(vec![Ok(array(vec![bulk("x")]))]),
        Some(Ok(array(vec![bulk("x")])))
    );
    assert_eq!(
        sum(vec![Ok(Value::Integer(1)), Ok(server_error("e")), Ok(bulk("x"))]),
        Some(Ok(server_error("e")))
    );
    assert_eq!(sum(vec![Ok(Value::Integer(1)), Err(Error::Disconnected)]), Some(Err(Error::Disconnected)));
    assert_eq!(response_policy_special(vec![Ok(Value::Integer(1))]), Some(Err(Error::NotSupported)));
}

#[test]
fn a_single_reply_is_passed_through() {
    let info = request(&["a"], &[&["a"]]);
    assert_eq!(no_response_policy(vec![Ok(bulk("v"))], &info), Some(Ok(bulk("v"))));
    assert_eq!(no_response_policy(vec![Ok(server_error("e"))], &info), Some(Ok(server_error("e"))));
    assert_eq!(no_response_policy(vec![Err(Error::Disconnected)], &info), Some(Err(Error::Disconnected)));
}

#[test]
fn arrays_without_keys_are_put_in_a_row() {
    let info = request(&[], &[&[], &[], &[]]);
    let r = no_response_policy(
        vec![Ok(array(vec![bulk("k1")])), Ok(array(vec![])), Ok(array(vec![bulk("k2"), bulk("k3")]))],
        &info,
    );
    assert_eq!(r, Some(Ok(array(vec![bulk("k1"), bulk("k2"), bulk("k3")]))));
    let r = no_response_policy(vec![Ok(array(vec![bulk("k1")])), Ok(bulk("x"))], &info);
    assert_eq!(r, Some(Err(Error::UnexpectedReply)));
    let r = no_response_policy(vec![Ok(array(vec![bulk("k1")])), Ok(server_error("e")), Ok(bulk("x"))], &info);
    assert_eq!(r, Some(Ok(server_error("e"))));
    assert_eq!(no_response_policy(vec![], &info), Some(Ok(array(vec![]))));
}

#[test]
fn arrays_with_keys_follow_the_keys() {
    let info = request(&["c", "a", "b", "d"], &[&["a", "d"], &["b", "c"]]);
    let r = no_response_policy(
        vec![Ok(array(vec![bulk("va"), bulk("vd")])), Ok(array(vec![bulk("vb"), bulk("vc")]))],
        &info,
    );
    assert_eq!(r, Some(Ok(array(vec![bulk("vc"), bulk("va"), bulk("vb"), bulk("vd")]))));
    let r = no_response_policy(
        vec![Ok(array(vec![bulk("va")])), Ok(array(vec![bulk("vb"), bulk("vc")]))],
        &info,
    );
    assert_eq!(r, Some(Err(Error::UnexpectedReply)));
    let r = no_response_policy(
        vec![Ok(array(vec![bulk("va"), bulk("vd")])), Ok(server_error("e"))],
        &info,
    );
    assert_eq!(r, Some(Ok(server_error("e"))));
    let r = no_response_policy(
        vec![Ok(array(vec![bulk("va"), bulk("vd")])), Ok(array(vec![bulk("vb"), bulk("vc")])), Ok(bulk("x"))],
        &info,
    );
    assert_eq!(r, Some(Ok(array(vec![bulk("vc"), bulk("va"), bulk("vb"), bulk("vd")]))));
    let r = no_response_policy(vec![Ok(array(vec![bulk("va"), bulk("vd")])), Ok(array(vec![]))], &info);
    assert_eq!(r, Some(Err(Error::UnexpectedReply)));
}

fn pairs_of(pairs: Vec<(Vec<u8>, Value)>) -> PairList {
    let mut list = PairList::new();
    for pair in pairs {
        list.push(pair);
    }
    list
}

#[test]
fn values_of_the_same_key_keep_their_order() {
    let pairs = pairs_of(vec![
        (b"a".to_vec(), bulk("a1")),
        (b"a".to_vec(), bulk("a2")),
        (b"b".to_vec(), bulk("b1")),
    ]);
    assert_eq!(pairs.len(), 3);
    assert_eq!(pairs.at(1), &(b"a".to_vec(), bulk("a2")));
    let r = order_by_keys(&pairs, &keys(&["a", "b", "a"]));
    assert_eq!(r, Some(vec![bulk("a1"), bulk("b1"), bulk("a2")]));
    let r = order_by_keys(&pairs, &keys(&["b", "a", "a"]));
    assert_eq!(r, Some(vec![bulk("b1"), bulk("a1"), bulk("a2")]));
    assert_eq!(order_by_keys(&PairList::new(), &keys(&[])), Some(vec![]));
}

#[test]
fn a_key_without_a_value_of_its_own_is_refused() {
    let pairs = pairs_of(vec![
        (b"a".to_vec(), bulk("a1")),
        (b"b".to_vec(), bulk("b1")),
        (b"zz".to_vec(), bulk("strange")),
    ]);
    assert_eq!(order_by_keys(&pairs, &keys(&["b", "a", "b"])), None);
    assert_eq!(order_by_keys(&pairs, &keys(&["a", "b", "c"])), None);
    let info = request(&["b", "a", "b"], &[&["a", "b"], &["zz"]]);
    let r = no_response_policy(
        vec![Ok(array(vec![bulk("a1"), bulk("b1")])), Ok(array(vec![bulk("strange")]))],
        &info,
    );
    assert_eq!(r, Some(Err(Error::UnexpectedReply)));
}

#[test]
fn a_key_given_twice_gets_a_value_at_each_place() {
    let info = request(&["a", "b", "a"], &[&["a", "a"], &["b"]]);
    let r = no_response_policy(
        vec![
            Ok(array(vec![Value::Integer(1), Value::Integer(1)])),
            Ok(array(vec![Value::Integer(2)])),
        ],
        &info,
    );
    assert_eq!(
        r,
        Some(Ok(array(vec![Value::Integer(1), Value::Integer(2), Value::Integer(1)])))
    );
    let r = no_response_policy(
        vec![Ok(array(vec![bulk("first"), bulk("third")])), Ok(array(vec![bulk("second")]))],
        &info,
    );
    assert_eq!(r, Some(Ok(array(vec![bulk("first"), bulk("second"), bulk("third")]))));
}

#[test]
fn parts_are_kept_in_the_order_in_which_they_are_added() {
    let mut parts = SubRequestList::new();
    assert_eq!(parts.len(), 0);
    parts.push(SubRequest { shard_index: 2, node_index: 0, keys: keys(&["a"]) });
    parts.push(SubRequest { shard_index: 1, node_index: 1, keys: keys(&["b", "c"]) });
    assert_eq!(parts.len(), 2);
    assert_eq!(parts.at(0).shard_index, 2);
    assert_eq!(parts.at(1).keys.to_vec(), vec![b"b".to_vec(), b"c".to_vec()]);
    let copies = parts.to_vec();
    assert_eq!(copies.len(), 2);
    assert_eq!(copies[1], SubRequest { shard_index: 1, node_index: 1, keys: keys(&["b", "c"]) });
    assert_eq!(SubRequestList::from_vec(&copies), parts);
}
