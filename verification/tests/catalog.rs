use rustis::commands::command_info::CommandInfo;
use rustis::commands::command_info_manager::{eq_ignore_case, to_lower, CommandInfoManager};
use rustis::commands::server_commands::{
    BeginSearch, CommandTip, FindKeys, KeySpecification, RequestPolicy, ResponsePolicy,
};
use rustis::commands::command_doc::{
    ArgumentFlag, CommandArgument, CommandArgumentType, CommandDoc, CommandDocFlag, HistoricalNote,
};
use rustis::network::cluster_shards::cluster_shards;
use rustis::network::topology::{ClusterNodeResult, ClusterShardResult};
use rustis::error::{Error, ParseTarget, RedisError, RedisErrorKind};
use rustis::network::hash_slot::KeyList;
use rustis::resp::command::cmd;
use rustis::resp::from_value::{to_entries, to_integer, to_isize, to_items, to_text, to_texts, to_usize};
use rustis::resp::value::Value;

fn bulk(text: &str) -> Value {
    Value::BulkString(Some(text.as_bytes().to_vec()))
}

fn simple(text: &str) -> Value {
    Value::SimpleString(text.as_bytes().to_vec())
}

fn array(items: Vec<Value>) -> Value {
    Value::Array(Some(items))
}

fn dictionary(entries: Vec<(&str, Value)>) -> Value {
    Value::Dictionary(entries.into_iter().map(|(k, v)| (simple(k), v)).collect())
}

fn flat(entries: Vec<(&str, Value)>) -> Value {
    let mut items = Vec::new();
    for (k, v) in entries {
        items.push(bulk(k));
        items.push(v);
    }
    array(items)
}

fn server_error() -> Value {
    Value::Error(RedisError { kind: RedisErrorKind::Generic, description: b"no".to_vec() })
}

fn index(i: i64) -> Value {
    dictionary(vec![("type", simple("index")), ("spec", dictionary(vec![("index", Value::Integer(i))]))])
}

fn keyword(word: &str, start: i64) -> Value {
    flat(vec![
        ("type", bulk("keyword")),
        ("spec", flat(vec![("keyword", bulk(word)), ("startfrom", Value::Integer(start))])),
    ])
}

fn range(last: i64, step: i64, limit: i64) -> Value {
    dictionary(vec![
        ("type", simple("range")),
        (
            "spec",
            dictionary(vec![
                ("lastkey", Value::Integer(last)),
                ("keystep", Value::Integer(step)),
                ("limit", Value::Integer(limit)),
            ]),
        ),
    ])
}

fn keynum(idx: i64, first: i64, step: i64) -> Value {
    dictionary(vec![
        ("type", simple("keynum")),
        (
            "spec",
            dictionary(vec![
                ("keynumidx", Value::Integer(idx)),
                ("firstkey", Value::Integer(first)),
                ("keystep", Value::Integer(step)),
            ]),
        ),
    ])
}

fn unknown() -> Value {
    dictionary(vec![("type", simple("unknown"))])
}

fn spec(begin: Value, find: Value) -> Value {
    dictionary(vec![("flags", array(vec![simple("RW")])), ("begin_search", begin), ("find_keys", find)])
}

fn info(name: &str, specs: Vec<Value>) -> Value {
    array(vec![
        bulk(name),
        Value::Integer(-2),
        array(vec![simple("write")]),
        Value::Integer(1),
        Value::Integer(-1),
        Value::Integer(1),
        array(vec![simple("@write")]),
        array(vec![]),
        array(specs),
        array(vec![]),
    ])
}

fn legacy(name: &str, first: i64, last: i64, step: i64) -> Value {
    array(vec![
        bulk(name),
        Value::Integer(-2),
        array(vec![]),
        Value::Integer(first),
        Value::Integer(last),
        Value::Integer(step),
    ])
}

fn catalog() -> CommandInfoManager {
    CommandInfoManager::initialize(&array(vec![
        info("get", vec![spec(index(1), range(0, 1, 0))]),
        info("mset", vec![spec(index(1), range(-1, 2, 0))]),
        info("mget", vec![spec(index(1), range(-1, 1, 0))]),
        info("blpop", vec![spec(index(1), range(-2, 1, 0))]),
        info("half", vec![spec(index(1), range(-1, 1, 2))]),
        info("eval", vec![spec(index(2), keynum(0, 1, 1))]),
        info("xread", vec![spec(keyword("STREAMS", 1), range(-1, 1, 2))]),
        info("georadius", vec![
            spec(index(1), range(0, 1, 0)),
            spec(keyword("STORE", 6), range(0, 1, 0)),
        ]),
        info("migrate", vec![spec(keyword("KEYS", -2), range(-1, 1, 0))]),
        info("sort", vec![spec(index(1), range(0, 1, 0)), spec(unknown(), unknown())]),
        info("object", vec![spec(index(2), unknown())]),
        info("smove", vec![spec(index(1), range(0, 1, 0)), spec(index(2), range(0, 1, 0))]),
        legacy("oldget", 1, 1, 1),
        legacy("oldmset", 1, -1, 2),
        legacy("oldping", 0, 0, 0),
    ]))
    .unwrap()
}

fn keys(catalog: &CommandInfoManager, words: &[&str]) -> Option<Vec<String>> {
    let mut command = cmd(words[0]);
    for word in &words[1..] {
        command = command.arg(*word);
    }
    catalog
        .extract_keys(&command)
        .unwrap()
        .map(|list| list.to_vec().into_iter().map(|k| String::from_utf8(k).unwrap()).collect())
}

fn some(keys: &[&str]) -> Option<Vec<String>> {
    Some(keys.iter().map(|k| k.to_string()).collect())
}

#[test]
fn keys_by_index_and_range() {
    let c = catalog();
    assert_eq!(keys(&c, &["GET", "a"]), some(&["a"]));
    assert_eq!(keys(&c, &["GET"]), some(&[]));
    assert_eq!(keys(&c, &["MGET", "a", "b", "c"]), some(&["a", "b", "c"]));
    assert_eq!(keys(&c, &["MSET", "a", "1", "b", "2"]), some(&["a", "b"]));
    assert_eq!(keys(&c, &["BLPOP", "a", "b", "0"]), some(&["a", "b"]));
    assert_eq!(keys(&c, &["BLPOP", "0"]), some(&[]));
    assert_eq!(keys(&c, &["HALF", "a", "b", "1", "2"]), some(&["a", "b"]));
    assert_eq!(keys(&c, &["SMOVE", "src", "dst", "m"]), some(&["src", "dst"]));
}

#[test]
fn keys_by_count() {
    let c = catalog();
    assert_eq!(keys(&c, &["EVAL", "script", "2", "k1", "k2", "arg"]), some(&["k1", "k2"]));
    assert_eq!(keys(&c, &["EVAL", "script", "0"]), some(&[]));
    assert_eq!(keys(&c, &["EVAL", "script", "3", "k1"]), some(&[]));
    assert_eq!(keys(&c, &["EVAL", "script", "many", "k1"]), some(&[]));
    assert_eq!(keys(&c, &["EVAL", "script"]), some(&[]));
}

#[test]
fn keys_by_keyword() {
    let c = catalog();
    assert_eq!(
        keys(&c, &["XREAD", "COUNT", "2", "streams", "jobs", "mail", "0", "0"]),
        some(&["jobs", "mail"])
    );
    assert_eq!(keys(&c, &["XREAD", "COUNT", "2"]), some(&[]));
    assert_eq!(
        keys(&c, &["GEORADIUS", "src", "1", "2", "3", "km", "STORE", "dst"]),
        some(&["src", "dst"])
    );
    assert_eq!(keys(&c, &["GEORADIUS", "src", "1", "2", "3", "km"]), some(&["src"]));
    assert_eq!(
        keys(&c, &["MIGRATE", "h", "1", "", "0", "5", "KEYS", "a", "b"]),
        some(&["a", "b"])
    );
}

#[test]
fn keys_left_to_the_server() {
    let c = catalog();
    assert_eq!(keys(&c, &["SORT", "k", "BY", "w_*"]), None);
    assert_eq!(keys(&c, &["OBJECT", "ENCODING", "k"]), None);
    assert_eq!(
        c.extract_keys(&cmd("NOPE").arg("x")),
        Err(Error::UnknownCommand(b"NOPE".to_vec()))
    );
}

#[test]
fn keys_by_the_older_positions() {
    let c = catalog();
    assert_eq!(keys(&c, &["OLDGET", "a"]), some(&["a"]));
    assert_eq!(keys(&c, &["OLDMSET", "a", "1", "b", "2"]), some(&["a", "b"]));
    assert_eq!(keys(&c, &["OLDPING"]), some(&[]));
}

#[test]
fn command_rewritten_for_some_keys() {
    let c = catalog();
    let mset = cmd("MSET").arg("a").arg("1").arg("b").arg("2").arg("c").arg("3");
    let part = KeyList::from_vec(vec![b"c".to_vec(), b"a".to_vec()]);
    assert_eq!(
        c.prepare_command_for_shard(&mset, &part),
        Ok(cmd("MSET").arg("c").arg("3").arg("a").arg("1"))
    );
    let blpop = cmd("BLPOP").arg("a").arg("b").arg("0");
    let part = KeyList::from_vec(vec![b"b".to_vec()]);
    assert_eq!(c.prepare_command_for_shard(&blpop, &part), Ok(cmd("BLPOP").arg("b").arg("0")));
    assert_eq!(c.prepare_command_for_shard(&blpop, &KeyList::new()), Ok(cmd("BLPOP").arg("0")));
    let missing = KeyList::from_vec(vec![b"zz".to_vec()]);
    assert_eq!(c.prepare_command_for_shard(&blpop, &missing), Err(Error::KeyExtraction));
    assert_eq!(c.prepare_command_for_shard(&cmd("GET"), &KeyList::new()), Ok(cmd("GET")));
    assert_eq!(c.prepare_command_for_shard(&cmd("GET"), &missing), Err(Error::KeyExtraction));
}

#[test]
fn commands_that_cannot_be_rewritten() {
    let c = catalog();
    let none = KeyList::new();
    assert_eq!(
        c.prepare_command_for_shard(&cmd("EVAL").arg("s").arg("0"), &none),
        Err(Error::NotSupported)
    );
    assert_eq!(
        c.prepare_command_for_shard(&cmd("XREAD").arg("STREAMS").arg("s").arg("0"), &none),
        Err(Error::NotSupported)
    );
    assert_eq!(
        c.prepare_command_for_shard(&cmd("SMOVE").arg("a").arg("b").arg("m"), &none),
        Err(Error::NotSupported)
    );
    assert_eq!(c.prepare_command_for_shard(&cmd("OLDGET").arg("a"), &none), Err(Error::NotSupported));
    assert_eq!(
        c.prepare_command_for_shard(&cmd("NOPE"), &none),
        Err(Error::UnknownCommand(b"NOPE".to_vec()))
    );
}

#[test]
fn command_info_with_six_seven_or_ten_fields() {
    let six = CommandInfo::from_value(legacy("get", 1, 1, 1)).unwrap();
    assert_eq!(six.name, b"get".to_vec());
    assert_eq!(six.arity, -2);
    assert_eq!((six.first_key, six.last_key, six.step), (1, 1, 1));
    assert!(six.acl_categories.is_empty() && six.command_tips.is_empty());
    let mut seven = match legacy("get", 1, 1, 1) {
        Value::Array(Some(items)) => items,
        _ => unreachable!(),
    };
    seven.push(array(vec![simple("@read"), simple("@fast")]));
    let parsed = CommandInfo::from_value(array(seven.clone())).unwrap();
    assert_eq!(parsed.acl_categories, vec![b"@read".to_vec(), b"@fast".to_vec()]);
    seven.push(array(vec![]));
    assert_eq!(CommandInfo::from_value(array(seven)), Err(Error::Parse(ParseTarget::CommandInfo)));
    let ten = array(vec![
        bulk("mget"),
        Value::Integer(-2),
        array(vec![simple("readonly")]),
        Value::Integer(1),
        Value::Integer(-1),
        Value::Integer(1),
        array(vec![simple("@read")]),
        array(vec![simple("request_policy:multi_shard"), simple("nondeterministic_output")]),
        array(vec![spec(index(1), range(-1, 1, 0))]),
        array(vec![legacy("mget|x", 0, 0, 0)]),
        simple("more"),
    ]);
    let parsed = CommandInfo::from_value(ten).unwrap();
    assert_eq!(
        parsed.command_tips,
        vec![CommandTip::RequestPolicy(RequestPolicy::MultiShard), CommandTip::NonDeterministricOutput]
    );
    assert_eq!(parsed.key_specifications.len(), 1);
    assert_eq!(parsed.key_specifications[0].begin_search, BeginSearch::Index(1));
    assert_eq!(
        parsed.key_specifications[0].find_keys,
        FindKeys::Range { last_key: -1, key_step: 1, limit: 0 }
    );
    assert_eq!(parsed.key_specifications[0].flags, vec![b"RW".to_vec()]);
    assert_eq!(parsed.sub_commands.len(), 1);
    assert_eq!(parsed.sub_commands[0].name, b"mget|x".to_vec());
}

#[test]
fn command_info_that_cannot_be_read() {
    assert_eq!(CommandInfo::from_value(array(vec![])), Err(Error::Parse(ParseTarget::CommandInfo)));
    assert_eq!(CommandInfo::from_value(Value::Integer(1)), Err(Error::Parse(ParseTarget::Sequence)));
    assert_eq!(
        CommandInfo::from_value(server_error()),
        Err(Error::Redis(RedisError { kind: RedisErrorKind::Generic, description: b"no".to_vec() }))
    );
    let mut bad = match legacy("get", 1, 1, 1) {
        Value::Array(Some(items)) => items,
        _ => unreachable!(),
    };
    bad[1] = simple("two");
    assert_eq!(CommandInfo::from_value(array(bad)), Err(Error::Parse(ParseTarget::Integer)));
    let mut bad = match legacy("get", 1, 1, 1) {
        Value::Array(Some(items)) => items,
        _ => unreachable!(),
    };
    bad[3] = Value::Integer(-1);
    assert_eq!(CommandInfo::from_value(array(bad)), Err(Error::Parse(ParseTarget::Integer)));
    let mut bad = match legacy("get", 1, 1, 1) {
        Value::Array(Some(items)) => items,
        _ => unreachable!(),
    };
    bad[0] = Value::Integer(3);
    assert_eq!(CommandInfo::from_value(array(bad)), Err(Error::Parse(ParseTarget::Text)));
}

#[test]
fn command_tips() {
    let tip = |t: &str| CommandTip::from_value(simple(t));
    assert_eq!(tip("nondeterministic_output"), Ok(CommandTip::NonDeterministricOutput));
    assert_eq!(tip("nondeterministic_output_order"), Ok(CommandTip::NonDeterministricOutputOrder));
    assert_eq!(tip("request_policy:all_nodes"), Ok(CommandTip::RequestPolicy(RequestPolicy::AllNodes)));
    assert_eq!(
        tip("response_policy:agg_max"),
        Ok(CommandTip::ResponsePolicy(ResponsePolicy::AggMax))
    );
    assert_eq!(tip("request_policy:nope"), Err(Error::Parse(ParseTarget::RequestPolicy)));
    assert_eq!(tip("response_policy:nope"), Err(Error::Parse(ParseTarget::ResponsePolicy)));
    assert_eq!(tip("request_policy:all_nodes:x"), Err(Error::Parse(ParseTarget::CommandTip)));
    assert_eq!(tip("request_policy"), Err(Error::Parse(ParseTarget::CommandTip)));
    assert_eq!(tip("other:all_nodes"), Err(Error::Parse(ParseTarget::CommandTip)));
    assert_eq!(CommandTip::from_value(array(vec![])), Err(Error::Parse(ParseTarget::Text)));
}

#[test]
fn policies_by_name() {
    assert_eq!(RequestPolicy::from_str("all_nodes"), Ok(RequestPolicy::AllNodes));
    assert_eq!(RequestPolicy::from_str("all_shards"), Ok(RequestPolicy::AllShards));
    assert_eq!(RequestPolicy::from_str("multi_shard"), Ok(RequestPolicy::MultiShard));
    assert_eq!(RequestPolicy::from_str("special"), Ok(RequestPolicy::Special));
    assert_eq!(RequestPolicy::from_str("ALL_NODES"), Err(Error::Parse(ParseTarget::RequestPolicy)));
    assert_eq!(RequestPolicy::from_str(""), Err(Error::Parse(ParseTarget::RequestPolicy)));
    assert_eq!(ResponsePolicy::from_str("one_succeeded"), Ok(ResponsePolicy::OneSucceeded));
    assert_eq!(ResponsePolicy::from_str("all_succeeded"), Ok(ResponsePolicy::AllSucceeded));
    assert_eq!(ResponsePolicy::from_str("agg_logical_and"), Ok(ResponsePolicy::AggLogicalAnd));
    assert_eq!(ResponsePolicy::from_str("agg_logical_or"), Ok(ResponsePolicy::AggLogicalOr));
    assert_eq!(ResponsePolicy::from_str("agg_min"), Ok(ResponsePolicy::AggMin));
    assert_eq!(ResponsePolicy::from_str("agg_max"), Ok(ResponsePolicy::AggMax));
    assert_eq!(ResponsePolicy::from_str("agg_sum"), Ok(ResponsePolicy::AggSum));
    assert_eq!(ResponsePolicy::from_str("special"), Ok(ResponsePolicy::Special));
    assert_eq!(ResponsePolicy::from_str("agg"), Err(Error::Parse(ParseTarget::ResponsePolicy)));
}

#[test]
fn key_specification_parts() {
    assert_eq!(BeginSearch::from_value(index(3)), Ok(BeginSearch::Index(3)));
    assert_eq!(
        BeginSearch::from_value(keyword("STREAMS", -1)),
        Ok(BeginSearch::Keyword { keyword: b"STREAMS".to_vec(), start_from: -1 })
    );
    assert_eq!(BeginSearch::from_value(unknown()), Ok(BeginSearch::Unknown));
    assert_eq!(
        BeginSearch::from_value(dictionary(vec![("type", simple("other"))])),
        Err(Error::Parse(ParseTarget::BeginSearch))
    );
    assert_eq!(
        BeginSearch::from_value(dictionary(vec![("type", simple("index"))])),
        Err(Error::Parse(ParseTarget::BeginSearch))
    );
    assert_eq!(BeginSearch::from_value(dictionary(vec![])), Err(Error::Parse(ParseTarget::BeginSearch)));
    assert_eq!(
        FindKeys::from_value(range(-1, 2, 0)),
        Ok(FindKeys::Range { last_key: -1, key_step: 2, limit: 0 })
    );
    assert_eq!(
        FindKeys::from_value(keynum(0, 1, 1)),
        Ok(FindKeys::KeyEnum { key_num_idx: 0, first_key: 1, key_step: 1 })
    );
    assert_eq!(FindKeys::from_value(unknown()), Ok(FindKeys::Unknown));
    assert_eq!(
        FindKeys::from_value(dictionary(vec![("type", simple("x"))])),
        Err(Error::Parse(ParseTarget::FindKeys))
    );
    let with_notes = dictionary(vec![
        ("notes", simple("a note")),
        ("flags", array(vec![])),
        ("begin_search", index(1)),
        ("find_keys", unknown()),
    ]);
    let parsed = KeySpecification::from_value(with_notes).unwrap();
    assert_eq!(parsed.notes, b"a note".to_vec());
    assert_eq!(parsed.find_keys, FindKeys::Unknown);
    assert_eq!(
        KeySpecification::from_value(dictionary(vec![("begin_search", index(1)), ("find_keys", unknown())])),
        Err(Error::Parse(ParseTarget::KeySpecification))
    );
}

#[test]
fn documentation_parts() {
    assert_eq!(CommandDocFlag::from_value(simple("deprecated")), Ok(CommandDocFlag::Deprecated));
    assert_eq!(CommandDocFlag::from_value(simple("syscmd")), Ok(CommandDocFlag::SystemCommand));
    assert_eq!(
        CommandDocFlag::from_value(simple("x")),
        Err(Error::Parse(ParseTarget::CommandDocFlag))
    );
    assert_eq!(CommandArgumentType::from_value(bulk("unix-time")), Ok(CommandArgumentType::UnixTime));
    assert_eq!(CommandArgumentType::from_value(bulk("pure-token")), Ok(CommandArgumentType::PureToken));
    assert_eq!(CommandArgumentType::from_value(bulk("key")), Ok(CommandArgumentType::Key));
    assert_eq!(
        CommandArgumentType::from_value(bulk("float")),
        Err(Error::Parse(ParseTarget::CommandArgumentType))
    );
    assert_eq!(ArgumentFlag::from_value(bulk("multiple-token")), Ok(ArgumentFlag::MultipleToken));
    assert_eq!(ArgumentFlag::from_value(bulk("optional")), Ok(ArgumentFlag::Optional));
    assert_eq!(ArgumentFlag::from_value(bulk("")), Err(Error::Parse(ParseTarget::ArgumentFlag)));
    assert_eq!(
        HistoricalNote::from_value(array(vec![bulk("6.2.0"), bulk("Added X")])),
        Ok(HistoricalNote { version: b"6.2.0".to_vec(), description: b"Added X".to_vec() })
    );
    assert_eq!(
        HistoricalNote::from_value(array(vec![bulk("6.2.0")])),
        Err(Error::Parse(ParseTarget::Pair))
    );
}

#[test]
fn replies_read_as_plain_values() {
    assert_eq!(to_text(&bulk("abc")), Ok(b"abc".to_vec()));
    assert_eq!(to_text(&simple("abc")), Ok(b"abc".to_vec()));
    assert_eq!(to_text(&Value::BulkString(None)), Ok(vec![]));
    assert_eq!(to_text(&Value::Boolean(true)), Err(Error::Parse(ParseTarget::Text)));
    assert_eq!(to_integer(&Value::Integer(-4)), Ok(-4));
    assert_eq!(to_integer(&bulk("12")), Ok(12));
    assert_eq!(to_integer(&Value::BulkString(None)), Ok(0));
    assert_eq!(to_integer(&bulk("1.5")), Err(Error::Parse(ParseTarget::Integer)));
    assert_eq!(to_usize(&Value::Integer(-1)), Err(Error::Parse(ParseTarget::Integer)));
    assert_eq!(to_usize(&Value::Integer(7)), Ok(7));
    assert_eq!(to_isize(&Value::Integer(-7)), Ok(-7));
    assert_eq!(to_items(&Value::Array(None)), Ok(None));
    assert_eq!(to_items(&array(vec![Value::Integer(1)])), Ok(Some(&vec![Value::Integer(1)])));
    assert_eq!(to_items(&simple("x")), Err(Error::Parse(ParseTarget::Sequence)));
    assert_eq!(to_texts(&array(vec![bulk("a"), simple("b")])), Ok(vec![b"a".to_vec(), b"b".to_vec()]));
    assert_eq!(
        to_texts(&array(vec![bulk("a"), Value::Integer(1), server_error()])),
        Err(Error::Parse(ParseTarget::Text))
    );
    assert_eq!(
        to_entries(&flat(vec![("a", Value::Integer(1)), ("b", Value::Integer(2))])),
        Ok(vec![(b"a".to_vec(), Value::Integer(1)), (b"b".to_vec(), Value::Integer(2))])
    );
    assert_eq!(
        to_entries(&array(vec![bulk("a")])),
        Err(Error::Parse(ParseTarget::Dictionary))
    );
    assert_eq!(to_entries(&Value::Integer(1)), Err(Error::Parse(ParseTarget::Dictionary)));
}

#[test]
fn letter_case() {
    assert_eq!(to_lower(b"MGet-1"), b"mget-1".to_vec());
    assert!(eq_ignore_case(b"Streams", b"STREAMS"));
    assert!(!eq_ignore_case(b"Streams", b"STREAM"));
}

#[test]
fn documentation_of_a_command() {
    let argument = flat(vec![
        ("name", bulk("key")),
        ("type", bulk("key")),
        ("key_spec_index", Value::Integer(0)),
        ("flags", array(vec![bulk("multiple")])),
    ]);
    let doc = flat(vec![
        ("summary", bulk("Get the values of all the given keys")),
        ("since", bulk("1.0.0")),
        ("group", bulk("string")),
        ("complexity", bulk("O(N)")),
        ("doc_flags", array(vec![bulk("deprecated")])),
        ("history", array(vec![array(vec![bulk("6.2.0"), bulk("changed")])])),
        ("arguments", array(vec![argument])),
    ]);
    let parsed = CommandDoc::from_value(doc).unwrap();
    assert_eq!(parsed.summary, b"Get the values of all the given keys".to_vec());
    assert_eq!(parsed.group, b"string".to_vec());
    assert_eq!(parsed.doc_flags, vec![CommandDocFlag::Deprecated]);
    assert_eq!(parsed.deprecated_since, Vec::<u8>::new());
    assert_eq!(
        parsed.history,
        vec![HistoricalNote { version: b"6.2.0".to_vec(), description: b"changed".to_vec() }]
    );
    assert_eq!(
        parsed.arguments,
        vec![CommandArgument {
            name: b"key".to_vec(),
            display_text: vec![],
            type_: CommandArgumentType::Key,
            key_spec_index: 0,
            token: vec![],
            summary: vec![],
            since: vec![],
            deprecated_since: vec![],
            flags: vec![ArgumentFlag::Multiple],
            value: vec![vec![]],
        }]
    );
    assert_eq!(
        CommandDoc::from_value(flat(vec![("summary", bulk("s"))])),
        Err(Error::Parse(ParseTarget::CommandDoc))
    );
    assert_eq!(
        CommandArgument::from_value(flat(vec![("name", bulk("n"))])),
        Err(Error::Parse(ParseTarget::CommandArgument))
    );
    let with_value = flat(vec![
        ("name", bulk("n")),
        ("type", bulk("oneof")),
        ("value", array(vec![bulk("a"), bulk("b")])),
    ]);
    assert_eq!(CommandArgument::from_value(with_value).unwrap().value, vec![b"a".to_vec(), b"b".to_vec()]);
    let bad_value = flat(vec![("name", bulk("n")), ("type", bulk("oneof")), ("value", Value::Integer(1))]);
    assert_eq!(CommandArgument::from_value(bad_value), Err(Error::Parse(ParseTarget::CommandArgument)));
}

#[test]
fn reply_to_cluster_shards() {
    let node = |id: &str, port: i64, role: &str| {
        flat(vec![
            ("id", bulk(id)),
            ("port", Value::Integer(port)),
            ("ip", bulk("127.0.0.1")),
            ("endpoint", bulk("127.0.0.1")),
            ("role", bulk(role)),
            ("replication-offset", Value::Integer(72156)),
            ("health", bulk("online")),
        ])
    };
    let reply = array(vec![
        flat(vec![
            ("slots", array(vec![Value::Integer(0), Value::Integer(5460)])),
            ("nodes", array(vec![node("a", 30001, "master"), node("b", 30004, "replica")])),
        ]),
        flat(vec![
            (
                "slots",
                array(vec![
                    Value::Integer(5461),
                    Value::Integer(10922),
                    Value::Integer(10923),
                    Value::Integer(16383),
                ]),
            ),
            ("nodes", array(vec![node("c", 30002, "master")])),
        ]),
    ]);
    let shards = cluster_shards(&reply).unwrap();
    assert_eq!(shards.len(), 2);
    assert_eq!(shards[0].slots, vec![(0, 5460)]);
    assert_eq!(shards[1].slots, vec![(5461, 10922), (10923, 16383)]);
    assert_eq!(
        shards[0].nodes[1],
        ClusterNodeResult {
            id: b"b".to_vec(),
            port: Some(30004),
            tls_port: None,
            ip: b"127.0.0.1".to_vec(),
            role: b"replica".to_vec(),
        }
    );
    let odd = array(vec![flat(vec![
        ("slots", array(vec![Value::Integer(0)])),
        ("nodes", array(vec![])),
    ])]);
    assert_eq!(cluster_shards(&odd), Err(Error::Parse(ParseTarget::ClusterShard)));
    let far = array(vec![flat(vec![
        ("slots", array(vec![Value::Integer(0), Value::Integer(70000)])),
        ("nodes", array(vec![])),
    ])]);
    assert_eq!(cluster_shards(&far), Err(Error::Parse(ParseTarget::ClusterShard)));
    let nameless = array(vec![flat(vec![
        ("slots", array(vec![])),
        ("nodes", array(vec![flat(vec![("port", Value::Integer(1))])])),
    ])]);
    assert_eq!(cluster_shards(&nameless), Err(Error::Parse(ParseTarget::ClusterNode)));
    assert_eq!(cluster_shards(&array(vec![flat(vec![])])), Err(Error::Parse(ParseTarget::ClusterShard)));
    assert_eq!(cluster_shards(&Value::Array(None)), Ok(Vec::<ClusterShardResult>::new()));
}
