use rustis::commands::command_info_manager::CommandInfoManager;
use rustis::error::{Error, RedisError, RedisErrorKind, RetryReason};
use rustis::network::cluster_connection::{
    ask_reasons, must_reconnect, AskReason, ClusterConnection, SubRequest, Write,
};
use rustis::network::cluster_router::{after_reconnect, BatchStep};
use rustis::network::hash_slot::{hash_slot, hash_slots, KeyList};
use rustis::network::topology::{
    is_exact_cover, select_port, shard_table, ClusterNodeResult, ClusterShardResult, SlotRange,
};
use rustis::resp::command::{cmd, Command};
use rustis::resp::value::Value;

fn bulk(text: &str) -> Value {
    Value::BulkString(Some(text.as_bytes().to_vec()))
}

fn simple(text: &str) -> Value {
    Value::SimpleString(text.as_bytes().to_vec())
}

fn array(items: Vec<Value>) -> Value {
    Value::Array(Some(items))
}

fn dictionary(entries: Vec<(&str, Value)>) -> Value {
    Value::Dictionary(entries.into_iter().map(|(k, v)| (simple(k), v)).collect())
}

fn range_spec(index: i64, last_key: i64, step: i64, limit: i64) -> Value {
    dictionary(vec![
        ("flags", array(vec![simple("RO")])),
        (
            "begin_search",
            dictionary(vec![
                ("type", simple("index")),
                ("spec", dictionary(vec![("index", Value::Integer(index))])),
            ]),
        ),
        (
            "find_keys",
            dictionary(vec![
                ("type", simple("range")),
                (
                    "spec",
                    dictionary(vec![
                        ("lastkey", Value::Integer(last_key)),
                        ("keystep", Value::Integer(step)),
                        ("limit", Value::Integer(limit)),
                    ]),
                ),
            ]),
        ),
    ])
}

fn info(name: &str, arity: i64, tips: &[&str], specs: Vec<Value>, subs: Vec<Value>) -> Value {
    array(vec![
        bulk(name),
        Value::Integer(arity),
        array(vec![]),
        Value::Integer(if specs.is_empty() { 0 } else { 1 }),
        Value::Integer(1),
        Value::Integer(1),
        array(vec![]),
        array(tips.iter().map(|t| simple(t)).collect()),
        array(specs),
        array(subs),
    ])
}

fn command_reply() -> Value {
    array(vec![
        info("get", 2, &[], vec![range_spec(1, 0, 1, 0)], vec![]),
        info("set", -3, &[], vec![range_spec(1, 0, 1, 0)], vec![]),
        info("ping", -1, &[], vec![], vec![]),
        info(
            "mget",
            -2,
            &["request_policy:multi_shard"],
            vec![range_spec(1, -1, 1, 0)],
            vec![],
        ),
        info(
            "mset",
            -3,
            &["request_policy:multi_shard", "response_policy:all_succeeded"],
            vec![range_spec(1, -1, 2, 0)],
            vec![],
        ),
        info(
            "del",
            -2,
            &["request_policy:multi_shard", "response_policy:agg_sum"],
            vec![range_spec(1, -1, 1, 0)],
            vec![],
        ),
        info("dbsize", 1, &["request_policy:all_shards", "response_policy:agg_sum"], vec![], vec![]),
        info("keys", 2, &["request_policy:all_shards", "nondeterministic_output_order"], vec![], vec![]),
        info(
            "script",
            -2,
            &[],
            vec![],
            vec![
                info(
                    "script|exists",
                    -3,
                    &["request_policy:all_shards", "response_policy:agg_logical_and"],
                    vec![],
                    vec![],
                ),
                info(
                    "script|flush",
                    -2,
                    &["request_policy:all_nodes", "response_policy:all_succeeded"],
                    vec![],
                    vec![],
                ),
            ],
        ),
        info("randomkey", 1, &["request_policy:all_shards", "response_policy:special"], vec![], vec![]),
        info("scan", -2, &["request_policy:special"], vec![], vec![]),
        info("wait", 3, &["request_policy:all_shards", "response_policy:agg_min"], vec![], vec![]),
    ])
}

fn node(id: &str, ip: &str, port: u16, role: &str) -> ClusterNodeResult {
    ClusterNodeResult {
        id: id.as_bytes().to_vec(),
        port: Some(port),
        tls_port: None,
        ip: ip.as_bytes().to_vec(),
        role: role.as_bytes().to_vec(),
    }
}

fn reports() -> Vec<ClusterShardResult> {
    vec![
        ClusterShardResult {
            slots: vec![(10923, 16383)],
            nodes: vec![node("c", "10.0.0.3", 6379, "master"), node("c2", "10.0.1.3", 6379, "replica")],
        },
        ClusterShardResult {
            slots: vec![(0, 5460)],
            nodes: vec![node("a", "10.0.0.1", 6379, "master"), node("a2", "10.0.1.1", 6379, "replica")],
        },
        ClusterShardResult {
            slots: vec![(5461, 10922)],
            nodes: vec![node("b", "10.0.0.2", 6379, "master")],
        },
    ]
}

fn cluster() -> ClusterConnection {
    ClusterConnection::connect(&reports(), &command_reply()).unwrap()
}

fn key_in_slot(slot: u16, suffix: &str) -> Vec<u8> {
    for i in 0..1_000_000u32 {
        let tag = format!("t{}", i);
        if hash_slot(tag.as_bytes()) == slot {
            return format!("{{{}}}{}", tag, suffix).into_bytes();
        }
    }
    panic!("no key for slot {}", slot);
}

fn keys_of(command: &Command, cluster: &ClusterConnection) -> KeyList {
    cluster.command_info_manager.extract_keys(command).unwrap().unwrap()
}

fn targets(writes: &Vec<Write>) -> Vec<(usize, usize, bool)> {
    writes.iter().map(|w| (w.shard_index, w.node_index, w.asking)).collect()
}

fn part(sub: &SubRequest) -> (usize, usize, Vec<Vec<u8>>) {
    (sub.shard_index, sub.node_index, sub.keys.to_vec())
}

fn moved(slot: u16, host: &str, port: u16) -> Value {
    Value::Error(RedisError {
        kind: RedisErrorKind::Moved { hash_slot: slot, address: (host.as_bytes().to_vec(), port) },
        description: format!("{} {}:{}", slot, host, port).into_bytes(),
    })
}

fn ask(slot: u16, host: &str, port: u16) -> Value {
    Value::Error(RedisError {
        kind: RedisErrorKind::Ask { hash_slot: slot, address: (host.as_bytes().to_vec(), port) },
        description: format!("{} {}:{}", slot, host, port).into_bytes(),
    })
}

#[test]
fn hash_slot_of_known_keys() {
    assert_eq!(hash_slot(b"123456789"), 12739);
    assert_eq!(hash_slot(b"foo"), 12182);
    assert_eq!(hash_slot(b"bar"), 5061);
    assert_eq!(hash_slot(b""), 0);
}

#[test]
fn hash_slot_without_brace_or_with_empty_tag_takes_the_whole_key() {
    assert_eq!(hash_slot(b"foo{}{bar}"), 8363);
    assert_ne!(hash_slot(b"foo{}{bar}"), hash_slot(b"bar"));
    assert_eq!(hash_slot(b"{}"), 15257);
    assert_ne!(hash_slot(b"foo{bar"), hash_slot(b"bar"));
    assert_ne!(hash_slot(b"foo}bar{"), hash_slot(b""));
}

#[test]
fn hash_slot_of_a_tagged_key_is_that_of_its_tag() {
    assert_eq!(hash_slot(b"{user1000}.following"), hash_slot(b"user1000"));
    assert_eq!(hash_slot(b"{user1000}.followers"), hash_slot(b"user1000"));
    assert_eq!(hash_slot(b"foo{bar}{zap}"), hash_slot(b"bar"));
    assert_eq!(hash_slot(b"foo{{bar}}zap"), hash_slot(b"{bar"));
    assert_eq!(hash_slot(b"a{b}"), hash_slot(b"b"));
}

#[test]
fn hash_slots_key_by_key() {
    let keys = KeyList::from_vec(vec![b"foo".to_vec(), b"bar".to_vec(), b"{foo}x".to_vec()]);
    let slots = hash_slots(&keys);
    assert_eq!(slots.len(), 3);
    assert_eq!(slots.get(0), Some(12182));
    assert_eq!(slots.get(1), Some(5061));
    assert_eq!(slots.get(2), Some(12182));
    assert_eq!(slots.get(3), None);
    assert_eq!(keys.len(), 3);
    assert_eq!(keys.get(1), Some(&b"bar".to_vec()));
    assert_eq!(keys.get(3), None);
    assert_eq!(keys.duplicate().to_vec(), keys.to_vec());
}

#[test]
fn shard_table_sorts_ranges_and_keeps_masters() {
    let (shards, ranges) = shard_table(&reports()).unwrap();
    assert_eq!(shards.len(), 3);
    assert_eq!(shards[0].nodes.len(), 1);
    assert_eq!(shards[0].nodes[0].id, b"c".to_vec());
    assert_eq!(shards[1].nodes[0].address, (b"10.0.0.1".to_vec(), 6379));
    assert_eq!(
        ranges,
        vec![
            SlotRange { slot_range: (0, 5460), shard_index: 1 },
            SlotRange { slot_range: (5461, 10922), shard_index: 2 },
            SlotRange { slot_range: (10923, 16383), shard_index: 0 },
        ]
    );
    assert!(is_exact_cover(&ranges));
}

#[test]
fn shard_table_refuses_what_does_not_tile_the_slots() {
    let mut gap = reports();
    gap[2].slots = vec![(5461, 10000)];
    assert_eq!(shard_table(&gap), Err(Error::ClusterMisconfiguration));
    let mut overlap = reports();
    overlap[2].slots = vec![(5000, 10922)];
    assert_eq!(shard_table(&overlap), Err(Error::ClusterMisconfiguration));
    let mut short = reports();
    short[0].slots = vec![(10923, 16000)];
    assert_eq!(shard_table(&short), Err(Error::ClusterMisconfiguration));
    let mut inverted = reports();
    inverted[1].slots = vec![(5460, 0)];
    assert_eq!(shard_table(&inverted), Err(Error::ClusterMisconfiguration));
    assert_eq!(shard_table(&vec![]), Err(Error::ClusterMisconfiguration));
}

#[test]
fn shard_table_refuses_a_master_without_one_port() {
    let mut none = reports();
    none[0].nodes[0].port = None;
    assert_eq!(shard_table(&none), Err(Error::ClusterMisconfiguration));
    let mut both = reports();
    both[0].nodes[0].tls_port = Some(6380);
    assert_eq!(shard_table(&both), Err(Error::ClusterMisconfiguration));
    let mut empty = reports();
    empty[1].nodes.clear();
    assert_eq!(shard_table(&empty), Err(Error::ClusterMisconfiguration));
    assert_eq!(select_port(None, Some(7)), Some(7));
    assert_eq!(select_port(Some(8), None), Some(8));
    assert_eq!(select_port(None, None), None);
    assert_eq!(select_port(Some(1), Some(2)), None);
}

#[test]
fn split_ranges_of_one_shard() {
    let reports = vec![
        ClusterShardResult {
            slots: vec![(0, 99), (200, 16383)],
            nodes: vec![node("a", "h1", 1, "master")],
        },
        ClusterShardResult { slots: vec![(100, 199)], nodes: vec![node("b", "h2", 2, "master")] },
    ];
    let cluster = ClusterConnection::connect(&reports, &command_reply()).unwrap();
    assert_eq!(cluster.get_shard_index_by_slot(0, &vec![]), Some((0, false)));
    assert_eq!(cluster.get_shard_index_by_slot(99, &vec![]), Some((0, false)));
    assert_eq!(cluster.get_shard_index_by_slot(100, &vec![]), Some((1, false)));
    assert_eq!(cluster.get_shard_index_by_slot(199, &vec![]), Some((1, false)));
    assert_eq!(cluster.get_shard_index_by_slot(200, &vec![]), Some((0, false)));
    assert_eq!(cluster.get_shard_index_by_slot(16383, &vec![]), Some((0, false)));
}

#[test]
fn every_slot_has_one_shard() {
    let cluster = cluster();
    for slot in 0..=16383u16 {
        let expected = if slot <= 5460 {
            1
        } else if slot <= 10922 {
            2
        } else {
            0
        };
        assert_eq!(cluster.get_shard_index_by_slot(slot, &vec![]), Some((expected, false)));
        assert_eq!(
            cluster.slot_ranges.iter().filter(|r| r.slot_range.0 <= slot && slot <= r.slot_range.1).count(),
            1
        );
    }
    assert_eq!(cluster.get_shard_index_by_slot(16384, &vec![]), None);
    assert_eq!(cluster.find_range(70), Some(0));
    assert_eq!(cluster.find_range(40000), None);
}

#[test]
fn ask_overrules_the_slot_index() {
    let cluster = cluster();
    let asks = vec![
        AskReason { hash_slot: 7000, address: (b"10.0.0.3".to_vec(), 6379) },
        AskReason { hash_slot: 7000, address: (b"10.0.0.1".to_vec(), 6379) },
        AskReason { hash_slot: 1, address: (b"10.9.9.9".to_vec(), 6379) },
    ];
    assert_eq!(cluster.get_shard_index_by_slot(7000, &asks), Some((0, true)));
    assert_eq!(cluster.get_shard_index_by_slot(7001, &asks), Some((2, false)));
    assert_eq!(cluster.get_shard_index_by_slot(1, &asks), None);
    assert_eq!(cluster.find_owner(b"10.0.0.2", 6379), Some(2));
    assert_eq!(cluster.find_owner(b"10.0.0.2", 6380), None);
}

#[test]
fn retry_reasons_are_told_apart() {
    let reasons = vec![
        RetryReason::Ask { hash_slot: 1, address: (b"h".to_vec(), 2) },
        RetryReason::Moved { hash_slot: 3, address: (b"g".to_vec(), 4) },
        RetryReason::Ask { hash_slot: 5, address: (b"f".to_vec(), 6) },
    ];
    assert!(must_reconnect(&reasons));
    assert!(!must_reconnect(&vec![RetryReason::Ask { hash_slot: 1, address: (b"h".to_vec(), 2) }]));
    assert!(!must_reconnect(&vec![]));
    assert_eq!(
        ask_reasons(&reasons),
        vec![
            AskReason { hash_slot: 1, address: (b"h".to_vec(), 2) },
            AskReason { hash_slot: 5, address: (b"f".to_vec(), 6) },
        ]
    );
}

#[test]
fn get_goes_to_the_shard_of_its_key() {
    let cluster = cluster();
    let command = cmd("GET").arg("foo");
    let keys = keys_of(&command, &cluster);
    let d = cluster.dispatch(&command, keys, &vec![]).unwrap();
    assert_eq!(targets(&d.writes), vec![(0, 0, false)]);
    assert_eq!(d.writes[0].command, command);
    assert_eq!(d.request_info.command_name, b"get".to_vec());
    assert_eq!(d.request_info.keys.to_vec(), vec![b"foo".to_vec()]);
    assert_eq!(d.request_info.sub_requests.len(), 1);
    assert_eq!(part(d.request_info.sub_requests.at(0)), (0, 0, vec![b"foo".to_vec()]));
}

#[test]
fn command_without_keys_goes_to_some_shard() {
    let cluster = cluster();
    for _ in 0..20 {
        let command = cmd("PING");
        let d = cluster.dispatch(&command, KeyList::new(), &vec![]).unwrap();
        assert_eq!(d.writes.len(), 1);
        assert!(d.writes[0].shard_index < 3);
        assert_eq!(d.writes[0].node_index, 0);
        assert!(!d.writes[0].asking);
        assert_eq!(d.request_info.sub_requests.len(), 1);
        assert_eq!(d.request_info.sub_requests.at(0).shard_index, d.writes[0].shard_index);
    }
    let command = cmd("PING");
    let slots = hash_slots(&KeyList::new());
    let d = cluster.no_request_policy(&command, b"ping", KeyList::new(), &slots, &vec![], 2).unwrap();
    assert_eq!(targets(&d.writes), vec![(2, 0, false)]);
}

#[test]
fn keys_of_different_slots_are_refused_without_policy() {
    let cluster = cluster();
    let keys = KeyList::from_vec(vec![b"foo".to_vec(), b"bar".to_vec()]);
    let slots = hash_slots(&keys);
    let r = cluster.no_request_policy(&cmd("GET").arg("foo"), b"get", keys, &slots, &vec![], 0);
    assert_eq!(r, Err(Error::CrossSlot(b"get".to_vec())));
    let keys = KeyList::from_vec(vec![b"{a}1".to_vec(), b"{a}2".to_vec()]);
    let slots = hash_slots(&keys);
    let r = cluster.no_request_policy(&cmd("X"), b"x", keys, &slots, &vec![], 0).unwrap();
    assert_eq!(r.writes.len(), 1);
}

#[test]
fn unknown_and_special_commands_are_refused() {
    let cluster = cluster();
    assert_eq!(
        cluster.dispatch(&cmd("NOPE").arg("x"), KeyList::new(), &vec![]),
        Err(Error::UnknownCommand(b"NOPE".to_vec()))
    );
    assert_eq!(cluster.dispatch(&cmd("SCAN").arg("0"), KeyList::new(), &vec![]), Err(Error::NotSupported));
}

#[test]
fn dbsize_goes_to_every_master_and_sums_up() {
    let mut cluster = cluster();
    let (batches, error) = cluster.write_batch(&vec![cmd("DBSIZE")], vec![None], &vec![]);
    assert_eq!(error, None);
    assert_eq!(batches.len(), 1);
    assert_eq!(targets(&batches[0]), vec![(0, 0, false), (1, 0, false), (2, 0, false)]);
    assert_eq!(cluster.next_reads(), Some(vec![(0, 0), (1, 0), (2, 0)]));
    let reply = cluster.read(vec![
        Some(Ok(Value::Integer(10))),
        Some(Ok(Value::Integer(20))),
        Some(Ok(Value::Integer(30))),
    ]);
    assert_eq!(reply, Some(Ok(Value::Integer(60))));
    assert_eq!(cluster.next_reads(), None);
    assert_eq!(cluster.read(vec![]), None);
}

#[test]
fn script_exists_is_combined_by_logical_and() {
    let mut cluster = cluster();
    let command = cmd("SCRIPT").arg("EXISTS").arg("sha1").arg("sha2");
    let (batches, error) = cluster.write_batch(&vec![command], vec![None], &vec![]);
    assert_eq!(error, None);
    assert_eq!(batches[0].len(), 3);
    let one = |a: i64, b: i64| Some(Ok(array(vec![Value::Integer(a), Value::Integer(b)])));
    let reply = cluster.read(vec![one(1, 1), one(1, 0), one(1, 1)]);
    assert_eq!(reply, Some(Ok(array(vec![Value::Integer(1), Value::Integer(0)]))));
}

#[test]
fn script_flush_goes_to_every_node() {
    let mut cluster = cluster();
    assert!(cluster.needs_replicas());
    assert_eq!(cluster.connect_replicas(&reports()), Ok(()));
    assert!(!cluster.needs_replicas());
    assert_eq!(cluster.shards[0].nodes.len(), 2);
    assert_eq!(cluster.shards[0].nodes[1].address, (b"10.0.1.3".to_vec(), 6379));
    assert_eq!(cluster.shards[1].nodes.len(), 2);
    assert_eq!(cluster.shards[2].nodes.len(), 1);
    let command = cmd("SCRIPT").arg("FLUSH");
    let d = cluster.dispatch(&command, KeyList::new(), &vec![]).unwrap();
    assert_eq!(
        targets(&d.writes),
        vec![(0, 0, false), (0, 1, false), (1, 0, false), (1, 1, false), (2, 0, false)]
    );
    assert_eq!(d.request_info.sub_requests.len(), 5);
    assert_eq!(part(d.request_info.sub_requests.at(3)), (1, 1, vec![]));
}

#[test]
fn replicas_of_an_unknown_master_are_refused() {
    let mut cluster = cluster();
    let mut strange = reports();
    strange[0].nodes[0].id = b"zzz".to_vec();
    assert_eq!(cluster.connect_replicas(&strange), Err(Error::ClusterMisconfiguration));
    assert_eq!(cluster.shards[1].nodes.len(), 1);
    let mut portless = reports();
    portless[1].nodes[1].port = None;
    assert_eq!(cluster.connect_replicas(&portless), Err(Error::ClusterMisconfiguration));
    assert_eq!(cluster.shards[0].nodes.len(), 1);
}

#[test]
fn mget_is_split_by_shard_and_put_together_by_key() {
    let mut cluster = cluster();
    let k1 = key_in_slot(5000, "1");
    let k2 = key_in_slot(12000, "2");
    let k3 = key_in_slot(5000, "3");
    let command = cmd("MGET").arg(k1.clone()).arg(k2.clone()).arg(k3.clone());
    let (batches, error) = cluster.write_batch(&vec![command], vec![None], &vec![]);
    assert_eq!(error, None);
    let writes = &batches[0];
    assert_eq!(targets(writes), vec![(0, 0, false), (1, 0, false)]);
    assert_eq!(writes[0].command, cmd("MGET").arg(k2.clone()));
    assert_eq!(writes[1].command, cmd("MGET").arg(k1.clone()).arg(k3.clone()));
    let info = &cluster.pending[0];
    assert_eq!(info.keys.to_vec(), vec![k1.clone(), k2.clone(), k3.clone()]);
    assert_eq!(part(info.sub_requests.at(0)), (0, 0, vec![k2.clone()]));
    assert_eq!(part(info.sub_requests.at(1)), (1, 0, vec![k1.clone(), k3.clone()]));
    let mut sent: Vec<Vec<u8>> = info.sub_requests.to_vec().iter().flat_map(|s| s.keys.to_vec()).collect();
    let mut given = vec![k1, k2, k3];
    sent.sort();
    given.sort();
    assert_eq!(sent, given);
    let reply = cluster.read(vec![
        Some(Ok(array(vec![bulk("v2")]))),
        Some(Ok(array(vec![bulk("v1"), bulk("v3")]))),
    ]);
    assert_eq!(reply, Some(Ok(array(vec![bulk("v1"), bulk("v2"), bulk("v3")]))));
}

#[test]
fn mset_keeps_each_key_with_its_value() {
    let cluster = cluster();
    let a = key_in_slot(100, "a");
    let b = key_in_slot(9000, "b");
    let c = key_in_slot(100, "c");
    let command = cmd("MSET")
        .arg(c.clone())
        .arg("vc")
        .arg(b.clone())
        .arg("vb")
        .arg(a.clone())
        .arg("va");
    let keys = keys_of(&command, &cluster);
    assert_eq!(keys.to_vec(), vec![c.clone(), b.clone(), a.clone()]);
    let d = cluster.dispatch(&command, keys, &vec![]).unwrap();
    assert_eq!(targets(&d.writes), vec![(1, 0, false), (2, 0, false)]);
    assert_eq!(d.writes[0].command, cmd("MSET").arg(c.clone()).arg("vc").arg(a.clone()).arg("va"));
    assert_eq!(d.writes[1].command, cmd("MSET").arg(b.clone()).arg("vb"));
    assert_eq!(part(d.request_info.sub_requests.at(0)), (1, 0, vec![c, a]));
}

#[test]
fn two_slots_of_one_shard_make_one_part() {
    let cluster = cluster();
    let a = key_in_slot(200, "");
    let b = key_in_slot(100, "");
    let command = cmd("DEL").arg(a.clone()).arg(b.clone());
    let keys = keys_of(&command, &cluster);
    let d = cluster.dispatch(&command, keys, &vec![]).unwrap();
    assert_eq!(targets(&d.writes), vec![(1, 0, false)]);
    assert_eq!(d.writes.len(), 1);
    assert_eq!(d.request_info.sub_requests.len(), 1);
    assert_eq!(d.writes[0].command, cmd("DEL").arg(a.clone()).arg(b.clone()));
    assert_eq!(part(d.request_info.sub_requests.at(0)), (1, 0, vec![a, b]));
}

#[test]
fn multi_shard_without_keys_goes_to_the_first_shard() {
    let cluster = cluster();
    let command = cmd("MGET");
    let keys = KeyList::new();
    let slots = hash_slots(&keys);
    let d = cluster.request_policy_multi_shard(&command, b"mget", keys, &slots, &vec![]).unwrap();
    assert_eq!(targets(&d.writes), vec![(0, 0, false)]);
    assert_eq!(d.writes[0].command, cmd("MGET"));
}

#[test]
fn multi_shard_with_a_key_that_is_not_in_the_command() {
    let cluster = cluster();
    let command = cmd("MGET").arg("a");
    let keys = KeyList::from_vec(vec![b"zz".to_vec()]);
    let slots = hash_slots(&keys);
    assert_eq!(
        cluster.request_policy_multi_shard(&command, b"mget", keys, &slots, &vec![]),
        Err(Error::KeyExtraction)
    );
}

#[test]
fn moved_asks_for_a_new_shard_table() {
    let mut cluster = cluster();
    let k = key_in_slot(7000, "k");
    let command = cmd("SET").arg(k.clone()).arg("v");
    let (batches, error) = cluster.write_batch(&vec![command.duplicate()], vec![None], &vec![]);
    assert_eq!(error, None);
    assert_eq!(targets(&batches[0]), vec![(2, 0, false)]);
    let reply = cluster.read(vec![Some(Ok(moved(7000, "10.0.0.2", 6379)))]);
    let reasons = match reply {
        Some(Err(Error::Retry(reasons))) => reasons.to_vec(),
        other => panic!("no retry: {:?}", other),
    };
    assert_eq!(
        reasons,
        vec![RetryReason::Moved { hash_slot: 7000, address: (b"10.0.0.2".to_vec(), 6379) }]
    );
    assert!(must_reconnect(&reasons));
    let pending = cluster.pending.len();
    let (given, left) =
        match cluster.prepare_batch(&vec![command.duplicate()], vec![None], &reasons) {
            BatchStep::Reconnect { given_keys, retry_reasons } => (given_keys, retry_reasons),
            BatchStep::Written { .. } => panic!("written with a stale shard table"),
        };
    assert_eq!(cluster.pending.len(), pending);
    assert_eq!(given, vec![None]);
    assert_eq!(left, vec![]);
    let mut moved_reports = reports();
    moved_reports[1].slots = vec![(0, 7000)];
    moved_reports[2].slots = vec![(7001, 10922)];
    assert_eq!(cluster.reconnect(&moved_reports), Ok(()));
    let (batches, error) = match cluster.prepare_batch(&vec![command], given, &left) {
        BatchStep::Written { writes, error } => (writes, error),
        BatchStep::Reconnect { .. } => panic!("asked for the shard table twice"),
    };
    assert_eq!(error, None);
    assert_eq!(targets(&batches[0]), vec![(1, 0, false)]);
    assert_eq!(cluster.read(vec![Some(Ok(simple("OK")))]), Some(Ok(simple("OK"))));
}

#[test]
fn reasons_left_after_a_new_shard_table() {
    let ask = RetryReason::Ask { hash_slot: 1, address: (b"h".to_vec(), 2) };
    let moved = RetryReason::Moved { hash_slot: 3, address: (b"g".to_vec(), 4) };
    let other = RetryReason::Ask { hash_slot: 5, address: (b"f".to_vec(), 6) };
    assert_eq!(
        after_reconnect(&vec![moved.clone(), ask.clone(), moved.clone(), other.clone()]),
        vec![ask.clone(), other.clone()]
    );
    assert_eq!(after_reconnect(&vec![ask.clone()]), vec![ask]);
    assert_eq!(after_reconnect(&vec![moved]), vec![]);
    assert_eq!(after_reconnect(&vec![]), vec![]);
}

#[test]
fn a_batch_is_written_where_nothing_has_moved() {
    let mut cluster = cluster();
    let k = key_in_slot(7000, "k");
    let step = cluster.prepare_batch(&vec![cmd("GET").arg(k)], vec![None], &vec![]);
    match step {
        BatchStep::Written { writes, error } => {
            assert_eq!(error, None);
            assert_eq!(targets(&writes[0]), vec![(2, 0, false)]);
        }
        BatchStep::Reconnect { .. } => panic!("asked for the shard table"),
    }
    assert_eq!(cluster.pending.len(), 1);
}

#[test]
fn replicas_are_wanted_by_commands_for_all_nodes() {
    let mut cluster = cluster();
    assert!(cluster.needs_replicas());
    assert!(cluster.wants_replicas(&cmd("SCRIPT").arg("FLUSH")));
    assert!(!cluster.wants_replicas(&cmd("GET").arg("k")));
    assert!(!cluster.wants_replicas(&cmd("DBSIZE")));
    assert!(!cluster.wants_replicas(&cmd("NOSUCH")));
    assert_eq!(cluster.connect_replicas(&reports()), Ok(()));
    assert!(!cluster.needs_replicas());
    assert!(!cluster.wants_replicas(&cmd("SCRIPT").arg("FLUSH")));
    assert!(!cluster.wants_replicas(&cmd("GET").arg("k")));
}

#[test]
fn keys_under_ask_go_in_a_part_of_their_own() {
    let cluster = cluster();
    let k1 = key_in_slot(100, "1");
    let k2 = key_in_slot(200, "2");
    let k3 = key_in_slot(6000, "3");
    let k4 = key_in_slot(200, "4");
    let command = cmd("MGET").arg(k1.clone()).arg(k2.clone()).arg(k3.clone()).arg(k4.clone());
    let own = vec![AskReason { hash_slot: 200, address: (b"10.0.0.1".to_vec(), 6379) }];
    let d = cluster.dispatch(&command, keys_of(&command, &cluster), &own).unwrap();
    assert_eq!(targets(&d.writes), vec![(1, 0, false), (1, 0, true), (2, 0, false)]);
    assert_eq!(part(d.request_info.sub_requests.at(0)), (1, 0, vec![k1.clone()]));
    assert_eq!(part(d.request_info.sub_requests.at(1)), (1, 0, vec![k2.clone(), k4.clone()]));
    assert_eq!(part(d.request_info.sub_requests.at(2)), (2, 0, vec![k3.clone()]));
    assert_eq!(d.writes[1].command, cmd("MGET").arg(k2.clone()).arg(k4.clone()));
    let other = vec![AskReason { hash_slot: 200, address: (b"10.0.0.2".to_vec(), 6379) }];
    let d = cluster.dispatch(&command, keys_of(&command, &cluster), &other).unwrap();
    assert_eq!(targets(&d.writes), vec![(1, 0, false), (2, 0, false), (2, 0, true)]);
    assert_eq!(part(d.request_info.sub_requests.at(0)), (1, 0, vec![k1]));
    assert_eq!(part(d.request_info.sub_requests.at(1)), (2, 0, vec![k3]));
    assert_eq!(part(d.request_info.sub_requests.at(2)), (2, 0, vec![k2, k4]));
}

#[test]
fn a_key_given_twice_is_sent_twice_and_answered_twice() {
    let mut cluster = cluster();
    let a = key_in_slot(100, "a");
    let b = key_in_slot(6000, "b");
    let command = cmd("MGET").arg(a.clone()).arg(b.clone()).arg(a.clone());
    let (batches, error) = cluster.write_batch(&vec![command], vec![None], &vec![]);
    assert_eq!(error, None);
    assert_eq!(targets(&batches[0]), vec![(1, 0, false), (2, 0, false)]);
    assert_eq!(batches[0][0].command, cmd("MGET").arg(a.clone()).arg(a.clone()));
    assert_eq!(batches[0][1].command, cmd("MGET").arg(b.clone()));
    let reply = cluster.read(vec![
        Some(Ok(array(vec![bulk("first"), bulk("third")]))),
        Some(Ok(array(vec![bulk("second")]))),
    ]);
    assert_eq!(reply, Some(Ok(array(vec![bulk("first"), bulk("second"), bulk("third")]))));
}

#[test]
fn reconnect_keeps_the_table_where_the_reports_are_bad() {
    let mut cluster = cluster();
    let mut bad = reports();
    bad[0].slots = vec![];
    assert_eq!(cluster.reconnect(&bad), Err(Error::ClusterMisconfiguration));
    assert_eq!(cluster.slot_ranges.len(), 3);
    assert_eq!(cluster.get_shard_index_by_slot(16000, &vec![]), Some((0, false)));
}

#[test]
fn ask_is_followed_once_with_asking() {
    let mut cluster = cluster();
    let k = key_in_slot(7000, "k");
    let command = cmd("GET").arg(k.clone());
    let (batches, _) = cluster.write_batch(&vec![command.duplicate()], vec![None], &vec![]);
    assert_eq!(targets(&batches[0]), vec![(2, 0, false)]);
    let reply = cluster.read(vec![Some(Ok(ask(7000, "10.0.0.3", 6379)))]);
    let reasons = match reply {
        Some(Err(Error::Retry(reasons))) => reasons.to_vec(),
        other => panic!("no retry: {:?}", other),
    };
    assert!(!must_reconnect(&reasons));
    let (batches, error) = cluster.write_batch(&vec![command.duplicate()], vec![None], &reasons);
    assert_eq!(error, None);
    assert_eq!(targets(&batches[0]), vec![(0, 0, true)]);
    assert_eq!(batches[0][0].command, command);
    assert_eq!(cluster.next_reads(), Some(vec![(0, 0)]));
    assert_eq!(cluster.read(vec![Some(Ok(bulk("value")))]), Some(Ok(bulk("value"))));
    let (batches, _) = cluster.write_batch(&vec![command], vec![None], &vec![]);
    assert_eq!(targets(&batches[0]), vec![(2, 0, false)]);
}

#[test]
fn ask_to_an_unknown_address_is_refused() {
    let mut cluster = cluster();
    let k = key_in_slot(7000, "k");
    let reasons = vec![RetryReason::Ask { hash_slot: 7000, address: (b"1.2.3.4".to_vec(), 1) }];
    let (batches, error) =
        cluster.write_batch(&vec![cmd("PING"), cmd("GET").arg(k), cmd("PING")], vec![None, None, None], &reasons);
    assert_eq!(batches.len(), 1);
    assert_eq!(error, Some(Error::ClusterMisconfiguration));
    assert_eq!(cluster.pending.len(), 1);
}

#[test]
fn a_closed_connection_ends_the_read() {
    let mut cluster = cluster();
    cluster.write_batch(&vec![cmd("DBSIZE")], vec![None], &vec![]);
    let reply = cluster.read(vec![Some(Ok(Value::Integer(1))), None, Some(Ok(moved(1, "h", 2)))]);
    assert_eq!(reply, None);
    assert_eq!(cluster.pending.len(), 0);
}

#[test]
fn keys_are_found_where_none_are_given() {
    let mut cluster = cluster();
    let (batches, error) = cluster.write_batch(&vec![cmd("GET").arg("foo"), cmd("GET").arg("bar")], vec![], &vec![]);
    assert_eq!(error, None);
    assert_eq!(targets(&batches[0]), vec![(0, 0, false)]);
    assert_eq!(targets(&batches[1]), vec![(1, 0, false)]);
}

#[test]
fn given_keys_take_the_place_of_the_catalog() {
    let mut cluster = cluster();
    let k = key_in_slot(3, "");
    let given = KeyList::from_vec(vec![k.clone()]);
    let (batches, error) = cluster.write_batch(&vec![cmd("GET").arg("foo")], vec![Some(given)], &vec![]);
    assert_eq!(error, None);
    assert_eq!(targets(&batches[0]), vec![(1, 0, false)]);
    assert_eq!(cluster.pending[0].keys.to_vec(), vec![k]);
}

#[test]
fn the_catalog_reads_the_reply_to_command() {
    let catalog = CommandInfoManager::initialize(&command_reply()).unwrap();
    assert_eq!(catalog.command_infos.len(), 12);
    let mget = catalog.get_command_info_by_name(b"mget").unwrap();
    assert_eq!(mget.arity, -2);
    assert_eq!(mget.key_specifications.len(), 1);
    assert!(catalog.get_command_info_by_name(b"MGET").is_none());
    assert_eq!(catalog.get_command_info(&cmd("MGET")).unwrap().name, b"mget".to_vec());
    assert_eq!(
        catalog.get_command_info(&cmd("SCRIPT").arg("Exists")).unwrap().name,
        b"script|exists".to_vec()
    );
    assert_eq!(catalog.get_command_info(&cmd("script").arg("load")).unwrap().name, b"script".to_vec());
    assert!(catalog.get_command_info(&cmd("nope")).is_none());
}
