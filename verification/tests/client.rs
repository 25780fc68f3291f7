use bytes::BytesMut;
use rustis::client::client::{Client, ClientPreparedCommand};
use rustis::client::pipeline::{
    filter_results, BatchPreparedCommand, Pipeline, PipelinePreparedCommand,
};
use rustis::client::prepared_command::prepare_command;
use rustis::client::transaction::Transaction;
use rustis::commands::bitmap_commands::{
    BitFieldGetSubCommand, BitFieldOverflow, BitFieldSubCommand, BitOperation, BitRange, BitUnit,
    BitmapCommands,
};
use rustis::commands::graph_commands::{
    graph_name, load_missing_ids, GraphCommands, GraphHeader, GraphQueryOptions,
    GraphQueryStatistics, GraphResultRow, GraphResultSet, GraphSlowlogResult,
};
use rustis::commands::server_management::ServerCommands;
use rustis::commands::server_options::{
    AclCatOptions, AclDryRunOptions, AclGenPassOptions, AclLogOptions, CommandListOptions,
    FailOverOptions, FlushingMode, InfoSection,
};
use rustis::error::{
    Error, ParseTarget, RedisError, RedisErrorKind, RetryReason, RetryReasons,
};
use rustis::network::multiplexer::{Delivery, Message, Multiplexer};
use rustis::network::retry::{after_failure, Verdict};
use rustis::network::server_end_point::{ConnectionType, ServerEndPoint};
use rustis::network::standalone_connection::{
    is_ready, on_event, post_connect, to_answer, write_batch, Config, ConnectionEvent,
    ConnectionState, StandaloneConnection,
};
use rustis::resp::value_decoder::ValueDecoder;
use rustis::resp::command::{cmd, CommandArgs};
use rustis::resp::value::Value;

fn bulk(text: &str) -> Value {
    Value::BulkString(Some(text.as_bytes().to_vec()))
}

fn simple(text: &str) -> Value {
    Value::SimpleString(text.as_bytes().to_vec())
}

fn array(items: Vec<Value>) -> Value {
    Value::Array(Some(items))
}

fn server_error(text: &str) -> Value {
    Value::Error(RedisError { kind: RedisErrorKind::Generic, description: text.as_bytes().to_vec() })
}

fn args(words: &[&str]) -> Vec<Vec<u8>> {
    words.iter().map(|w| w.as_bytes().to_vec()).collect()
}

#[test]
fn set_then_get_on_one_connection() {
    let mut client = Client::connect(0, false);
    let set = client.send(cmd("SET").arg("foo").arg("bar"));
    let get = client.send(cmd("GET").arg("foo"));
    assert_eq!((set, get), (0, 1));
    let batch = client.multiplexer.next_batch();
    assert_eq!(batch, vec![cmd("SET").arg("foo").arg("bar"), cmd("GET").arg("foo")]);
    let mut wire = BytesMut::new();
    write_batch(&batch, &mut wire);
    assert_eq!(
        &wire[..],
        &b"*3\r\n$3\r\nSET\r\n$3\r\nfoo\r\n$3\r\nbar\r\n*2\r\n$3\r\nGET\r\n$3\r\nfoo\r\n"[..]
    );
    let mut incoming = BytesMut::from(&b"+OK\r\n$3\r\nbar\r\n"[..]);
    let (values, fault) = ValueDecoder.drain(&mut incoming);
    assert_eq!(fault, None);
    let mut deliveries = Vec::new();
    for value in values {
        deliveries.push(client.multiplexer.on_value(value));
    }
    assert_eq!(
        deliveries,
        vec![
            Delivery::Reply { ticket: 0, value: simple("OK") },
            Delivery::Reply { ticket: 1, value: bulk("bar") },
        ]
    );
    assert_eq!(client.multiplexer.on_value(simple("late")), Delivery::Unexpected(simple("late")));
}

#[test]
fn replies_go_out_in_the_order_of_submission() {
    let mut mux = Multiplexer::new(2);
    for ticket in 0..5u64 {
        mux.submit(Message {
            command: cmd("ECHO").arg(ticket),
            ticket: Some(ticket),
            retry_on_error: false,
        });
    }
    let mut wire = Vec::new();
    let first = mux.next_batch();
    assert_eq!(first.len(), 2);
    wire.extend(first);
    assert_eq!(mux.on_value(simple("r0")), Delivery::Reply { ticket: 0, value: simple("r0") });
    mux.submit(Message { command: cmd("ECHO").arg(5u64), ticket: Some(5), retry_on_error: false });
    wire.extend(mux.next_batch());
    wire.extend(mux.next_batch());
    wire.extend(mux.next_batch());
    assert_eq!(wire, (0..6u64).map(|t| cmd("ECHO").arg(t)).collect::<Vec<_>>());
    for ticket in 1..6u64 {
        let value = Value::Integer(ticket as i64);
        assert_eq!(mux.on_value(value), Delivery::Reply { ticket, value: Value::Integer(ticket as i64) });
    }
    assert!(mux.next_batch().is_empty());
}

#[test]
fn push_frames_do_not_take_a_place_in_the_queue() {
    let mut mux = Multiplexer::new(0);
    mux.submit(Message { command: cmd("GET").arg("a"), ticket: Some(9), retry_on_error: true });
    mux.next_batch();
    let push = Value::Push(vec![simple("message")]);
    assert_eq!(mux.on_value(Value::Push(vec![simple("message")])), Delivery::Push(push));
    assert_eq!(mux.on_value(bulk("1")), Delivery::Reply { ticket: 9, value: bulk("1") });
}

#[test]
fn a_disconnect_hands_back_what_waited() {
    let mut mux = Multiplexer::new(3);
    let message = |name: &str, ticket: u64, retry_on_error: bool| Message {
        command: cmd(name),
        ticket: Some(ticket),
        retry_on_error,
    };
    mux.submit(message("A", 1, true));
    mux.submit(message("B", 2, false));
    mux.submit(message("C", 3, true));
    mux.submit(message("D", 4, false));
    assert_eq!(mux.next_batch().len(), 3);
    let failed = mux.on_disconnect();
    assert_eq!(failed, vec![message("B", 2, false)]);
    assert!(mux.in_flight.is_empty());
    assert_eq!(mux.queued, vec![message("A", 1, true), message("C", 3, true), message("D", 4, false)]);
    assert!(mux.on_disconnect().is_empty());
    assert_eq!(mux.next_batch(), vec![cmd("A"), cmd("C"), cmd("D")]);
}

#[test]
fn forgotten_replies_are_taken_off_the_queue() {
    let mut client = Client::connect(0, true);
    assert_eq!(client.send_and_forget(cmd("SET").arg("a").arg("1")), Ok(()));
    let ticket = client.send(cmd("GET").arg("a"));
    client.multiplexer.next_batch();
    assert_eq!(client.multiplexer.on_value(simple("OK")), Delivery::Discarded);
    assert_eq!(client.multiplexer.on_value(bulk("1")), Delivery::Reply { ticket, value: bulk("1") });
    let prepared = prepare_command(&mut client, cmd("DEL").arg("a"));
    assert_eq!(prepared.forget(), Ok(()));
    assert_eq!(client.multiplexer.queued.len(), 1);
    assert_eq!(client.multiplexer.queued[0].ticket, None);
    assert!(client.multiplexer.queued[0].retry_on_error);
}

#[test]
fn pipeline_keeps_what_is_not_forgotten() {
    let mut client = Client::connect(0, false);
    let mut pipeline = client.create_pipeline();
    pipeline.forget(cmd("SET").arg("a").arg("1"));
    pipeline.forget(cmd("SET").arg("b").arg("2"));
    pipeline.queue(cmd("GET").arg("a"));
    pipeline.queue(cmd("GET").arg("b"));
    pipeline.retry_on_error(true);
    assert_eq!(pipeline.commands.len(), 4);
    assert_eq!(pipeline.forget_flags, vec![true, true, false, false]);
    assert_eq!(pipeline.retry_on_error, Some(true));
    let replies = vec![simple("OK"), simple("OK"), bulk("1"), bulk("2")];
    assert_eq!(pipeline.execute(replies), Ok(array(vec![bulk("1"), bulk("2")])));
}

#[test]
fn pipeline_with_one_reply_kept() {
    let mut pipeline = Pipeline::new();
    pipeline.forget(cmd("SET").arg("a").arg("1"));
    pipeline.queue(cmd("GET").arg("a"));
    assert_eq!(pipeline.execute(vec![simple("OK"), bulk("1")]), Ok(bulk("1")));
    let mut pipeline = Pipeline::new();
    pipeline.forget(cmd("SET").arg("a").arg("1"));
    pipeline.queue(cmd("GET").arg("a"));
    assert_eq!(
        pipeline.execute(vec![simple("OK"), server_error("boom")]),
        Err(Error::Redis(RedisError { kind: RedisErrorKind::Generic, description: b"boom".to_vec() }))
    );
    let mut pipeline = Pipeline::new();
    pipeline.queue(cmd("GET").arg("a"));
    assert_eq!(pipeline.execute(vec![bulk("1")]), Ok(bulk("1")));
    let mut pipeline = Pipeline::new();
    pipeline.forget(cmd("A"));
    pipeline.forget(cmd("B"));
    assert_eq!(pipeline.execute(vec![simple("OK"), simple("OK")]), Ok(array(vec![])));
    assert_eq!(Pipeline::new().execute(vec![]), Err(Error::UnexpectedReply));
}

#[test]
fn results_without_flag_are_dropped() {
    let flags = vec![false, true, false];
    let results = vec![bulk("a"), bulk("b"), bulk("c"), bulk("d")];
    assert_eq!(filter_results(&results, &flags, 0), vec![bulk("a"), bulk("c")]);
    assert_eq!(filter_results(&results, &flags, 1), vec![bulk("b")]);
    assert_eq!(filter_results(&results, &flags, 3), Vec::<Value>::new());
}

#[test]
fn prepared_commands_are_queued() {
    let mut pipeline = Pipeline::new();
    pipeline.getbit("k", 7).queue();
    pipeline.setbit("k", 7, 1).forget();
    pipeline.bitcount("k", BitRange::range(0, -1).unit(BitUnit::Bit)).queue();
    assert_eq!(
        pipeline.commands,
        vec![
            cmd("GETBIT").arg("k").arg("7"),
            cmd("SETBIT").arg("k").arg("7").arg("1"),
            cmd("BITCOUNT").arg("k").arg("0").arg("-1").arg("BIT"),
        ]
    );
    assert_eq!(pipeline.forget_flags, vec![false, true, false]);
    let mut transaction = Transaction::new();
    transaction.bitpos("k", 1, BitRange::default()).queue();
    transaction.bitop(BitOperation::Xor, "d", vec!["a", "b"]).forget();
    assert_eq!(
        transaction.commands,
        vec![cmd("MULTI"), cmd("BITPOS").arg("k").arg("1"), cmd("BITOP").arg("XOR").arg("d").arg("a").arg("b")]
    );
    assert_eq!(transaction.forget_flags, vec![false, false, true]);
}

#[test]
fn transaction_wraps_its_commands() {
    let mut client = Client::connect(0, false);
    let mut transaction = client.create_transaction();
    transaction.queue(cmd("SET").arg("a").arg("1"));
    transaction.forget(cmd("INCR").arg("a"));
    transaction.queue(cmd("GET").arg("a"));
    assert_eq!(
        transaction.batch(),
        vec![
            cmd("MULTI"),
            cmd("SET").arg("a").arg("1"),
            cmd("INCR").arg("a"),
            cmd("GET").arg("a"),
            cmd("EXEC"),
        ]
    );
    let replies = vec![
        simple("OK"),
        simple("QUEUED"),
        simple("QUEUED"),
        simple("QUEUED"),
        array(vec![simple("OK"), Value::Integer(2), bulk("2")]),
    ];
    assert_eq!(transaction.execute(replies), Ok(array(vec![simple("OK"), bulk("2")])));
}

#[test]
fn transaction_outcomes() {
    let queued = |n: usize| {
        let mut t = Transaction::new();
        for _ in 0..n {
            t.queue(cmd("PING"));
        }
        t
    };
    assert_eq!(
        queued(1).execute(vec![simple("OK"), simple("QUEUED"), array(vec![simple("PONG")])]),
        Ok(simple("PONG"))
    );
    assert_eq!(
        queued(1).execute(vec![simple("OK"), simple("QUEUED"), Value::Array(None)]),
        Err(Error::Aborted)
    );
    assert_eq!(
        queued(1).execute(vec![simple("OK"), simple("QUEUED"), Value::BulkString(None)]),
        Err(Error::Aborted)
    );
    assert_eq!(
        queued(1).execute(vec![simple("OK"), simple("QUEUED"), simple("what")]),
        Err(Error::UnexpectedReply)
    );
    assert_eq!(queued(1).execute(vec![simple("OK"), simple("QUEUED")]), Err(Error::UnexpectedReply));
    assert_eq!(
        queued(2).execute(vec![simple("OK"), server_error("first"), server_error("second"), Value::Array(None)]),
        Err(Error::Redis(RedisError { kind: RedisErrorKind::Generic, description: b"first".to_vec() }))
    );
    assert_eq!(
        queued(1).execute(vec![simple("OK"), simple("QUEUED"), array(vec![server_error("in")])]),
        Err(Error::Redis(RedisError { kind: RedisErrorKind::Generic, description: b"in".to_vec() }))
    );
}

#[test]
fn bitmap_options() {
    assert_eq!(BitRange::range(0, -1).command_args.args, args(&["0", "-1"]));
    assert_eq!(BitRange::range(-5, 9).unit(BitUnit::Byte).command_args.args, args(&["-5", "9", "BYTE"]));
    assert_eq!(BitRange::default().command_args.args, args(&[]));
    let get = BitFieldSubCommand::get("u8", "#0");
    assert_eq!(CommandArgs::new().arg(get).args, args(&["GET", "u8", "#0"]));
    let set = BitFieldSubCommand::set("i5", "100", 9);
    assert_eq!(CommandArgs::new().arg(set).args, args(&["SET", "i5", "100", "9"]));
    let incr = BitFieldSubCommand::incr_by("u2", "102", -1);
    assert_eq!(CommandArgs::new().arg(incr).args, args(&["INCRBY", "u2", "102", "-1"]));
    let overflow: BitFieldSubCommand = BitFieldSubCommand::overflow(BitFieldOverflow::Sat);
    assert_eq!(CommandArgs::new().arg(overflow).args, args(&["OVERFLOW", "SAT"]));
    let wrap: BitFieldSubCommand = BitFieldSubCommand::overflow(BitFieldOverflow::Wrap);
    let fail: BitFieldSubCommand = BitFieldSubCommand::overflow(BitFieldOverflow::Fail);
    assert_eq!(CommandArgs::new().arg(wrap).arg(fail).args, args(&["OVERFLOW", "WRAP", "OVERFLOW", "FAIL"]));
    assert_eq!(
        CommandArgs::new().arg(BitFieldGetSubCommand::new("u4", "0")).args,
        args(&["GET", "u4", "0"])
    );
    let mut pipeline = Pipeline::new();
    pipeline
        .bitfield("k", vec![BitFieldSubCommand::incr_by("u2", "100", 1), BitFieldSubCommand::get("u4", "0")])
        .queue();
    pipeline.bitfield_readonly("k", vec![BitFieldGetSubCommand::new("u4", "0")]).queue();
    assert_eq!(
        pipeline.commands[0],
        cmd("BITFIELD").arg("k").arg("INCRBY").arg("u2").arg("100").arg("1").arg("GET").arg("u4").arg("0")
    );
    assert_eq!(pipeline.commands[1], cmd("BITFIELD_RO").arg("k").arg("GET").arg("u4").arg("0"));
    assert_eq!(
        CommandArgs::new()
            .arg(BitOperation::And)
            .arg(BitOperation::Or)
            .arg(BitOperation::Not)
            .arg(BitOperation::Xor)
            .args,
        args(&["AND", "OR", "NOT", "XOR"])
    );
}

#[test]
fn server_options() {
    assert_eq!(AclCatOptions::default().category_name("dangerous").command_args.args, args(&["dangerous"]));
    assert_eq!(
        AclDryRunOptions::default().arg("key").arg(vec!["a", "b"]).command_args.args,
        args(&["key", "a", "b"])
    );
    assert_eq!(AclGenPassOptions::default().bits(128).command_args.args, args(&["128"]));
    assert_eq!(AclLogOptions::default().count(3).command_args.args, args(&["3"]));
    assert_eq!(AclLogOptions::default().reset().command_args.args, args(&["RESET"]));
    assert_eq!(
        CommandListOptions::default().filter_by_module_name("json").command_args.args,
        args(&["FILTERBY", "MODULE", "json"])
    );
    assert_eq!(
        CommandListOptions::default().filter_by_acl_category("read").command_args.args,
        args(&["FILTERBY", "ACLCAT", "read"])
    );
    assert_eq!(
        CommandListOptions::default().filter_by_pattern("x*").command_args.args,
        args(&["FILTERBY", "PATTERN", "x*"])
    );
    assert_eq!(
        FailOverOptions::default().to("10.0.0.9", 6380).timeout(500).force().command_args.args,
        args(&["TO", "10.0.0.9", "6380", "TIMEOUT", "500", "FORCE"])
    );
    assert_eq!(FailOverOptions::default().abort().command_args.args, args(&["ABORT"]));
    assert_eq!(GraphQueryOptions::timeout(1500).command_args.args, args(&["TIMEOUT", "1500"]));
    assert_eq!(
        cmd("FLUSHDB").arg(FlushingMode::default()).arg(FlushingMode::Async).arg(FlushingMode::Sync),
        cmd("FLUSHDB").arg("ASYNC").arg("SYNC")
    );
    assert_eq!(
        cmd("INFO").arg(InfoSection::Keyspace).arg(InfoSection::Everything).arg(InfoSection::Cpu),
        cmd("INFO").arg("keyspace").arg("everything").arg("cpu")
    );
}

#[test]
fn arguments_of_many_types() {
    let command = cmd("X")
        .arg("text")
        .arg(b"bytes".to_vec())
        .arg(&b"slice"[..])
        .arg(-12i64)
        .arg(u64::MAX)
        .arg(7usize)
        .arg(-7isize)
        .arg(65535u16)
        .arg(CommandArgs::new().arg("in").arg("side"));
    assert_eq!(
        command.args.args,
        args(&["text", "bytes", "slice", "-12", "18446744073709551615", "7", "-7", "65535", "in", "side"])
    );
    assert_eq!(command.name, b"X".to_vec());
    assert_eq!(command.duplicate(), command);
    assert_eq!(command.args.len(), 10);
    assert_eq!(command.args.get(3), &b"-12".to_vec());
}

#[test]
fn subscriptions_go_over_their_own_connection() {
    let mut end_point = ServerEndPoint::connect("127.0.0.1:6379".to_string(), 0);
    assert_eq!(end_point.get_addr(), "127.0.0.1:6379");
    assert_eq!(end_point.get_connection(&cmd("SUBSCRIBE").arg("c")), ConnectionType::PubSub);
    assert_eq!(end_point.get_connection(&cmd("UNSUBSCRIBE")), ConnectionType::PubSub);
    assert_eq!(end_point.get_connection(&cmd("PSUBSCRIBE").arg("c*")), ConnectionType::PubSub);
    assert_eq!(end_point.get_connection(&cmd("PUNSUBSCRIBE")), ConnectionType::PubSub);
    assert_eq!(end_point.get_connection(&cmd("subscribe")), ConnectionType::Interactive);
    assert_eq!(end_point.get_connection(&cmd("GET").arg("SUBSCRIBE")), ConnectionType::Interactive);
    let message = |c| Message { command: c, ticket: Some(1), retry_on_error: false };
    assert_eq!(end_point.send(message(cmd("SUBSCRIBE").arg("c"))), Ok(()));
    assert_eq!(end_point.send(message(cmd("GET").arg("k"))), Ok(()));
    assert_eq!(end_point.send(message(cmd("SET").arg("k").arg("v"))), Ok(()));
    assert_eq!(end_point.pubsub.queued.len(), 1);
    assert_eq!(end_point.interactive.queued.len(), 2);
}

#[test]
fn commands_that_open_a_connection() {
    let mut config = Config {
        username: None,
        password: None,
        database: 0,
        connection_name: vec![],
        retry_on_error: false,
        max_command_attempts: 3,
    };
    assert_eq!(post_connect(&config), vec![cmd("HELLO").arg("3")]);
    config.password = Some(b"secret".to_vec());
    config.database = 4;
    assert_eq!(
        post_connect(&config),
        vec![cmd("HELLO").arg("3").arg("AUTH").arg("default").arg("secret"), cmd("SELECT").arg("4")]
    );
    config.username = Some(b"me".to_vec());
    config.connection_name = b"conn".to_vec();
    config.database = 0;
    assert_eq!(
        post_connect(&config),
        vec![cmd("HELLO").arg("3").arg("AUTH").arg("me").arg("secret").arg("SETNAME").arg("conn")]
    );
    config.password = None;
    assert_eq!(post_connect(&config), vec![cmd("HELLO").arg("3").arg("SETNAME").arg("conn")]);
}

#[test]
fn a_batch_replaces_what_the_buffer_held() {
    let mut buffer = BytesMut::from(&b"old"[..]);
    write_batch(&vec![cmd("PING"), cmd("GET").arg("k")], &mut buffer);
    assert_eq!(&buffer[..], &b"*1\r\n$4\r\nPING\r\n*2\r\n$3\r\nGET\r\n$1\r\nk\r\n"[..]);
    write_batch(&vec![], &mut buffer);
    assert!(buffer.is_empty());
}

#[test]
fn states_of_a_connection() {
    let mut state = ConnectionState::Connecting;
    for (event, expected) in [
        (ConnectionEvent::HandshakeDone, ConnectionState::Connecting),
        (ConnectionEvent::Connected, ConnectionState::Handshaking),
        (ConnectionEvent::HandshakeDone, ConnectionState::Ready),
        (ConnectionEvent::Connected, ConnectionState::Ready),
        (ConnectionEvent::Failed, ConnectionState::Reconnecting),
        (ConnectionEvent::Connected, ConnectionState::Reconnecting),
        (ConnectionEvent::ReconnectRequested, ConnectionState::Connecting),
        (ConnectionEvent::Failed, ConnectionState::Reconnecting),
        (ConnectionEvent::Close, ConnectionState::Closed),
        (ConnectionEvent::ReconnectRequested, ConnectionState::Closed),
        (ConnectionEvent::Failed, ConnectionState::Closed),
    ] {
        state = on_event(state, event);
        assert_eq!(state, expected);
    }
    assert!(is_ready(ConnectionState::Ready));
    assert!(!is_ready(ConnectionState::Handshaking));
    for open in [
        ConnectionState::Connecting,
        ConnectionState::Handshaking,
        ConnectionState::Ready,
        ConnectionState::Reconnecting,
    ] {
        assert_eq!(
            on_event(open, ConnectionEvent::ReconnectRequested),
            ConnectionState::Connecting
        );
    }
}

#[test]
fn a_connection_is_opened_written_to_and_read_from() {
    let config = Config { database: 2, ..Config::default() };
    let (mut connection, opening) = StandaloneConnection::connect(config);
    assert_eq!(opening, vec![cmd("HELLO").arg("3"), cmd("SELECT").arg("2")]);
    assert_eq!(connection.state, ConnectionState::Handshaking);
    assert!(!connection.is_ready());
    connection.on_event(ConnectionEvent::HandshakeDone);
    assert!(connection.is_ready());

    let mut out = BytesMut::new();
    connection.write(&cmd("PING"), &mut out);
    connection.write(&cmd("GET").arg("k"), &mut out);
    assert_eq!(&out[..], &b"*1\r\n$4\r\nPING\r\n*2\r\n$3\r\nGET\r\n$1\r\nk\r\n"[..]);
    connection.write_batch(&vec![cmd("PING")], &mut out);
    assert_eq!(&out[..], &b"*1\r\n$4\r\nPING\r\n"[..]);

    let mut received = BytesMut::from(&b"+PONG\r\n$1\r\nv"[..]);
    assert_eq!(connection.read(&mut received), Some(Ok(simple("PONG"))));
    assert_eq!(connection.read(&mut received), None);
    assert_eq!(&received[..], &b"$1\r\nv"[..]);
    assert!(connection.is_ready());
    received.extend_from_slice(b"\r\n");
    assert_eq!(connection.read(&mut received), Some(Ok(bulk("v"))));
    assert!(received.is_empty());
}

#[test]
fn malformed_bytes_fail_the_connection() {
    let (mut connection, _) = StandaloneConnection::connect(Config::default());
    connection.on_event(ConnectionEvent::HandshakeDone);
    let mut received = BytesMut::from(&b"?what\r\n"[..]);
    assert!(matches!(connection.read(&mut received), Some(Err(Error::Protocol(_)))));
    assert_eq!(connection.state, ConnectionState::Reconnecting);
    assert_eq!(connection.reconnect(), vec![cmd("HELLO").arg("3")]);
    assert_eq!(connection.state, ConnectionState::Handshaking);
}

#[test]
fn a_closed_connection_is_not_opened_again() {
    let (mut connection, _) = StandaloneConnection::connect(Config::default());
    connection.on_event(ConnectionEvent::Close);
    assert_eq!(connection.reconnect(), vec![]);
    assert_eq!(connection.state, ConnectionState::Closed);
}

#[test]
fn a_ready_connection_can_be_opened_anew() {
    let password = Some(b"secret".to_vec());
    let (mut connection, opening) =
        StandaloneConnection::connect(Config { password, ..Config::default() });
    connection.on_event(ConnectionEvent::HandshakeDone);
    assert_eq!(connection.reconnect(), opening);
    assert_eq!(opening, vec![cmd("HELLO").arg("3").arg("AUTH").arg("default").arg("secret")]);
    assert_eq!(connection.state, ConnectionState::Handshaking);
}

#[test]
fn a_failed_request_is_sent_again_within_the_budget() {
    let moved = || {
        RetryReasons::from_vec(&vec![RetryReason::Moved {
            hash_slot: 1,
            address: (b"h".to_vec(), 2),
        }])
    };
    assert_eq!(after_failure(Error::Retry(moved()), 1, 3, false), Verdict::Retry(moved()));
    assert_eq!(after_failure(Error::Retry(moved()), 2, 3, false), Verdict::Retry(moved()));
    assert_eq!(
        after_failure(Error::Retry(moved()), 3, 3, true),
        Verdict::Exhausted(Error::Retry(moved()))
    );
    assert_eq!(after_failure(Error::Disconnected, 1, 3, true), Verdict::Retry(RetryReasons::new()));
    assert_eq!(after_failure(Error::Disconnected, 1, 3, false), Verdict::Surface(Error::Disconnected));
    assert_eq!(after_failure(Error::Disconnected, 3, 3, true), Verdict::Exhausted(Error::Disconnected));
    assert_eq!(after_failure(Error::Aborted, 0, 3, true), Verdict::Surface(Error::Aborted));
    assert_eq!(
        after_failure(Error::CrossSlot(b"get".to_vec()), 0, 3, true),
        Verdict::Surface(Error::CrossSlot(b"get".to_vec()))
    );
}

#[test]
fn header_of_a_graph_result() {
    let column = |t: i64, name: &str| array(vec![Value::Integer(t), bulk(name)]);
    assert_eq!(
        GraphHeader::from_value(array(vec![column(1, "a.name"), column(1, "b")])),
        Ok(GraphHeader { column_names: vec![b"a.name".to_vec(), b"b".to_vec()] })
    );
    assert_eq!(GraphHeader::from_value(array(vec![])), Ok(GraphHeader::default()));
    assert!(GraphHeader::from_value(array(vec![array(vec![bulk("x")])])).is_err());
    assert!(GraphHeader::from_value(array(vec![column(-1, "a")])).is_err());
}

fn queue_all<C: PipelinePreparedCommand>(commands: Vec<C>) {
    for command in commands {
        command.queue();
    }
}

#[test]
fn server_commands_are_prepared() {
    let mut pipeline = Pipeline::new();
    pipeline.dbsize().queue();
    pipeline.acl_cat(AclCatOptions::default().category_name("read")).queue();
    pipeline.acl_dryrun("user", "GET", AclDryRunOptions::default().arg("key")).queue();
    pipeline.acl_setuser("user", vec!["on", ">pwd"]).forget();
    pipeline.command_getkeys(vec!["MSET", "a", "1"]).queue();
    pipeline.command_docs(vec!["get", "set"]).queue();
    pipeline.config_set(vec!["maxmemory", "1gb"]).forget();
    pipeline.failover(FailOverOptions::default().abort()).queue();
    pipeline.flushall(FlushingMode::Sync).queue();
    pipeline.info(vec![InfoSection::Server, InfoSection::Clients]).queue();
    pipeline.time().queue();
    assert_eq!(
        pipeline.commands,
        vec![
            cmd("DBSIZE"),
            cmd("ACL").arg("CAT").arg("read"),
            cmd("ACL").arg("DRYRUN").arg("user").arg("GET").arg("key"),
            cmd("ACL").arg("SETUSER").arg("user").arg("on").arg(">pwd"),
            cmd("COMMAND").arg("GETKEYS").arg("MSET").arg("a").arg("1"),
            cmd("COMMAND").arg("DOCS").arg("get").arg("set"),
            cmd("CONFIG").arg("SET").arg("maxmemory").arg("1gb"),
            cmd("FAILOVER").arg("ABORT"),
            cmd("FLUSHALL").arg("SYNC"),
            cmd("INFO").arg("server").arg("clients"),
            cmd("TIME"),
        ]
    );
    let mut client = Client::connect(0, false);
    assert_eq!(client.lastsave().forget(), Ok(()));
    assert_eq!(client.multiplexer.queued[0].command, cmd("LASTSAVE"));
    let mut transaction = Transaction::new();
    let names = ["a", "b"];
    for name in names {
        queue_all(vec![prepare_command(&mut transaction, cmd("GET").arg(name))]);
    }
    assert_eq!(transaction.commands.len(), 3);
}

#[test]
fn a_batch_is_submitted_in_a_row() {
    let mut client = Client::connect(2, false);
    let first = client.send(cmd("PING"));
    let batch = client.send_batch(vec![cmd("A"), cmd("B"), cmd("C")], Some(true));
    let last = client.send(cmd("PONG"));
    assert_eq!((first, batch, last), (0, 1, 4));
    let tickets: Vec<_> = client.multiplexer.queued.iter().map(|m| (m.ticket, m.retry_on_error)).collect();
    assert_eq!(
        tickets,
        vec![(Some(0), false), (Some(1), true), (Some(2), true), (Some(3), true), (Some(4), false)]
    );
    assert_eq!(client.multiplexer.next_batch(), vec![cmd("PING"), cmd("A")]);
    assert_eq!(client.multiplexer.next_batch(), vec![cmd("B"), cmd("C")]);
    assert_eq!(client.send_batch(vec![], None), 5);
    assert_eq!(client.next_ticket, 5);
}

#[test]
fn statistics_of_a_graph_query() {
    let reply = array(vec![
        bulk("Labels added: 1"),
        bulk("Nodes created: 2"),
        bulk("Properties set: +4"),
        bulk("Cached execution: 1"),
        bulk("Query internal execution time: 0.538292 milliseconds"),
        bulk("Triggers fired: 3"),
    ]);
    let statistics = GraphQueryStatistics::from_value(reply).unwrap();
    assert_eq!(statistics.labels_added, 1);
    assert_eq!(statistics.labels_removed, 0);
    assert_eq!(statistics.nodes_created, 2);
    assert_eq!(statistics.nodes_deleted, 0);
    assert_eq!(statistics.properties_set, 4);
    assert_eq!(statistics.indices_deleted, 0);
    assert!(statistics.cached_execution);
    assert_eq!(statistics.query_internal_execution_time, b"0.538292".to_vec());
    assert_eq!(
        statistics.additional_statistics,
        vec![(b"Triggers fired".to_vec(), b"3".to_vec())]
    );
}

#[test]
fn statistics_without_entries_are_zero() {
    let statistics = GraphQueryStatistics::from_value(array(vec![])).unwrap();
    assert_eq!(statistics.nodes_created, 0);
    assert!(!statistics.cached_execution);
    assert_eq!(statistics.query_internal_execution_time, b"0".to_vec());
    assert!(statistics.additional_statistics.is_empty());
}

#[test]
fn the_last_statistic_of_a_name_counts() {
    let reply = array(vec![bulk("Nodes created: 2"), bulk("Nodes created: 7")]);
    assert_eq!(GraphQueryStatistics::from_value(reply).unwrap().nodes_created, 7);
    let largest = array(vec![bulk("Nodes created: 18446744073709551615")]);
    assert_eq!(
        GraphQueryStatistics::from_value(largest).map(|s| s.nodes_created as u64),
        Ok(u64::MAX)
    );
}

#[test]
fn statistics_of_another_shape_are_refused() {
    let refused = |reply: Value| {
        assert_eq!(
            GraphQueryStatistics::from_value(reply),
            Err(Error::Parse(ParseTarget::GraphQueryStatistics))
        );
    };
    refused(array(vec![simple("Nodes created: 2")]));
    refused(array(vec![bulk("Nodes created 2")]));
    refused(array(vec![bulk("Nodes created:2")]));
    refused(array(vec![bulk("Nodes created: two")]));
    refused(array(vec![bulk("Nodes created: -0")]));
    refused(array(vec![bulk("Nodes created: 18446744073709551616")]));
    refused(array(vec![bulk("Cached execution: 256")]));
    refused(array(vec![bulk("Query internal execution time: 0.5")]));
    assert!(GraphQueryStatistics::from_value(Value::Integer(1)).is_err());
}

#[test]
fn entry_of_the_graph_slow_log() {
    let reply = array(vec![
        Value::Integer(1581932396),
        bulk("GRAPH.QUERY"),
        bulk("MATCH (a) RETURN a"),
        bulk("0.831"),
    ]);
    assert_eq!(
        GraphSlowlogResult::from_value(reply),
        Ok(GraphSlowlogResult {
            processing_time: 1581932396,
            issued_command: b"GRAPH.QUERY".to_vec(),
            issued_query: b"MATCH (a) RETURN a".to_vec(),
            execution_duration: b"0.831".to_vec(),
        })
    );
    assert!(GraphSlowlogResult::from_value(array(vec![Value::Integer(1), bulk("a")])).is_err());
    assert!(GraphSlowlogResult::from_value(array(vec![
        Value::Integer(-1),
        bulk("a"),
        bulk("b"),
        bulk("1")
    ]))
    .is_err());
}

#[test]
fn graph_commands_are_prepared() {
    let mut pipeline = Pipeline::new();
    pipeline.graph_config_get("TIMEOUT").queue();
    pipeline.graph_config_set("TIMEOUT", 1000u64).queue();
    pipeline.graph_delete("g").queue();
    pipeline.graph_explain("g", "MATCH (a) RETURN a").queue();
    pipeline.graph_list().queue();
    pipeline.graph_profile("g", "q", GraphQueryOptions::default()).queue();
    pipeline.graph_query("g", "q", GraphQueryOptions::timeout(10)).queue();
    pipeline.graph_ro_query("g", "q", GraphQueryOptions::default()).queue();
    pipeline.graph_slowlog("g").queue();
    assert_eq!(
        pipeline.commands,
        vec![
            cmd("GRAPH.CONFIG").arg("GET").arg("TIMEOUT"),
            cmd("GRAPH.CONFIG").arg("SET").arg("TIMEOUT").arg("1000"),
            cmd("GRAPH.DELETE").arg("g"),
            cmd("GRAPH.EXPLAIN").arg("g").arg("MATCH (a) RETURN a"),
            cmd("GRAPH.LIST"),
            cmd("GRAPH.LIST").arg("g").arg("q"),
            cmd("GRAPH.QUERY").arg("g").arg("q").arg("TIMEOUT").arg("10").arg("--compact"),
            cmd("GRAPH.RO_QUERY").arg("g").arg("q").arg("--compact"),
            cmd("GRAPH.SLOWLOG").arg("g"),
        ]
    );
}

#[test]
fn result_set_with_rows() {
    let column = |name: &str| array(vec![Value::Integer(1), bulk(name)]);
    let reply = array(vec![
        array(vec![column("label")]),
        array(vec![array(vec![bulk("person")]), array(vec![bulk("city")])]),
        array(vec![bulk("Cached execution: 0")]),
    ]);
    let set = GraphResultSet::from_value(reply).unwrap();
    assert_eq!(set.header, GraphHeader { column_names: vec![b"label".to_vec()] });
    assert_eq!(
        set.rows,
        vec![
            GraphResultRow { values: vec![bulk("person")] },
            GraphResultRow { values: vec![bulk("city")] },
        ]
    );
    assert!(!set.statistics.cached_execution);
    assert_eq!(set.last_texts(), Ok(vec![b"person".to_vec(), b"city".to_vec()]));
}

#[test]
fn result_set_of_statistics_alone() {
    let set = GraphResultSet::from_value(array(vec![array(vec![bulk("Nodes created: 1")])]))
        .unwrap();
    assert_eq!(set.header, GraphHeader::default());
    assert!(set.rows.is_empty());
    assert_eq!(set.statistics.nodes_created, 1);
    assert_eq!(set.last_texts(), Ok(vec![]));
}

#[test]
fn result_set_of_another_shape_is_refused() {
    let shape = Err(Error::Parse(ParseTarget::GraphResultSet));
    assert_eq!(GraphResultSet::from_value(array(vec![])), shape);
    assert_eq!(GraphResultSet::from_value(array(vec![array(vec![]), array(vec![])])), shape);
    assert_eq!(
        GraphResultSet::from_value(array(vec![array(vec![]), bulk("rows"), array(vec![])])),
        shape
    );
    assert_eq!(
        GraphResultSet::from_value(array(vec![
            array(vec![]),
            array(vec![]),
            array(vec![]),
            array(vec![])
        ])),
        shape
    );
    assert_eq!(
        GraphResultSet::from_value(array(vec![
            Value::Integer(1),
            array(vec![bulk("no row")]),
            array(vec![])
        ])),
        Err(Error::Parse(ParseTarget::GraphResultRow))
    );
    assert_eq!(
        GraphResultRow::from_value(bulk("no row")),
        Err(Error::Parse(ParseTarget::GraphResultRow))
    );
}

#[test]
fn a_row_without_values_has_no_last_text() {
    let reply = array(vec![array(vec![]), array(vec![array(vec![])]), array(vec![])]);
    let set = GraphResultSet::from_value(reply).unwrap();
    assert_eq!(set.last_texts(), Err(Error::Parse(ParseTarget::GraphResultRow)));
}

#[test]
fn name_of_the_graph_of_a_command() {
    assert_eq!(graph_name(&cmd("GRAPH.QUERY").arg("g").arg("q")), Ok(b"g".to_vec()));
    assert_eq!(graph_name(&cmd("GRAPH.LIST")), Err(Error::Parse(ParseTarget::GraphCommand)));
}

#[test]
fn queries_for_the_names_that_are_missing() {
    let pipeline = load_missing_ids(b"g", 0, 12, 3);
    assert_eq!(
        pipeline.commands,
        vec![
            cmd("GRAPH.QUERY")
                .arg("g")
                .arg("CALL db.labels() YIELD label RETURN label SKIP 0")
                .arg("--compact"),
            cmd("GRAPH.QUERY")
                .arg("g")
                .arg("CALL db.propertyKeys() YIELD propertyKey RETURN propertyKey SKIP 12")
                .arg("--compact"),
            cmd("GRAPH.QUERY")
                .arg("g")
                .arg(
                    "CALL db.relationshipTypes() YIELD relationshipType RETURN relationshipType SKIP 3"
                )
                .arg("--compact"),
        ]
    );
    assert_eq!(pipeline.forget_flags, vec![false, false, false]);
}

#[test]
fn what_the_sender_is_given_for_a_read() {
    let failure = RedisError { kind: RedisErrorKind::Generic, description: b"no".to_vec() };
    assert_eq!(to_answer(None), Err(Error::Disconnected));
    assert_eq!(to_answer(Some(Ok(bulk("v")))), Ok(bulk("v")));
    assert_eq!(to_answer(Some(Ok(Value::Error(failure.clone())))), Err(Error::Redis(failure)));
    assert_eq!(to_answer(Some(Err(Error::Aborted))), Err(Error::Aborted));
}

#[test]
fn reasons_for_a_retry_are_kept_in_order() {
    let ask = RetryReason::Ask { hash_slot: 1, address: (b"h".to_vec(), 2) };
    let moved = RetryReason::Moved { hash_slot: 3, address: (b"g".to_vec(), 4) };
    let mut reasons = RetryReasons::new();
    assert_eq!(reasons.len(), 0);
    reasons.push(ask.clone());
    reasons.push(moved.clone());
    assert_eq!(reasons.len(), 2);
    assert_eq!(reasons.at(0), &ask);
    assert_eq!(reasons.at(1), &moved);
    assert_eq!(reasons.to_vec(), vec![ask.clone(), moved.clone()]);
    assert_eq!(RetryReasons::from_vec(&vec![ask, moved]), reasons);
    assert_eq!(reasons.duplicate(), reasons);
    assert_eq!(Error::Retry(reasons.duplicate()).duplicate(), Error::Retry(reasons));
}
