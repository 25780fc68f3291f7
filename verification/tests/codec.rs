use bytes::BytesMut;
use rustis::error::{Error, ProtocolFault, RedisError, RedisErrorKind};
use rustis::resp::buffer_decoder::{decode, is_error_line, next_crlf, size, BufferDecoder, Step};
use rustis::resp::value_decoder::{decode_value, parse_error, ValueDecoder};
use rustis::resp::command::cmd;
use rustis::resp::command_encoder::{encode_command, CommandEncoder};
use rustis::resp::decimal::{parse_i64, push_decimal, push_length};
use rustis::resp::value::Value;

fn bulk(text: &str) -> Value {
    Value::BulkString(Some(text.as_bytes().to_vec()))
}

fn whole(bytes: &[u8]) -> Value {
    match decode_value(bytes, 0) {
        Ok(Some((value, end))) => {
            assert_eq!(end, bytes.len());
            value
        }
        other => panic!("no whole frame: {:?}", other),
    }
}

#[test]
fn decode_simple_string() {
    assert_eq!(whole(b"+OK\r\n"), Value::SimpleString(b"OK".to_vec()));
}

#[test]
fn decode_integer() {
    assert_eq!(whole(b":1000\r\n"), Value::Integer(1000));
    assert_eq!(whole(b":-5\r\n"), Value::Integer(-5));
    assert_eq!(whole(b":+7\r\n"), Value::Integer(7));
    assert_eq!(whole(b":-9223372036854775808\r\n"), Value::Integer(i64::MIN));
    assert_eq!(whole(b":9223372036854775807\r\n"), Value::Integer(i64::MAX));
}

#[test]
fn decode_malformed_integer_is_fatal() {
    assert_eq!(decode_value(b":12a\r\n", 0), Err(Error::Protocol(ProtocolFault::MalformedInteger)));
    assert_eq!(decode_value(b":\r\n", 0), Err(Error::Protocol(ProtocolFault::MalformedInteger)));
    assert_eq!(
        decode_value(b":9223372036854775808\r\n", 0),
        Err(Error::Protocol(ProtocolFault::MalformedInteger))
    );
}

#[test]
fn decode_double_keeps_text() {
    assert_eq!(whole(b",3.25\r\n"), Value::Double(b"3.25".to_vec()));
    assert_eq!(whole(b",inf\r\n"), Value::Double(b"inf".to_vec()));
    assert_eq!(whole(b",nan\r\n"), Value::Double(b"nan".to_vec()));
    let value = whole(b",3.25\r\n");
    if let Value::Double(text) = value {
        let number: f64 = std::str::from_utf8(&text).unwrap().parse().unwrap();
        assert_eq!(number, 3.25);
    }
}

#[test]
fn decode_bulk_string() {
    assert_eq!(whole(b"$3\r\nbar\r\n"), bulk("bar"));
    assert_eq!(whole(b"$0\r\n\r\n"), bulk(""));
    assert_eq!(whole(b"$-1\r\n"), Value::BulkString(None));
    assert_eq!(whole(b"$4\r\na\r\nb\r\n"), bulk("a\r\nb"));
}

#[test]
fn decode_bulk_string_without_terminator() {
    assert_eq!(
        decode_value(b"$3\r\nbarXY", 0),
        Err(Error::Protocol(ProtocolFault::MissingTerminator))
    );
    assert_eq!(decode_value(b"$x\r\n", 0), Err(Error::Protocol(ProtocolFault::MalformedSize)));
}

#[test]
fn decode_boolean_and_nil() {
    assert_eq!(whole(b"#t\r\n"), Value::Boolean(true));
    assert_eq!(whole(b"#f\r\n"), Value::Boolean(false));
    assert_eq!(whole(b"_\r\n"), Value::BulkString(None));
    assert_eq!(decode_value(b"#x\r\n", 0), Err(Error::Protocol(ProtocolFault::MalformedBoolean)));
    assert_eq!(decode_value(b"_x\r\n", 0), Err(Error::Protocol(ProtocolFault::MalformedNil)));
}

#[test]
fn decode_containers() {
    assert_eq!(
        whole(b"*2\r\n$3\r\nfoo\r\n:7\r\n"),
        Value::Array(Some(vec![bulk("foo"), Value::Integer(7)]))
    );
    assert_eq!(whole(b"*0\r\n"), Value::Array(Some(vec![])));
    assert_eq!(whole(b"*-1\r\n"), Value::Array(None));
    assert_eq!(whole(b"~1\r\n:1\r\n"), Value::Unordered(vec![Value::Integer(1)]));
    assert_eq!(whole(b">1\r\n+msg\r\n"), Value::Push(vec![Value::SimpleString(b"msg".to_vec())]));
    assert_eq!(
        whole(b"%1\r\n+k\r\n:1\r\n"),
        Value::Dictionary(vec![(Value::SimpleString(b"k".to_vec()), Value::Integer(1))])
    );
    assert_eq!(whole(b"%0\r\n"), Value::Dictionary(vec![]));
    assert_eq!(whole(b"%-1\r\n"), Value::Array(None));
    assert_eq!(
        whole(b"*2\r\n*1\r\n:1\r\n*0\r\n"),
        Value::Array(Some(vec![
            Value::Array(Some(vec![Value::Integer(1)])),
            Value::Array(Some(vec![])),
        ]))
    );
}

#[test]
fn decode_errors_by_kind() {
    assert_eq!(
        whole(b"-ERR unknown command\r\n"),
        Value::Error(RedisError {
            kind: RedisErrorKind::Generic,
            description: b"unknown command".to_vec(),
        })
    );
    assert_eq!(
        whole(b"-WRONGTYPE Operation against a key\r\n"),
        Value::Error(RedisError {
            kind: RedisErrorKind::Other(b"WRONGTYPE".to_vec()),
            description: b"Operation against a key".to_vec(),
        })
    );
    assert_eq!(
        whole(b"-MOVED 7000 10.0.0.2:6379\r\n"),
        Value::Error(RedisError {
            kind: RedisErrorKind::Moved { hash_slot: 7000, address: (b"10.0.0.2".to_vec(), 6379) },
            description: b"7000 10.0.0.2:6379".to_vec(),
        })
    );
    assert_eq!(
        whole(b"-ASK 7000 10.0.0.3:6379\r\n"),
        Value::Error(RedisError {
            kind: RedisErrorKind::Ask { hash_slot: 7000, address: (b"10.0.0.3".to_vec(), 6379) },
            description: b"7000 10.0.0.3:6379".to_vec(),
        })
    );
    assert_eq!(decode_value(b"-MOVED x\r\n", 0), Err(Error::Protocol(ProtocolFault::MalformedRedirect)));
    assert_eq!(
        decode_value(b"-ASK 1 host:99999\r\n", 0),
        Err(Error::Protocol(ProtocolFault::MalformedRedirect))
    );
}

#[test]
fn parse_error_splits_at_the_last_colon() {
    let e = parse_error(b"MOVED 12 ::1:7000").unwrap();
    assert_eq!(e.kind, RedisErrorKind::Moved { hash_slot: 12, address: (b"::1".to_vec(), 7000) });
}

#[test]
fn decode_blob_error_and_verbatim() {
    assert_eq!(
        whole(b"!9\r\nERR oops!\r\n"),
        Value::Error(RedisError { kind: RedisErrorKind::Generic, description: b"oops!".to_vec() })
    );
    assert_eq!(whole(b"=8\r\ntxt:text\r\n"), bulk("text"));
    assert_eq!(decode_value(b"=2\r\nab\r\n", 0), Err(Error::Protocol(ProtocolFault::MalformedVerbatim)));
}

#[test]
fn decode_unknown_type() {
    assert_eq!(decode_value(b"?what\r\n", 0), Err(Error::Protocol(ProtocolFault::UnknownType(b'?'))));
}

#[test]
fn decode_needs_more_at_every_cut() {
    let frames: [&[u8]; 6] = [
        b"+OK\r\n",
        b":12\r\n",
        b"$5\r\nhello\r\n",
        b"*2\r\n$1\r\na\r\n*1\r\n:1\r\n",
        b"%1\r\n+k\r\n$1\r\nv\r\n",
        b"-MOVED 1 h:2\r\n",
    ];
    for frame in frames {
        for cut in 0..frame.len() {
            assert_eq!(decode_value(&frame[..cut], 0), Ok(None), "cut {} of {:?}", cut, frame);
        }
        assert!(matches!(decode_value(frame, 0), Ok(Some((_, end))) if end == frame.len()));
    }
}

#[test]
fn decode_from_a_position() {
    let bytes = b"+OK\r\n:5\r\n";
    assert_eq!(decode_value(bytes, 5), Ok(Some((Value::Integer(5), 9))));
    assert_eq!(decode_value(bytes, 9), Ok(None));
    assert_eq!(decode_value(bytes, 99), Ok(None));
}

#[test]
fn next_crlf_finds_the_first_pair() {
    assert_eq!(next_crlf(b"ab\r\ncd\r\n", 0), Some(4));
    assert_eq!(next_crlf(b"ab\r\ncd\r\n", 4), Some(8));
    assert_eq!(next_crlf(b"a\rb\r\n", 0), Some(5));
    assert_eq!(next_crlf(b"ab\r", 0), None);
    assert_eq!(next_crlf(b"ab", 7), None);
}

#[test]
fn buffer_decoder_takes_one_frame() {
    let mut buffer = BytesMut::from(&b"+OK\r\n$3\r\nbar\r\n+par"[..]);
    let mut decoder = ValueDecoder;
    assert_eq!(decoder.decode(&mut buffer), Ok(Some(Value::SimpleString(b"OK".to_vec()))));
    assert_eq!(&buffer[..], b"$3\r\nbar\r\n+par");
    assert_eq!(decoder.decode(&mut buffer), Ok(Some(bulk("bar"))));
    assert_eq!(decoder.decode(&mut buffer), Ok(None));
    assert_eq!(&buffer[..], b"+par");
}

#[test]
fn buffer_decoder_leaves_faulty_bytes() {
    let mut buffer = BytesMut::from(&b"+OK\r\n?bad\r\n"[..]);
    let mut decoder = ValueDecoder;
    let (values, fault) = decoder.drain(&mut buffer);
    assert_eq!(values, vec![Value::SimpleString(b"OK".to_vec())]);
    assert_eq!(fault, Some(Error::Protocol(ProtocolFault::UnknownType(b'?'))));
    assert_eq!(&buffer[..], b"?bad\r\n");
}

#[test]
fn feeding_in_two_pieces_gives_the_same_values() {
    let bytes: &[u8] =
        b"+OK\r\n$3\r\nbar\r\n*2\r\n:1\r\n$2\r\nxy\r\n%1\r\n+a\r\n#t\r\n-ERR no\r\n_\r\n,1.5\r\n";
    let mut decoder = ValueDecoder;
    let mut all = BytesMut::from(bytes);
    let (expected, fault) = decoder.drain(&mut all);
    assert_eq!(fault, None);
    assert_eq!(expected.len(), 7);
    assert!(all.is_empty());
    for cut in 0..=bytes.len() {
        let mut buffer = BytesMut::from(&bytes[..cut]);
        let (mut values, fault) = decoder.drain(&mut buffer);
        assert_eq!(fault, None);
        buffer.extend_from_slice(&bytes[cut..]);
        let (rest, fault) = decoder.drain(&mut buffer);
        assert_eq!(fault, None);
        values.extend(rest);
        assert_eq!(values, expected, "cut at {}", cut);
        assert!(buffer.is_empty());
    }
}

#[test]
fn encode_command_as_array_of_bulk_strings() {
    let command = cmd("SET").arg("foo").arg("bar");
    let mut out = Vec::new();
    encode_command(&command, &mut out);
    assert_eq!(out, b"*3\r\n$3\r\nSET\r\n$3\r\nfoo\r\n$3\r\nbar\r\n".to_vec());
    let mut buffer = BytesMut::from(&b"x"[..]);
    CommandEncoder.encode(&cmd("PING"), &mut buffer);
    assert_eq!(&buffer[..], b"x*1\r\n$4\r\nPING\r\n");
}

#[test]
fn decoding_an_encoded_command_gives_it_back() {
    let command = cmd("MSET").arg("k1").arg(b"v\r\n1".to_vec()).arg(42i64).arg("");
    let mut out = Vec::new();
    encode_command(&command, &mut out);
    out.extend_from_slice(b"+trailing");
    let (value, end) = decode_value(&out, 0).unwrap().unwrap();
    assert_eq!(end, out.len() - 9);
    assert_eq!(
        value,
        Value::Array(Some(vec![bulk("MSET"), bulk("k1"), bulk("v\r\n1"), bulk("42"), bulk("")]))
    );
}

#[test]
fn decimal_text() {
    assert_eq!(parse_i64(b"0"), Some(0));
    assert_eq!(parse_i64(b"007"), Some(7));
    assert_eq!(parse_i64(b"-0"), Some(0));
    assert_eq!(parse_i64(b""), None);
    assert_eq!(parse_i64(b"-"), None);
    assert_eq!(parse_i64(b"+"), None);
    assert_eq!(parse_i64(b"1 2"), None);
    assert_eq!(parse_i64(b"99999999999999999999999"), None);
    assert_eq!(parse_i64(b"-9223372036854775809"), None);
    let mut out = Vec::new();
    push_decimal(&mut out, i64::MIN);
    assert_eq!(out, b"-9223372036854775808".to_vec());
    let mut out = b"n=".to_vec();
    push_decimal(&mut out, 0);
    push_length(&mut out, 1234);
    assert_eq!(out, b"n=01234".to_vec());
    for n in [-1001i64, -1, 0, 9, 10, 65535, i64::MAX, i64::MIN] {
        let mut text = Vec::new();
        push_decimal(&mut text, n);
        assert_eq!(parse_i64(&text), Some(n));
    }
}

#[test]
fn frame_ends_are_found_without_building_values() {
    let frames: [&[u8]; 9] = [
        b"+OK\r\n",
        b":12\r\n",
        b"$5\r\nhe\r\no\r\n",
        b"$-1\r\n",
        b"*2\r\n$1\r\na\r\n*1\r\n:1\r\n",
        b"%1\r\n+k\r\n$1\r\nv\r\n",
        b"~0\r\n",
        b"-MOVED 1 h:2\r\n",
        b"=8\r\ntxt:text\r\n",
    ];
    for frame in frames {
        for cut in 0..frame.len() {
            assert_eq!(decode(&frame[..cut], 0), Ok(None), "cut {} of {:?}", cut, frame);
        }
        assert_eq!(decode(frame, 0), Ok(Some(frame.len())));
        let mut more = frame.to_vec();
        more.extend_from_slice(b"+next\r\n");
        assert_eq!(decode(&more, 0), Ok(Some(frame.len())));
        assert_eq!(decode(&more, frame.len()), Ok(Some(more.len())));
    }
    assert_eq!(decode(b"*1\r\n:x\r\n", 0), Err(Error::Protocol(ProtocolFault::MalformedInteger)));
    assert_eq!(decode(b"*2\r\n:x\r\n", 0), Err(Error::Protocol(ProtocolFault::MalformedInteger)));
    assert_eq!(decode(b"*x\r\n", 0), Err(Error::Protocol(ProtocolFault::MalformedSize)));
    assert_eq!(decode(b"$2\r\nabcd", 0), Err(Error::Protocol(ProtocolFault::MissingTerminator)));
    assert_eq!(decode(b"-ASK 1\r\n", 0), Err(Error::Protocol(ProtocolFault::MalformedRedirect)));
    assert_eq!(decode(b"!5\r\nASK 1\r\n", 0), Err(Error::Protocol(ProtocolFault::MalformedRedirect)));
    assert_eq!(decode(b"=1\r\nx\r\n", 0), Err(Error::Protocol(ProtocolFault::MalformedVerbatim)));
    assert_eq!(decode(b"#tt\r\n", 0), Err(Error::Protocol(ProtocolFault::MalformedBoolean)));
    assert_eq!(decode(b"@\r\n", 0), Err(Error::Protocol(ProtocolFault::UnknownType(b'@'))));
    assert!(is_error_line(b"ERR MOVED"));
    assert!(is_error_line(b"MOVED 1 :2"));
    assert!(!is_error_line(b"MOVED"));
    assert!(!is_error_line(b"ASK 1 h:"));
    assert!(matches!(size(b"12\r\nabc", 0), Step::Done(12, 4)));
    assert!(matches!(size(b"-1\r\n", 0), Step::Done(-1, 4)));
    assert!(matches!(size(b"12\r", 0), Step::More));
    assert!(matches!(size(b"1x\r\n", 0), Step::Fault(ProtocolFault::MalformedSize)));
}

#[test]
fn raw_frames_are_taken_off_the_buffer() {
    let mut buffer = BytesMut::from(&b"*1\r\n$1\r\na\r\n+OK\r\n+par"[..]);
    let mut decoder = BufferDecoder;
    assert_eq!(decoder.decode(&mut buffer), Ok(Some(b"*1\r\n$1\r\na\r\n".to_vec())));
    assert_eq!(decoder.decode(&mut buffer), Ok(Some(b"+OK\r\n".to_vec())));
    assert_eq!(decoder.decode(&mut buffer), Ok(None));
    assert_eq!(&buffer[..], b"+par");
    let mut bad = BytesMut::from(&b"?x\r\n"[..]);
    assert_eq!(decoder.decode(&mut bad), Err(Error::Protocol(ProtocolFault::UnknownType(b'?'))));
    assert_eq!(&bad[..], b"?x\r\n");
}

#[test]
fn decoding_an_encoded_value_gives_it_back() {
    let error = |kind, description: &str| {
        Value::Error(RedisError { kind, description: description.as_bytes().to_vec() })
    };
    let values = vec![
        Value::SimpleString(b"OK".to_vec()),
        Value::SimpleString(b"with \r and \n apart".to_vec()),
        Value::SimpleString(vec![]),
        Value::Integer(0),
        Value::Integer(i64::MIN),
        Value::Integer(i64::MAX),
        Value::Double(b"-1.5e3".to_vec()),
        bulk(""),
        bulk("a\r\nb"),
        Value::BulkString(None),
        Value::Boolean(true),
        Value::Boolean(false),
        Value::Array(None),
        Value::Array(Some(vec![])),
        Value::Array(Some(vec![Value::Integer(1), bulk("x"), Value::Array(Some(vec![Value::Boolean(true)]))])),
        Value::Dictionary(vec![(bulk("k"), Value::Integer(1)), (Value::Integer(2), Value::Array(None))]),
        Value::Unordered(vec![bulk("m1"), bulk("m2")]),
        Value::Push(vec![bulk("message"), bulk("channel"), bulk("payload")]),
        error(RedisErrorKind::Generic, "unknown command"),
        error(RedisErrorKind::Generic, ""),
        error(RedisErrorKind::Other(b"WRONGTYPE".to_vec()), "Operation against a key"),
        error(RedisErrorKind::Other(b"NOAUTH".to_vec()), ""),
        error(
            RedisErrorKind::Moved { hash_slot: 16383, address: (b"10.0.0.2".to_vec(), 6379) },
            "16383 10.0.0.2:6379",
        ),
        error(RedisErrorKind::Ask { hash_slot: 0, address: (b"".to_vec(), 65535) }, "0 :65535"),
    ];
    let mut all = Vec::new();
    for value in &values {
        let mut out = Vec::new();
        value.encode(&mut out);
        assert_eq!(decode_value(&out, 0), Ok(Some((value.clone(), out.len()))));
        assert_eq!(decode(&out, 0), Ok(Some(out.len())));
        out.extend_from_slice(b"$3\r\nmore");
        assert_eq!(decode_value(&out, 0), Ok(Some((value.clone(), out.len() - 8))));
        value.encode(&mut all);
    }
    let mut buffer = BytesMut::from(&all[..]);
    let (decoded, fault) = ValueDecoder.drain(&mut buffer);
    assert_eq!(fault, None);
    assert_eq!(decoded, values);
}

#[test]
fn canonical_frames() {
    let frame = |value: Value| {
        let mut out = Vec::new();
        value.encode(&mut out);
        out
    };
    assert_eq!(frame(Value::SimpleString(b"OK".to_vec())), b"+OK\r\n".to_vec());
    assert_eq!(frame(Value::Integer(-12)), b":-12\r\n".to_vec());
    assert_eq!(frame(bulk("bar")), b"$3\r\nbar\r\n".to_vec());
    assert_eq!(frame(Value::BulkString(None)), b"_\r\n".to_vec());
    assert_eq!(frame(Value::Array(None)), b"*-1\r\n".to_vec());
    assert_eq!(frame(Value::Boolean(true)), b"#t\r\n".to_vec());
    assert_eq!(
        frame(Value::Dictionary(vec![(bulk("k"), Value::Integer(1))])),
        b"%1\r\n$1\r\nk\r\n:1\r\n".to_vec()
    );
    assert_eq!(
        frame(Value::Error(RedisError { kind: RedisErrorKind::Generic, description: b"no".to_vec() })),
        b"-ERR no\r\n".to_vec()
    );
}

#[test]
fn a_line_with_crlf_inside_does_not_come_back() {
    let value = Value::SimpleString(b"a\r\nb".to_vec());
    let mut out = Vec::new();
    value.encode(&mut out);
    assert_eq!(decode_value(&out, 0), Ok(Some((Value::SimpleString(b"a".to_vec()), 4))));
}
