use rustis::error::{Error, ParseTarget, RedisError, RedisErrorKind};
use rustis::resp::command::cmd;
use rustis::resp::from_value::{into_result, map_into_result};
use rustis::resp::from_value_trait::{to_string, ValueIterator};
use rustis::resp::value::Value;

fn bulk(text: &str) -> Value {
    Value::BulkString(Some(text.as_bytes().to_vec()))
}

#[test]
fn tuple() -> Result<(), Error> {
    let value = Value::Array(Some(vec![bulk("first"), bulk("second")]));
    let result: Vec<String> = value.into()?;
    assert_eq!(2, result.len());
    assert_eq!("first".to_owned(), result[0]);
    assert_eq!("second".to_owned(), result[1]);

    let values = Value::Array(Some(vec![bulk("first"), bulk("second")]));
    let result: (String, String) = values.into()?;
    assert_eq!(("first".to_owned(), "second".to_owned()), result);

    let value = Value::Array(Some(vec![bulk("first"), bulk("second"), bulk("third"), bulk("fourth")]));
    let result: Vec<(String, String)> = value.into()?;
    assert_eq!(2, result.len());
    assert_eq!(("first".to_owned(), "second".to_owned()), result[0]);
    assert_eq!(("third".to_owned(), "fourth".to_owned()), result[1]);

    let value = Value::Array(Some(vec![
        Value::Array(Some(vec![bulk("first"), bulk("second")])),
        Value::Array(Some(vec![bulk("third"), bulk("fourth")])),
    ]));
    let result: Vec<(String, String)> = value.into()?;
    assert_eq!(2, result.len());
    assert_eq!(("first".to_owned(), "second".to_owned()), result[0]);
    assert_eq!(("third".to_owned(), "fourth".to_owned()), result[1]);

    Ok(())
}

#[test]
fn values_read_as_what_is_asked_for() {
    assert_eq!(Value::Integer(7).into::<i64>(), Ok(7));
    assert_eq!(bulk("-7").into::<isize>(), Ok(-7));
    assert_eq!(bulk("7").into::<usize>(), Ok(7));
    assert_eq!(bulk("abc").into::<Vec<u8>>(), Ok(b"abc".to_vec()));
    assert_eq!(bulk("abc").into::<Value>(), Ok(bulk("abc")));
    assert_eq!(Value::BulkString(None).into::<String>(), Ok(String::new()));
    assert_eq!(
        Value::Array(Some(vec![Value::Integer(1), bulk("2")])).into::<Vec<i64>>(),
        Ok(vec![1, 2])
    );
    assert_eq!(Value::Array(None).into::<Vec<i64>>(), Ok(vec![]));
    assert_eq!(
        Value::Array(Some(vec![bulk("a"), Value::Integer(1), bulk("b"), Value::Integer(2)]))
            .into::<Vec<(String, i64)>>(),
        Ok(vec![("a".to_owned(), 1), ("b".to_owned(), 2)])
    );
    assert_eq!(
        Value::Array(Some(vec![Value::Array(Some(vec![Value::Integer(1)]))])).into::<Vec<Vec<i64>>>(),
        Ok(vec![vec![1]])
    );
    assert_eq!(
        bulk("x").into_with_command::<String>(&cmd("GET").arg("k")),
        Ok("x".to_owned())
    );
}

#[test]
fn values_that_cannot_be_read() {
    assert_eq!(Value::BulkString(Some(vec![0xff, 0xfe])).into::<String>(), Err(Error::Parse(ParseTarget::Text)));
    assert_eq!(to_string(&Value::BulkString(Some(vec![0xc3, 0xa9]))), Ok("\u{e9}".to_owned()));
    assert_eq!(Value::Boolean(true).into::<String>(), Err(Error::Parse(ParseTarget::Text)));
    assert_eq!(bulk("x").into::<i64>(), Err(Error::Parse(ParseTarget::Integer)));
    assert_eq!(
        Value::Array(Some(vec![bulk("a"), bulk("b"), bulk("c")])).into::<Vec<(String, String)>>(),
        Err(Error::Parse(ParseTarget::Sequence))
    );
    assert_eq!(
        Value::Array(Some(vec![bulk("a")])).into::<(String, String)>(),
        Err(Error::Parse(ParseTarget::Pair))
    );
    assert_eq!(
        Value::Array(Some(vec![Value::Array(Some(vec![bulk("a")]))])).into::<Vec<(String, String)>>(),
        Err(Error::Parse(ParseTarget::Pair))
    );
    let refused = RedisError { kind: RedisErrorKind::Generic, description: b"no".to_vec() };
    assert_eq!(
        Value::Error(RedisError { kind: RedisErrorKind::Generic, description: b"no".to_vec() })
            .into::<Vec<String>>(),
        Err(Error::Redis(refused))
    );
    assert_eq!(
        Value::Array(Some(vec![bulk("1"), bulk("x")])).into::<Vec<i64>>(),
        Err(Error::Parse(ParseTarget::Integer))
    );
}

#[test]
fn error_replies_become_errors() {
    let refused = || RedisError { kind: RedisErrorKind::Generic, description: b"no".to_vec() };
    assert_eq!(into_result(Ok(Value::Error(refused()))), Err(Error::Redis(refused())));
    assert_eq!(into_result(Ok(bulk("x"))), Ok(bulk("x")));
    assert_eq!(into_result(Err(Error::Aborted)), Err(Error::Aborted));
}

#[test]
fn values_are_read_one_item_after_the_other() {
    let row = vec![bulk("a"), Value::Integer(1), bulk("b"), Value::Integer(2)];
    let mut pairs = ValueIterator::<(String, i64)>::new(row);
    assert_eq!(pairs.next(), Some(Ok(("a".to_owned(), 1))));
    assert_eq!(pairs.next(), Some(Ok(("b".to_owned(), 2))));
    assert_eq!(pairs.next(), None);
    assert_eq!(pairs.next(), None);

    let nested = vec![Value::Array(Some(vec![bulk("a"), Value::Integer(1)])), bulk("b")];
    let mut pairs = ValueIterator::<(String, i64)>::new(nested);
    assert_eq!(pairs.next(), Some(Ok(("a".to_owned(), 1))));
    assert_eq!(pairs.next(), Some(Err(Error::Parse(ParseTarget::Sequence))));
    assert_eq!(pairs.next(), None);

    let mut numbers = ValueIterator::<i64>::new(vec![bulk("x"), Value::Integer(3)]);
    assert!(matches!(numbers.next(), Some(Err(_))));
    assert_eq!(numbers.next(), Some(Ok(3)));
    assert_eq!(numbers.next(), None);
    assert_eq!(ValueIterator::<i64>::new(vec![]).next(), None);
}

#[test]
fn values_as_text() {
    let text = |v: Value| String::from_utf8(v.display()).unwrap();
    assert_eq!(text(Value::SimpleString(b"OK".to_vec())), "OK");
    assert_eq!(text(Value::Integer(-12)), "-12");
    assert_eq!(text(Value::Double(b"1.5".to_vec())), "1.5");
    assert_eq!(text(bulk("abc")), "abc");
    assert_eq!(text(Value::BulkString(None)), "Nil");
    assert_eq!(text(Value::Array(None)), "Nil");
    assert_eq!(text(Value::Boolean(true)), "true");
    assert_eq!(text(Value::Boolean(false)), "false");
    assert_eq!(text(Value::Array(Some(vec![]))), "[]");
    assert_eq!(text(Value::Array(Some(vec![bulk("a")]))), "[a]");
    assert_eq!(
        text(Value::Array(Some(vec![
            bulk("a"),
            Value::Integer(1),
            Value::Unordered(vec![bulk("b"), bulk("c")])
        ]))),
        "[a, 1, [b, c]]"
    );
    assert_eq!(text(Value::Push(vec![bulk("message"), bulk("hi")])), "[message, hi]");
    assert_eq!(text(Value::Dictionary(vec![])), "{}");
    assert_eq!(
        text(Value::Dictionary(vec![
            (bulk("a"), Value::Integer(1)),
            (bulk("b"), Value::Array(Some(vec![Value::Integer(2), Value::Integer(3)])))
        ])),
        "{a: 1, b: [2, 3]}"
    );
    assert_eq!(
        text(Value::Error(RedisError {
            kind: RedisErrorKind::Generic,
            description: b"unknown command".to_vec()
        })),
        "ERR unknown command"
    );
    let mut out = b"> ".to_vec();
    Value::Integer(7).show(&mut out);
    assert_eq!(out, b"> 7".to_vec());
}

#[test]
fn a_reply_is_mapped_unless_it_is_an_error() {
    let length = |v: Value| v.display().len();
    assert_eq!(map_into_result(Ok(bulk("abc")), length), Ok(3));
    let failure = RedisError { kind: RedisErrorKind::Generic, description: b"no".to_vec() };
    assert_eq!(
        map_into_result(Ok(Value::Error(failure.clone())), length),
        Err(Error::Redis(failure))
    );
    assert_eq!(map_into_result(Err(Error::Disconnected), length), Err(Error::Disconnected));
}
