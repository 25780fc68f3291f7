//! The value decoder: builds the value of the frame at the head of a
//! growing buffer, or says that more bytes are needed.

use vstd::prelude::*;
use crate::error::{Error, ErrorView, ProtocolFault, RedisError, RedisErrorKind};
use crate::resp::decimal::parse_i64;
use crate::resp::buffer_decoder::{
    buffer_advance, buffer_bytes, buffer_slice, decode, lemma_parse_items_split,
    lemma_parse_pairs_split, next_crlf, parse_u16, size, Step,
};
use crate::resp::text::{copy_range, index_of, last_index_of, text_eq, COLON, CR, LF, SPACE};
use crate::resp::value::{pair_views, views, Value, ValueView};
use crate::resp::wire::{
    error_of_line, is_line_tag, is_sized_tag, lemma_find_crlf, lemma_parse_value_advances,
    line_value, parse_items, parse_pairs, parse_size, parse_sized, parse_value, redirect_target,
    sized_value, Parsed, LETTER_F, LETTER_T, TAG_ARRAY, TAG_BLOB_ERROR, TAG_BOOLEAN, TAG_BULK,
    TAG_DOUBLE, TAG_ERROR, TAG_INTEGER, TAG_MAP, TAG_NIL, TAG_PUSH, TAG_SET, TAG_SIMPLE,
    TAG_VERBATIM,
};

verus! {

/// The bytes of the sized frame whose length line is at `pos`; `None` for
/// nil.
pub fn sized_bytes(buf: &[u8], pos: usize) -> (r: Step<Option<Vec<u8>>>)
    ensures
        match parse_sized(buf@, pos as int) {
            Parsed::Incomplete => r is More,
            Parsed::Malformed(fault) => r matches Step::Fault(f) && f == fault,
            Parsed::Complete(body, end) => r matches Step::Done(bytes, next) && next == end && end
                <= buf@.len() && match body {
                Some(b) => bytes matches Some(v) && v@ == b,
                None => bytes is None,
            },
        },
{
    match size(buf, pos) {
        Step::More => Step::More,
        Step::Fault(fault) => Step::Fault(fault),
        Step::Done(n, start) => {
            if n < 0 {
                return Step::Done(None, start);
            }
            let left = buf.len() - start;
            if left < 2 || n as u64 > (left - 2) as u64 {
                return Step::More;
            }
            let stop = start + n as usize;
            if buf[stop] != CR || buf[stop + 1] != LF {
                return Step::Fault(ProtocolFault::MissingTerminator);
            }
            Step::Done(Some(copy_range(buf, start, stop)), stop + 2)
        },
    }
}

/// The slot, host and port that the description of a redirection names.
pub fn parse_redirect(description: &[u8]) -> (r: Option<(u16, Vec<u8>, u16)>)
    ensures
        match redirect_target(description@) {
            Some((slot, host, port)) => r matches Some(t) && t.0 == slot && t.1@ == host && t.2
                == port,
            None => r is None,
        },
{
    let space = index_of(description, SPACE, 0);
    let colon = match last_index_of(description, COLON) {
        Some(i) => i,
        None => {
            return None;
        },
    };
    proof {
        crate::resp::text::lemma_find_byte(description@, SPACE, 0);
        crate::resp::text::lemma_rfind_byte(description@, COLON, description@.len() as int);
    }
    if space >= description.len() || colon <= space {
        return None;
    }
    let slot_text = copy_range(description, 0, space);
    let port_text = copy_range(description, colon + 1, description.len());
    assert(slot_text@ =~= description@.take(space as int));
    assert(port_text@ =~= description@.skip(colon + 1));
    match (parse_u16(slot_text.as_slice()), parse_u16(port_text.as_slice())) {
        (Some(slot), Some(port)) => Some((slot, copy_range(description, space + 1, colon), port)),
        _ => None,
    }
}

/// The error that a line of text stands for.
pub fn parse_error(line: &[u8]) -> (r: Option<RedisError>)
    ensures
        match error_of_line(line@) {
            Some(e) => r matches Some(err) && err@ == e,
            None => r is None,
        },
{
    let space = index_of(line, SPACE, 0);
    proof {
        crate::resp::text::lemma_find_byte(line@, SPACE, 0);
    }
    let token = copy_range(line, 0, space);
    assert(token@ =~= line@.take(space as int));
    let description = if space < line.len() {
        let d = copy_range(line, space + 1, line.len());
        assert(d@ =~= line@.skip(space + 1));
        d
    } else {
        Vec::new()
    };
    if text_eq(token.as_slice(), "MOVED") {
        match parse_redirect(description.as_slice()) {
            Some((hash_slot, host, port)) => Some(
                RedisError {
                    kind: RedisErrorKind::Moved { hash_slot, address: (host, port) },
                    description,
                },
            ),
            None => None,
        }
    } else if text_eq(token.as_slice(), "ASK") {
        match parse_redirect(description.as_slice()) {
            Some((hash_slot, host, port)) => Some(
                RedisError {
                    kind: RedisErrorKind::Ask { hash_slot, address: (host, port) },
                    description,
                },
            ),
            None => None,
        }
    } else if text_eq(token.as_slice(), "ERR") {
        Some(RedisError { kind: RedisErrorKind::Generic, description })
    } else {
        Some(RedisError { kind: RedisErrorKind::Other(token), description })
    }
}

/// The value of a one-line frame with the given tag.
fn line_frame(tag: u8, line: Vec<u8>) -> (r: Result<Value, ProtocolFault>)
    requires
        is_line_tag(tag),
    ensures
        match line_value(tag, line@) {
            Ok(v) => r matches Ok(val) && val@ == v,
            Err(fault) => r matches Err(f) && f == fault,
        },
{
    if tag == TAG_SIMPLE {
        Ok(Value::SimpleString(line))
    } else if tag == TAG_DOUBLE {
        Ok(Value::Double(line))
    } else if tag == TAG_INTEGER {
        match parse_i64(line.as_slice()) {
            Some(i) => Ok(Value::Integer(i)),
            None => Err(ProtocolFault::MalformedInteger),
        }
    } else if tag == TAG_BOOLEAN {
        if line.len() == 1 && line[0] == LETTER_T {
            assert(line@ =~= seq![LETTER_T]);
            Ok(Value::Boolean(true))
        } else if line.len() == 1 && line[0] == LETTER_F {
            assert(line@ =~= seq![LETTER_F]);
            Ok(Value::Boolean(false))
        } else {
            assert(seq![LETTER_T].len() == 1 && seq![LETTER_T][0] == LETTER_T);
            assert(seq![LETTER_F].len() == 1 && seq![LETTER_F][0] == LETTER_F);
            Err(ProtocolFault::MalformedBoolean)
        }
    } else if tag == TAG_NIL {
        if line.len() == 0 {
            Ok(Value::BulkString(None))
        } else {
            Err(ProtocolFault::MalformedNil)
        }
    } else {
        match parse_error(line.as_slice()) {
            Some(e) => Ok(Value::Error(e)),
            None => Err(ProtocolFault::MalformedRedirect),
        }
    }
}

/// The value of a sized frame with the given tag.
fn sized_frame(tag: u8, body: Option<Vec<u8>>) -> (r: Result<Value, ProtocolFault>)
    requires
        is_sized_tag(tag),
    ensures
        match sized_value(
            tag,
            match body {
                Some(b) => Some(b@),
                None => None,
            },
        ) {
            Ok(v) => r matches Ok(val) && val@ == v,
            Err(fault) => r matches Err(f) && f == fault,
        },
{
    match body {
        None => Ok(Value::BulkString(None)),
        Some(bytes) => {
            if tag == TAG_BULK {
                Ok(Value::BulkString(Some(bytes)))
            } else if tag == TAG_VERBATIM {
                if bytes.len() >= 4 {
                    let text = copy_range(bytes.as_slice(), 4, bytes.len());
                    assert(text@ =~= bytes@.skip(4));
                    Ok(Value::BulkString(Some(text)))
                } else {
                    Err(ProtocolFault::MalformedVerbatim)
                }
            } else {
                match parse_error(bytes.as_slice()) {
                    Some(e) => Ok(Value::Error(e)),
                    None => Err(ProtocolFault::MalformedRedirect),
                }
            }
        },
    }
}

/// The frame that starts at `pos`: `Ok(None)` where more bytes are needed,
/// else its value and the position after it, or the fault in it.
pub fn decode_value(buf: &[u8], pos: usize) -> (r: Result<Option<(Value, usize)>, Error>)
    ensures
        match parse_value(buf@, pos as int) {
            Parsed::Incomplete => r matches Ok(None),
            Parsed::Malformed(fault) => r matches Err(e) && e@ == ErrorView::Protocol(fault),
            Parsed::Complete(v, end) => r matches Ok(Some(found)) && found.0@ == v && found.1
                == end && pos < end <= buf@.len(),
        },
    decreases buf@.len() - pos, 0nat,
{
    if buf.len() <= pos {
        return Ok(None);
    }
    proof {
        lemma_parse_value_advances(buf@, pos as int);
        lemma_find_crlf(buf@, pos + 1);
    }
    let tag = buf[pos];
    let body = pos + 1;
    if tag == TAG_SIMPLE || tag == TAG_ERROR || tag == TAG_INTEGER || tag == TAG_DOUBLE || tag
        == TAG_BOOLEAN || tag == TAG_NIL {
        match next_crlf(buf, body) {
            None => Ok(None),
            Some(next) => {
                match line_frame(tag, copy_range(buf, body, next - 2)) {
                    Ok(value) => Ok(Some((value, next))),
                    Err(fault) => Err(Error::Protocol(fault)),
                }
            },
        }
    } else if tag == TAG_BULK || tag == TAG_BLOB_ERROR || tag == TAG_VERBATIM {
        match sized_bytes(buf, body) {
            Step::More => Ok(None),
            Step::Fault(fault) => Err(Error::Protocol(fault)),
            Step::Done(bytes, next) => match sized_frame(tag, bytes) {
                Ok(value) => Ok(Some((value, next))),
                Err(fault) => Err(Error::Protocol(fault)),
            },
        }
    } else if tag == TAG_ARRAY || tag == TAG_SET || tag == TAG_PUSH {
        match items(buf, body) {
            Step::More => Ok(None),
            Step::Fault(fault) => Err(Error::Protocol(fault)),
            Step::Done(None, next) => Ok(Some((Value::Array(None), next))),
            Step::Done(Some(items), next) => {
                let value = if tag == TAG_SET {
                    Value::Unordered(items)
                } else if tag == TAG_PUSH {
                    Value::Push(items)
                } else {
                    Value::Array(Some(items))
                };
                Ok(Some((value, next)))
            },
        }
    } else if tag == TAG_MAP {
        match pairs(buf, body) {
            Step::More => Ok(None),
            Step::Fault(fault) => Err(Error::Protocol(fault)),
            Step::Done(None, next) => Ok(Some((Value::Array(None), next))),
            Step::Done(Some(pairs), next) => Ok(Some((Value::Dictionary(pairs), next))),
        }
    } else {
        Err(Error::Protocol(ProtocolFault::UnknownType(tag)))
    }
}

/// The frames of the sequence whose count line is at `pos`; `None` for a
/// negative count.
fn items(buf: &[u8], pos: usize) -> (r: Step<Option<Vec<Value>>>)
    requires
        0 < pos <= buf@.len(),
    ensures
        match parse_size(buf@, pos as int) {
            Parsed::Incomplete => r is More,
            Parsed::Malformed(fault) => r matches Step::Fault(f) && f == fault,
            Parsed::Complete(n, start) => if n < 0 {
                r matches Step::Done(None, next) && next == start
            } else {
                match parse_items(buf@, start, n as nat) {
                    Parsed::Incomplete => r is More,
                    Parsed::Malformed(fault) => r matches Step::Fault(f) && f == fault,
                    Parsed::Complete(items, end) => r matches Step::Done(Some(found), next)
                        && views(found@) == items && next == end,
                }
            },
        },
    decreases buf@.len() - pos, 1nat,
{
    let (count, start) = match size(buf, pos) {
        Step::More => {
            return Step::More;
        },
        Step::Fault(fault) => {
            return Step::Fault(fault);
        },
        Step::Done(n, start) => (n, start),
    };
    proof {
        lemma_find_crlf(buf@, pos as int);
    }
    if count < 0 {
        return Step::Done(None, start);
    }
    let mut out: Vec<Value> = Vec::new();
    let mut new_pos: usize = start;
    let mut i: i64 = 0;
    assert(views(out@) =~= Seq::<ValueView>::empty());
    while i < count
        invariant
            0 <= i <= count,
            pos < start <= new_pos <= buf@.len(),
            parse_size(buf@, pos as int) == Parsed::Complete(count as int, start as int),
            parse_items(buf@, start as int, i as nat) == Parsed::Complete(
                views(out@),
                new_pos as int,
            ),
        decreases count - i,
    {
        proof {
            lemma_parse_items_split(buf@, start as int, i as nat, count as nat);
            lemma_parse_items_split(buf@, start as int, i as nat, (i + 1) as nat);
        }
        match decode_value(buf, new_pos) {
            Ok(None) => {
                return Step::More;
            },
            Err(Error::Protocol(fault)) => {
                return Step::Fault(fault);
            },
            Err(_) => {
                assert(false);
                return Step::More;
            },
            Ok(Some((value, next))) => {
                proof {
                    let s = buf@;
                    assert(parse_items(s, next as int, 0) == Parsed::Complete(
                        Seq::<ValueView>::empty(),
                        next as int,
                    ));
                    assert(seq![value@] + Seq::<ValueView>::empty() =~= seq![value@]);
                    assert(parse_items(s, new_pos as int, 1) == Parsed::Complete(
                        seq![value@],
                        next as int,
                    ));
                    assert(views(out@.push(value)) =~= views(out@) + seq![value@]);
                }
                out.push(value);
                new_pos = next;
            },
        }
        i = i + 1;
    }
    Step::Done(Some(out), new_pos)
}

/// The pairs of the map whose count line is at `pos`; `None` for a negative
/// count.
fn pairs(buf: &[u8], pos: usize) -> (r: Step<Option<Vec<(Value, Value)>>>)
    requires
        0 < pos <= buf@.len(),
    ensures
        match parse_size(buf@, pos as int) {
            Parsed::Incomplete => r is More,
            Parsed::Malformed(fault) => r matches Step::Fault(f) && f == fault,
            Parsed::Complete(n, start) => if n < 0 {
                r matches Step::Done(None, next) && next == start
            } else {
                match parse_pairs(buf@, start, n as nat) {
                    Parsed::Incomplete => r is More,
                    Parsed::Malformed(fault) => r matches Step::Fault(f) && f == fault,
                    Parsed::Complete(pairs, end) => r matches Step::Done(Some(found), next)
                        && pair_views(found@) == pairs && next == end,
                }
            },
        },
    decreases buf@.len() - pos, 1nat,
{
    let (count, start) = match size(buf, pos) {
        Step::More => {
            return Step::More;
        },
        Step::Fault(fault) => {
            return Step::Fault(fault);
        },
        Step::Done(n, start) => (n, start),
    };
    proof {
        lemma_find_crlf(buf@, pos as int);
    }
    if count < 0 {
        return Step::Done(None, start);
    }
    let mut out: Vec<(Value, Value)> = Vec::new();
    let mut new_pos: usize = start;
    let mut i: i64 = 0;
    assert(pair_views(out@) =~= Seq::<(ValueView, ValueView)>::empty());
    while i < count
        invariant
            0 <= i <= count,
            pos < start <= new_pos <= buf@.len(),
            parse_size(buf@, pos as int) == Parsed::Complete(count as int, start as int),
            parse_pairs(buf@, start as int, i as nat) == Parsed::Complete(
                pair_views(out@),
                new_pos as int,
            ),
        decreases count - i,
    {
        proof {
            lemma_parse_pairs_split(buf@, start as int, i as nat, count as nat);
            lemma_parse_pairs_split(buf@, start as int, i as nat, (i + 1) as nat);
        }
        let (key, middle) = match decode_value(buf, new_pos) {
            Ok(None) => {
                return Step::More;
            },
            Err(Error::Protocol(fault)) => {
                return Step::Fault(fault);
            },
            Err(_) => {
                assert(false);
                return Step::More;
            },
            Ok(Some(found)) => found,
        };
        let (value, next) = match decode_value(buf, middle) {
            Ok(None) => {
                return Step::More;
            },
            Err(Error::Protocol(fault)) => {
                return Step::Fault(fault);
            },
            Err(_) => {
                assert(false);
                return Step::More;
            },
            Ok(Some(found)) => found,
        };
        proof {
            let s = buf@;
            assert(parse_pairs(s, next as int, 0) == Parsed::Complete(
                Seq::<(ValueView, ValueView)>::empty(),
                next as int,
            ));
            assert(seq![(key@, value@)] + Seq::<(ValueView, ValueView)>::empty() =~= seq![
                (key@, value@),
            ]);
            assert(parse_pairs(s, new_pos as int, 1) == Parsed::Complete(
                seq![(key@, value@)],
                next as int,
            ));
            assert(pair_views(out@.push((key, value))) =~= pair_views(out@) + seq![
                (key@, value@),
            ]);
        }
        out.push((key, value));
        new_pos = next;
        i = i + 1;
    }
    Step::Done(Some(out), new_pos)
}

/// Decoder of a connection's read half.
pub struct ValueDecoder;

impl ValueDecoder {
    /// Takes one frame off the head of `src` and builds its value. Where the
    /// bytes hold no whole frame, or no frame at all, `src` is left as it is;
    /// nothing is built before the frame is known to be whole.
    pub fn decode(&mut self, src: &mut bytes::BytesMut) -> (r: Result<Option<Value>, Error>)
        ensures
            match parse_value(buffer_bytes(*old(src)), 0) {
                Parsed::Incomplete => r matches Ok(None) && buffer_bytes(*final(src))
                    == buffer_bytes(*old(src)),
                Parsed::Malformed(fault) => r matches Err(e) && e@ == ErrorView::Protocol(fault)
                    && buffer_bytes(*final(src)) == buffer_bytes(*old(src)),
                Parsed::Complete(v, end) => r matches Ok(Some(value)) && value@ == v
                    && buffer_bytes(*final(src)) == buffer_bytes(*old(src)).skip(end),
            },
    {
        match decode(buffer_slice(src), 0) {
            Ok(Some(_)) => {},
            Ok(None) => {
                return Ok(None);
            },
            Err(e) => {
                return Err(e);
            },
        }
        match decode_value(buffer_slice(src), 0) {
            Ok(Some((value, end))) => {
                buffer_advance(src, end);
                Ok(Some(value))
            },
            Ok(None) => Ok(None),
            Err(e) => Err(e),
        }
    }
}

} // verus!
