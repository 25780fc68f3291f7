//! Writing a value as its canonical frame.

use vstd::prelude::*;
use crate::error::{RedisError, RedisErrorKind};
use crate::resp::command_encoder::lemma_wire_items_push;
use crate::resp::decimal::{decimal, push_decimal, push_length};
use crate::resp::text::{push_bytes, CR, LF, SPACE};
use crate::resp::value::{pair_views, views, Value, ValueView};
use crate::resp::wire::{
    crlf, error_line, wire_form, wire_items, wire_pairs, LETTER_F, LETTER_T, TAG_ARRAY,
    TAG_BOOLEAN, TAG_BULK, TAG_DOUBLE, TAG_ERROR, TAG_INTEGER, TAG_MAP, TAG_NIL, TAG_PUSH,
    TAG_SET, TAG_SIMPLE,
};

verus! {

/// The frames of pairs with one more pair at their end.
pub proof fn lemma_wire_pairs_push(pairs: Seq<(ValueView, ValueView)>, last: (ValueView, ValueView))
    ensures
        wire_pairs(pairs.push(last)) == wire_pairs(pairs) + wire_form(last.0) + wire_form(last.1),
    decreases pairs.len(),
{
    let all = pairs.push(last);
    if pairs.len() == 0 {
        assert(all.drop_first() =~= Seq::<(ValueView, ValueView)>::empty());
        assert(wire_pairs(all.drop_first()) =~= Seq::<u8>::empty());
        assert(all[0] == last);
        assert(wire_pairs(pairs) =~= Seq::<u8>::empty());
        assert(wire_pairs(all) =~= wire_form(last.0) + wire_form(last.1));
        assert(wire_pairs(all) =~= wire_pairs(pairs) + wire_form(last.0) + wire_form(last.1));
    } else {
        lemma_wire_pairs_push(pairs.drop_first(), last);
        assert(all.drop_first() =~= pairs.drop_first().push(last));
        assert(wire_pairs(all) =~= wire_pairs(pairs) + wire_form(last.0) + wire_form(last.1));
    }
}

/// Appends the line of an error to `out`.
pub fn encode_error_line(e: &RedisError, out: &mut Vec<u8>)
    ensures
        final(out)@ == old(out)@ + error_line(e@),
{
    match &e.kind {
        RedisErrorKind::Generic => push_bytes(out, "ERR".as_bytes()),
        RedisErrorKind::Moved { .. } => push_bytes(out, "MOVED".as_bytes()),
        RedisErrorKind::Ask { .. } => push_bytes(out, "ASK".as_bytes()),
        RedisErrorKind::Other(name) => push_bytes(out, name.as_slice()),
    }
    if e.description.len() > 0 {
        out.push(SPACE);
        push_bytes(out, e.description.as_slice());
    }
    assert(out@ =~= old(out)@ + error_line(e@));
}

/// Appends the first line of a frame to `out`: the tag, a number and CRLF.
fn encode_head(tag: u8, n: usize, out: &mut Vec<u8>)
    ensures
        final(out)@ == old(out)@ + (seq![tag] + decimal(n as int) + crlf()),
{
    out.push(tag);
    push_length(out, n);
    out.push(CR);
    out.push(LF);
    assert(out@ =~= old(out)@ + (seq![tag] + decimal(n as int) + crlf()));
}

/// Appends the frames of the values to `out`, one after the other.
pub fn encode_items(items: &Vec<Value>, out: &mut Vec<u8>)
    ensures
        final(out)@ == old(out)@ + wire_items(views(items@)),
    decreases items,
{
    let ghost all = views(items@);
    let mut i: usize = 0;
    assert(all.take(0) =~= Seq::<ValueView>::empty());
    assert(old(out)@ + wire_items(all.take(0)) =~= old(out)@);
    while i < items.len()
        invariant
            i <= items.len(),
            all == views(items@),
            out@ == old(out)@ + wire_items(all.take(i as int)),
        decreases items.len() - i,
    {
        items[i].encode(out);
        proof {
            lemma_wire_items_push(all.take(i as int), all[i as int]);
            assert(all.take(i + 1) =~= all.take(i as int).push(all[i as int]));
            assert(out@ =~= old(out)@ + wire_items(all.take(i + 1)));
        }
        i = i + 1;
    }
    assert(all.take(items.len() as int) =~= all);
}

/// Appends the frames of the pairs to `out`: key, value, key, value.
pub fn encode_pairs(pairs: &Vec<(Value, Value)>, out: &mut Vec<u8>)
    ensures
        final(out)@ == old(out)@ + wire_pairs(pair_views(pairs@)),
    decreases pairs,
{
    let ghost all = pair_views(pairs@);
    let mut i: usize = 0;
    assert(all.take(0) =~= Seq::<(ValueView, ValueView)>::empty());
    assert(old(out)@ + wire_pairs(all.take(0)) =~= old(out)@);
    while i < pairs.len()
        invariant
            i <= pairs.len(),
            all == pair_views(pairs@),
            out@ == old(out)@ + wire_pairs(all.take(i as int)),
        decreases pairs.len() - i,
    {
        let pair = &pairs[i];
        pair.0.encode(out);
        pair.1.encode(out);
        proof {
            lemma_wire_pairs_push(all.take(i as int), all[i as int]);
            assert(all.take(i + 1) =~= all.take(i as int).push(all[i as int]));
            assert(out@ =~= old(out)@ + wire_pairs(all.take(i + 1)));
        }
        i = i + 1;
    }
    assert(all.take(pairs.len() as int) =~= all);
}

impl Value {
    /// Appends the canonical frame of the value to `out`.
    pub fn encode(&self, out: &mut Vec<u8>)
        ensures
            final(out)@ == old(out)@ + wire_form(self@),
        decreases self,
    {
        match self {
            Value::SimpleString(s) => {
                out.push(TAG_SIMPLE);
                push_bytes(out, s.as_slice());
                out.push(CR);
                out.push(LF);
            },
            Value::Integer(i) => {
                out.push(TAG_INTEGER);
                push_decimal(out, *i);
                out.push(CR);
                out.push(LF);
            },
            Value::Double(t) => {
                out.push(TAG_DOUBLE);
                push_bytes(out, t.as_slice());
                out.push(CR);
                out.push(LF);
            },
            Value::BulkString(Some(b)) => {
                encode_head(TAG_BULK, b.len(), out);
                push_bytes(out, b.as_slice());
                out.push(CR);
                out.push(LF);
            },
            Value::BulkString(None) => {
                out.push(TAG_NIL);
                out.push(CR);
                out.push(LF);
            },
            Value::Boolean(b) => {
                out.push(TAG_BOOLEAN);
                out.push(if *b { LETTER_T } else { LETTER_F });
                out.push(CR);
                out.push(LF);
            },
            Value::Array(Some(items)) => {
                encode_head(TAG_ARRAY, items.len(), out);
                encode_items(items, out);
            },
            Value::Array(None) => {
                out.push(TAG_ARRAY);
                push_decimal(out, -1);
                out.push(CR);
                out.push(LF);
            },
            Value::Dictionary(pairs) => {
                encode_head(TAG_MAP, pairs.len(), out);
                encode_pairs(pairs, out);
            },
            Value::Unordered(items) => {
                encode_head(TAG_SET, items.len(), out);
                encode_items(items, out);
            },
            Value::Push(items) => {
                encode_head(TAG_PUSH, items.len(), out);
                encode_items(items, out);
            },
            Value::Error(e) => {
                out.push(TAG_ERROR);
                encode_error_line(e, out);
                out.push(CR);
                out.push(LF);
            },
        }
        assert(out@ =~= old(out)@ + wire_form(self@));
    }
}

} // verus!
