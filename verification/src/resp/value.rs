//! The protocol value: what one RESP frame holds.

use vstd::prelude::*;
use crate::error::{RedisError, RedisErrorView};

verus! {

/// One value of the protocol.
#[derive(Debug, PartialEq, Eq)]
pub enum Value {
    /// Simple string: a line of text.
    SimpleString(Vec<u8>),
    /// 64-bit signed integer.
    Integer(i64),
    /// Double, kept as the decimal text that stands for it on the wire.
    Double(Vec<u8>),
    /// Bulk string: any bytes, or nil.
    BulkString(Option<Vec<u8>>),
    /// Boolean.
    Boolean(bool),
    /// Array: an ordered sequence of values, or nil.
    Array(Option<Vec<Value>>),
    /// Map reply: key and value pairs, in the order they came.
    Dictionary(Vec<(Value, Value)>),
    /// Set reply: values in the order they came.
    Unordered(Vec<Value>),
    /// Push: an out-of-band sequence of values.
    Push(Vec<Value>),
    /// Error reply.
    Error(RedisError),
}

/// Mathematical form of a [`Value`].
pub enum ValueView {
    SimpleString(Seq<u8>),
    Integer(i64),
    Double(Seq<u8>),
    BulkString(Option<Seq<u8>>),
    Boolean(bool),
    Array(Option<Seq<ValueView>>),
    Dictionary(Seq<(ValueView, ValueView)>),
    Unordered(Seq<ValueView>),
    Push(Seq<ValueView>),
    Error(RedisErrorView),
}

/// The views of a sequence of values, item by item.
pub open spec fn views(items: Seq<Value>) -> Seq<ValueView>
    decreases items,
{
    Seq::new(
        items.len(),
        |i: int|
            if 0 <= i < items.len() {
                value_view(items[i])
            } else {
                ValueView::Boolean(false)
            },
    )
}

/// The views of a sequence of pairs, pair by pair.
pub open spec fn pair_views(pairs: Seq<(Value, Value)>) -> Seq<(ValueView, ValueView)>
    decreases pairs,
{
    Seq::new(
        pairs.len(),
        |i: int|
            if 0 <= i < pairs.len() {
                (value_view(pairs[i].0), value_view(pairs[i].1))
            } else {
                (ValueView::Boolean(false), ValueView::Boolean(false))
            },
    )
}

/// The view of one value.
pub open spec fn value_view(v: Value) -> ValueView
    decreases v,
{
    match v {
        Value::SimpleString(s) => ValueView::SimpleString(s@),
        Value::Integer(i) => ValueView::Integer(i),
        Value::Double(t) => ValueView::Double(t@),
        Value::BulkString(Some(b)) => ValueView::BulkString(Some(b@)),
        Value::BulkString(None) => ValueView::BulkString(None),
        Value::Boolean(b) => ValueView::Boolean(b),
        Value::Array(Some(items)) => ValueView::Array(Some(views(items@))),
        Value::Array(None) => ValueView::Array(None),
        Value::Dictionary(pairs) => ValueView::Dictionary(pair_views(pairs@)),
        Value::Unordered(items) => ValueView::Unordered(views(items@)),
        Value::Push(items) => ValueView::Push(views(items@)),
        Value::Error(e) => ValueView::Error(e@),
    }
}

impl View for Value {
    type V = ValueView;

    open spec fn view(&self) -> ValueView {
        value_view(*self)
    }
}

/// The views of a sequence with one more value at its end.
pub proof fn lemma_views_push(items: Seq<Value>, last: Value)
    ensures
        views(items.push(last)) == views(items).push(last@),
{
    assert(views(items.push(last)) =~= views(items).push(last@));
}

/// The views of a sequence with one more pair at its end.
pub proof fn lemma_pair_views_push(pairs: Seq<(Value, Value)>, last: (Value, Value))
    ensures
        pair_views(pairs.push(last)) == pair_views(pairs).push((last.0@, last.1@)),
{
    assert(pair_views(pairs.push(last)) =~= pair_views(pairs).push((last.0@, last.1@)));
}

/// A copy of an error reply.
pub fn duplicate_error(e: &RedisError) -> (r: RedisError)
    ensures
        r@ == e@,
{
    e.duplicate()
}

impl Value {
    /// A copy of the value.
    pub fn duplicate(&self) -> (r: Value)
        ensures
            r@ == self@,
        decreases self,
    {
        match self {
            Value::SimpleString(s) => Value::SimpleString(
                crate::resp::text::copy_bytes(s.as_slice()),
            ),
            Value::Integer(i) => Value::Integer(*i),
            Value::Double(t) => Value::Double(crate::resp::text::copy_bytes(t.as_slice())),
            Value::BulkString(Some(b)) => Value::BulkString(
                Some(crate::resp::text::copy_bytes(b.as_slice())),
            ),
            Value::BulkString(None) => Value::BulkString(None),
            Value::Boolean(b) => Value::Boolean(*b),
            Value::Array(Some(items)) => Value::Array(Some(duplicate_all(items))),
            Value::Array(None) => Value::Array(None),
            Value::Dictionary(pairs) => Value::Dictionary(duplicate_pairs(pairs)),
            Value::Unordered(items) => Value::Unordered(duplicate_all(items)),
            Value::Push(items) => Value::Push(duplicate_all(items)),
            Value::Error(e) => Value::Error(duplicate_error(e)),
        }
    }

    /// Whether the value is an error reply.
    pub fn is_error(&self) -> (r: bool)
        ensures
            r == (self@ is Error),
    {
        match self {
            Value::Error(_) => true,
            _ => false,
        }
    }
}

impl Clone for Value {
    fn clone(&self) -> (r: Value)
        ensures
            r@ == self@,
    {
        self.duplicate()
    }
}

/// Copies of the pairs, in order.
pub fn duplicate_pairs(pairs: &Vec<(Value, Value)>) -> (r: Vec<(Value, Value)>)
    ensures
        pair_views(r@) == pair_views(pairs@),
    decreases pairs,
{
    let mut out: Vec<(Value, Value)> = Vec::new();
    let mut i: usize = 0;
    assert(pair_views(out@) =~= pair_views(pairs@).take(0));
    while i < pairs.len()
        invariant
            i <= pairs.len(),
            pair_views(out@) == pair_views(pairs@).take(i as int),
        decreases pairs.len() - i,
    {
        let entry = &pairs[i];
        let pair = (entry.0.duplicate(), entry.1.duplicate());
        proof {
            lemma_pair_views_push(out@, pair);
            assert(pair_views(pairs@).take(i + 1) =~= pair_views(pairs@).take(i as int).push(
                (pairs@[i as int].0@, pairs@[i as int].1@),
            ));
        }
        out.push(pair);
        i = i + 1;
    }
    assert(pair_views(pairs@).take(pairs.len() as int) =~= pair_views(pairs@));
    out
}

/// Copies of the values, in order.
pub fn duplicate_all(items: &Vec<Value>) -> (r: Vec<Value>)
    ensures
        views(r@) == views(items@),
    decreases items,
{
    let mut out: Vec<Value> = Vec::new();
    let mut i: usize = 0;
    assert(views(out@) =~= views(items@).take(0));
    while i < items.len()
        invariant
            i <= items.len(),
            views(out@) == views(items@).take(i as int),
        decreases items.len() - i,
    {
        let item = items[i].duplicate();
        proof {
            lemma_views_push(out@, item);
            assert(views(items@).take(i + 1) =~= views(items@).take(i as int).push(
                items@[i as int]@,
            ));
        }
        out.push(item);
        i = i + 1;
    }
    assert(views(items@).take(items.len() as int) =~= views(items@));
    out
}

} // verus!
