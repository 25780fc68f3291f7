//! A value as text to read: strings and numbers as they are, the items of a
//! container between brackets, nil as `Nil`.

use vstd::prelude::*;
use crate::resp::decimal::{decimal, push_decimal};
use crate::resp::text::{bytes_of, push_bytes, COLON, SPACE};
use crate::resp::value::{pair_views, views, Value, ValueView};
use crate::resp::value_encoder::encode_error_line;
use crate::resp::wire::error_line;

verus! {

/// The byte `[`.
pub const LIST_OPEN: u8 = 91;

/// The byte `]`.
pub const LIST_CLOSE: u8 = 93;

/// The byte `{`.
pub const MAP_OPEN: u8 = 123;

/// The byte `}`.
pub const MAP_CLOSE: u8 = 125;

/// The byte `,`.
pub const COMMA: u8 = 44;

/// What stands between two items: a comma and a space.
pub open spec fn separator() -> Seq<u8> {
    seq![COMMA, SPACE]
}

/// The text of a value. A string is its bytes, a number its decimal text, a
/// boolean `true` or `false`, nil `Nil`. An array, a set and a push message
/// are the texts of their items between `[` and `]`, a map is its entries,
/// each as `key: value`, between `{` and `}`; a comma and a space stand
/// between two items. An error is its kind and its description.
pub open spec fn shown(v: ValueView) -> Seq<u8>
    decreases v,
{
    match v {
        ValueView::SimpleString(s) => s,
        ValueView::Integer(i) => decimal(i as int),
        ValueView::Double(t) => t,
        ValueView::BulkString(Some(b)) => b,
        ValueView::BulkString(None) => bytes_of("Nil"),
        ValueView::Boolean(b) => if b {
            bytes_of("true")
        } else {
            bytes_of("false")
        },
        ValueView::Array(Some(items)) => seq![LIST_OPEN] + shown_items(items) + seq![LIST_CLOSE],
        ValueView::Array(None) => bytes_of("Nil"),
        ValueView::Dictionary(pairs) => seq![MAP_OPEN] + shown_pairs(pairs) + seq![MAP_CLOSE],
        ValueView::Unordered(items) => seq![LIST_OPEN] + shown_items(items) + seq![LIST_CLOSE],
        ValueView::Push(items) => seq![LIST_OPEN] + shown_items(items) + seq![LIST_CLOSE],
        ValueView::Error(e) => error_line(e),
    }
}

/// The texts of values in a row, with a separator between two of them.
pub open spec fn shown_items(items: Seq<ValueView>) -> Seq<u8>
    decreases items,
{
    if items.len() == 0 {
        Seq::empty()
    } else if items.len() == 1 {
        shown(items[0])
    } else {
        shown_items(items.drop_last()) + separator() + shown(items.last())
    }
}

/// The text of one entry of a map: the key, a colon, a space, the value.
pub open spec fn shown_pair(pair: (ValueView, ValueView)) -> Seq<u8>
    decreases pair,
{
    shown(pair.0) + seq![COLON, SPACE] + shown(pair.1)
}

/// The texts of the entries of a map, with a separator between two of them.
pub open spec fn shown_pairs(pairs: Seq<(ValueView, ValueView)>) -> Seq<u8>
    decreases pairs,
{
    if pairs.len() == 0 {
        Seq::empty()
    } else if pairs.len() == 1 {
        shown_pair(pairs[0])
    } else {
        shown_pairs(pairs.drop_last()) + separator() + shown_pair(pairs.last())
    }
}

/// Appends the texts of the values to `out`, with a separator between two
/// of them.
pub fn show_items(items: &Vec<Value>, out: &mut Vec<u8>)
    ensures
        final(out)@ == old(out)@ + shown_items(views(items@)),
    decreases items, 0int,
{
    let ghost all = views(items@);
    let mut i: usize = 0;
    assert(old(out)@ + shown_items(all.take(0)) =~= old(out)@);
    while i < items.len()
        invariant
            i <= items.len(),
            all == views(items@),
            out@ == old(out)@ + shown_items(all.take(i as int)),
        decreases items.len() - i,
    {
        let ghost before = out@;
        if i > 0 {
            out.push(COMMA);
            out.push(SPACE);
        }
        items[i].show(out);
        proof {
            assert(all.take(i + 1).drop_last() =~= all.take(i as int));
            assert(all.take(i + 1).last() == items@[i as int]@);
            if i > 0 {
                assert(out@ =~= before + separator() + shown(items@[i as int]@));
            } else {
                assert(all.take(1)[0] == items@[0]@);
            }
            assert(out@ =~= old(out)@ + shown_items(all.take(i + 1)));
        }
        i = i + 1;
    }
    assert(all.take(items.len() as int) =~= all);
}

/// Appends the texts of the entries to `out`, with a separator between two
/// of them.
pub fn show_pairs(pairs: &Vec<(Value, Value)>, out: &mut Vec<u8>)
    ensures
        final(out)@ == old(out)@ + shown_pairs(pair_views(pairs@)),
    decreases pairs,
{
    let ghost all = pair_views(pairs@);
    let mut i: usize = 0;
    assert(old(out)@ + shown_pairs(all.take(0)) =~= old(out)@);
    while i < pairs.len()
        invariant
            i <= pairs.len(),
            all == pair_views(pairs@),
            out@ == old(out)@ + shown_pairs(all.take(i as int)),
        decreases pairs.len() - i,
    {
        let ghost before = out@;
        if i > 0 {
            out.push(COMMA);
            out.push(SPACE);
        }
        let ghost start = out@;
        let pair = &pairs[i];
        pair.0.show(out);
        out.push(COLON);
        out.push(SPACE);
        pair.1.show(out);
        proof {
            assert(all.take(i + 1).drop_last() =~= all.take(i as int));
            assert(all.take(i + 1).last() == all[i as int]);
            assert(all[i as int] == (pair.0@, pair.1@));
            assert(out@ =~= start + shown_pair(all[i as int]));
            if i > 0 {
                assert(out@ =~= before + separator() + shown_pair(all[i as int]));
            } else {
                assert(all.take(1)[0] == all[0]);
            }
            assert(out@ =~= old(out)@ + shown_pairs(all.take(i + 1)));
        }
        i = i + 1;
    }
    assert(all.take(pairs.len() as int) =~= all);
}

/// Appends the text of the items of a container to `out`, between `[` and
/// `]`.
fn show_list(items: &Vec<Value>, out: &mut Vec<u8>)
    ensures
        final(out)@ == old(out)@ + (seq![LIST_OPEN] + shown_items(views(items@)) + seq![
            LIST_CLOSE,
        ]),
    decreases items, 1int,
{
    out.push(LIST_OPEN);
    show_items(items, out);
    out.push(LIST_CLOSE);
    assert(out@ =~= old(out)@ + (seq![LIST_OPEN] + shown_items(views(items@)) + seq![LIST_CLOSE]));
}

impl Value {
    /// Appends the text of the value to `out`.
    pub fn show(&self, out: &mut Vec<u8>)
        ensures
            final(out)@ == old(out)@ + shown(self@),
        decreases self,
    {
        match self {
            Value::SimpleString(s) => push_bytes(out, s.as_slice()),
            Value::Integer(i) => push_decimal(out, *i),
            Value::Double(t) => push_bytes(out, t.as_slice()),
            Value::BulkString(Some(b)) => push_bytes(out, b.as_slice()),
            Value::BulkString(None) => push_bytes(out, "Nil".as_bytes()),
            Value::Boolean(b) => if *b {
                push_bytes(out, "true".as_bytes())
            } else {
                push_bytes(out, "false".as_bytes())
            },
            Value::Array(Some(items)) => show_list(items, out),
            Value::Array(None) => push_bytes(out, "Nil".as_bytes()),
            Value::Dictionary(pairs) => {
                out.push(MAP_OPEN);
                show_pairs(pairs, out);
                out.push(MAP_CLOSE);
                assert(out@ =~= old(out)@ + (seq![MAP_OPEN] + shown_pairs(pair_views(pairs@))
                    + seq![MAP_CLOSE]));
            },
            Value::Unordered(items) => show_list(items, out),
            Value::Push(items) => show_list(items, out),
            Value::Error(e) => encode_error_line(e, out),
        }
    }

    /// The text of the value.
    pub fn display(&self) -> (r: Vec<u8>)
        ensures
            r@ == shown(self@),
    {
        let mut out: Vec<u8> = Vec::new();
        self.show(&mut out);
        assert(out@ =~= shown(self@));
        out
    }
}

} // verus!
