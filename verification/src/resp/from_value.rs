//! Reading a reply as text, as a number, as a sequence or as a dictionary.

use vstd::prelude::*;
use crate::error::{Error, ErrorView, ParseTarget};
use crate::resp::decimal::{i64_value, parse_i64};
use crate::resp::text::{bytes_eq, bytes_of, copy_bytes};
use crate::resp::value::{duplicate_error, pair_views, views, Value, ValueView};

verus! {

/// The text that a reply stands for: a simple or a bulk string as it is,
/// nil as the empty text.
pub open spec fn text_of(v: ValueView) -> Result<Seq<u8>, ErrorView> {
    match v {
        ValueView::SimpleString(s) => Ok(s),
        ValueView::BulkString(Some(b)) => Ok(b),
        ValueView::BulkString(None) => Ok(Seq::empty()),
        ValueView::Error(e) => Err(ErrorView::Redis(e)),
        _ => Err(ErrorView::Parse(ParseTarget::Text)),
    }
}

/// The number that a reply stands for: an integer as it is, nil as zero, a
/// string as the decimal number written in it.
pub open spec fn integer_of(v: ValueView) -> Result<i64, ErrorView> {
    match v {
        ValueView::Integer(i) => Ok(i),
        ValueView::BulkString(None) => Ok(0),
        ValueView::BulkString(Some(b)) => match i64_value(b) {
            Some(i) => Ok(i),
            None => Err(ErrorView::Parse(ParseTarget::Integer)),
        },
        ValueView::SimpleString(s) => match i64_value(s) {
            Some(i) => Ok(i),
            None => Err(ErrorView::Parse(ParseTarget::Integer)),
        },
        ValueView::Error(e) => Err(ErrorView::Redis(e)),
        _ => Err(ErrorView::Parse(ParseTarget::Integer)),
    }
}

/// The count or position that a reply stands for: its number, where that is
/// not negative and fits the machine word.
pub open spec fn usize_of(v: ValueView) -> Result<usize, ErrorView> {
    match integer_of(v) {
        Ok(i) => if 0 <= i <= usize::MAX {
            Ok(i as usize)
        } else {
            Err(ErrorView::Parse(ParseTarget::Integer))
        },
        Err(e) => Err(e),
    }
}

/// The signed position that a reply stands for: its number, where that fits
/// the machine word.
pub open spec fn isize_of(v: ValueView) -> Result<isize, ErrorView> {
    match integer_of(v) {
        Ok(i) => if isize::MIN <= i <= isize::MAX {
            Ok(i as isize)
        } else {
            Err(ErrorView::Parse(ParseTarget::Integer))
        },
        Err(e) => Err(e),
    }
}

/// The values that a reply holds in a row: those of an array, a set or a
/// push; none for nil.
pub open spec fn items_of(v: ValueView) -> Result<Seq<ValueView>, ErrorView> {
    match v {
        ValueView::Array(Some(items)) => Ok(items),
        ValueView::Array(None) => Ok(Seq::empty()),
        ValueView::BulkString(None) => Ok(Seq::empty()),
        ValueView::Unordered(items) => Ok(items),
        ValueView::Push(items) => Ok(items),
        ValueView::Error(e) => Err(ErrorView::Redis(e)),
        _ => Err(ErrorView::Parse(ParseTarget::Sequence)),
    }
}

/// The values read one by one with `f`, or the error of the first that
/// cannot be read.
pub open spec fn collect<T>(
    items: Seq<ValueView>,
    f: spec_fn(ValueView) -> Result<T, ErrorView>,
) -> Result<Seq<T>, ErrorView>
    decreases items.len(),
{
    if items.len() == 0 {
        Ok(Seq::empty())
    } else {
        match collect(items.drop_last(), f) {
            Err(e) => Err(e),
            Ok(front) => match f(items.last()) {
                Err(e) => Err(e),
                Ok(x) => Ok(front.push(x)),
            },
        }
    }
}

/// Reading one value more: where the ones before it were read, the outcome
/// is theirs with what the next one gives.
pub proof fn lemma_collect_step<T>(
    items: Seq<ValueView>,
    f: spec_fn(ValueView) -> Result<T, ErrorView>,
    k: int,
)
    requires
        0 <= k < items.len(),
    ensures
        collect(items.take(k + 1), f) == match collect(items.take(k), f) {
            Err(e) => Err(e),
            Ok(front) => match f(items[k]) {
                Err(e) => Err(e),
                Ok(x) => Ok(front.push(x)),
            },
        },
{
    assert(items.take(k + 1).drop_last() =~= items.take(k));
}

/// An error met among the first values is the error of the whole.
pub proof fn lemma_collect_error<T>(
    items: Seq<ValueView>,
    f: spec_fn(ValueView) -> Result<T, ErrorView>,
    k: int,
)
    requires
        0 <= k <= items.len(),
        collect(items.take(k), f) is Err,
    ensures
        collect(items, f) == collect(items.take(k), f),
    decreases items.len() - k,
{
    if k < items.len() {
        lemma_collect_step(items, f, k);
        lemma_collect_error(items, f, k + 1);
    } else {
        assert(items.take(k) =~= items);
    }
}

/// The texts that a reply holds in a row.
pub open spec fn texts_of(v: ValueView) -> Result<Seq<Seq<u8>>, ErrorView> {
    match items_of(v) {
        Ok(items) => collect(items, |item: ValueView| text_of(item)),
        Err(e) => Err(e),
    }
}

/// The entries that the values of a flat array stand for: key, value, key,
/// value.
pub open spec fn entries_from_items(items: Seq<ValueView>) -> Result<
    Seq<(Seq<u8>, ValueView)>,
    ErrorView,
>
    decreases items.len(),
{
    if items.len() == 0 {
        Ok(Seq::empty())
    } else if items.len() == 1 {
        Err(ErrorView::Parse(ParseTarget::Dictionary))
    } else {
        match entries_from_items(items.take(items.len() - 2)) {
            Err(e) => Err(e),
            Ok(front) => match text_of(items[items.len() - 2]) {
                Err(e) => Err(e),
                Ok(key) => Ok(front.push((key, items.last()))),
            },
        }
    }
}

/// The entries that the pairs of a map stand for.
pub open spec fn entries_from_pairs(pairs: Seq<(ValueView, ValueView)>) -> Result<
    Seq<(Seq<u8>, ValueView)>,
    ErrorView,
>
    decreases pairs.len(),
{
    if pairs.len() == 0 {
        Ok(Seq::empty())
    } else {
        match entries_from_pairs(pairs.drop_last()) {
            Err(e) => Err(e),
            Ok(front) => match text_of(pairs.last().0) {
                Err(e) => Err(e),
                Ok(key) => Ok(front.push((key, pairs.last().1))),
            },
        }
    }
}

/// The entries of the dictionary that a reply stands for: the pairs of a
/// map, or the values of an array of even length taken two by two; none for
/// nil. Every key is read as text.
pub open spec fn entries_of(v: ValueView) -> Result<Seq<(Seq<u8>, ValueView)>, ErrorView> {
    match v {
        ValueView::Dictionary(pairs) => entries_from_pairs(pairs),
        ValueView::Array(Some(items)) => if items.len() % 2 == 0 {
            entries_from_items(items)
        } else {
            Err(ErrorView::Parse(ParseTarget::Dictionary))
        },
        ValueView::Array(None) => Ok(Seq::empty()),
        ValueView::BulkString(None) => Ok(Seq::empty()),
        ValueView::Error(e) => Err(ErrorView::Redis(e)),
        _ => Err(ErrorView::Parse(ParseTarget::Dictionary)),
    }
}

/// The value of the last entry with the given key.
pub open spec fn field(entries: Seq<(Seq<u8>, ValueView)>, key: Seq<u8>) -> Option<ValueView>
    decreases entries.len(),
{
    if entries.len() == 0 {
        None
    } else if entries.last().0 == key {
        Some(entries.last().1)
    } else {
        field(entries.drop_last(), key)
    }
}

/// The views of entries.
pub open spec fn entry_views(entries: Seq<(Vec<u8>, Value)>) -> Seq<(Seq<u8>, ValueView)> {
    entries.map_values(|e: (Vec<u8>, Value)| (e.0@, e.1@))
}

/// A reply with an error reply turned into an error: what the caller gets
/// who asks for a value.
pub open spec fn result_of(r: Result<ValueView, ErrorView>) -> Result<ValueView, ErrorView> {
    match r {
        Ok(ValueView::Error(e)) => Err(ErrorView::Redis(e)),
        other => other,
    }
}

/// Turns an error reply into an error.
pub fn into_result(r: Result<Value, Error>) -> (out: Result<Value, Error>)
    ensures
        match result_of(
            match r {
                Ok(v) => Ok(v@),
                Err(e) => Err(e@),
            },
        ) {
            Ok(v) => out matches Ok(found) && found@ == v,
            Err(e) => out matches Err(f) && f@ == e,
        },
{
    match r {
        Ok(Value::Error(e)) => Err(Error::Redis(e)),
        other => other,
    }
}

/// Turns an error reply into an error and any other reply into what `op`
/// makes of it.
pub fn map_into_result<T, F: FnOnce(Value) -> T>(r: Result<Value, Error>, op: F) -> (out: Result<
    T,
    Error,
>)
    requires
        r is Ok && !(r->Ok_0 is Error) ==> op.requires((r->Ok_0,)),
    ensures
        match r {
            Ok(Value::Error(e)) => out matches Err(f) && f@ == ErrorView::Redis(e@),
            Ok(v) => out matches Ok(x) && op.ensures((v,), x),
            Err(e) => out matches Err(f) && f@ == e@,
        },
{
    match r {
        Ok(Value::Error(e)) => Err(Error::Redis(e)),
        Ok(v) => Ok(op(v)),
        Err(e) => Err(e),
    }
}

/// Reads a reply as text.
pub fn to_text(value: &Value) -> (r: Result<Vec<u8>, Error>)
    ensures
        match text_of(value@) {
            Ok(t) => r matches Ok(found) && found@ == t,
            Err(e) => r matches Err(f) && f@ == e,
        },
{
    match value {
        Value::SimpleString(s) => Ok(copy_bytes(s.as_slice())),
        Value::BulkString(Some(b)) => Ok(copy_bytes(b.as_slice())),
        Value::BulkString(None) => Ok(Vec::new()),
        Value::Error(e) => Err(Error::Redis(duplicate_error(e))),
        _ => Err(Error::Parse(ParseTarget::Text)),
    }
}

/// Reads a reply as a 64-bit signed number.
pub fn to_integer(value: &Value) -> (r: Result<i64, Error>)
    ensures
        match integer_of(value@) {
            Ok(i) => r matches Ok(found) && found == i,
            Err(e) => r matches Err(f) && f@ == e,
        },
{
    match value {
        Value::Integer(i) => Ok(*i),
        Value::BulkString(None) => Ok(0),
        Value::BulkString(Some(b)) => match parse_i64(b.as_slice()) {
            Some(i) => Ok(i),
            None => Err(Error::Parse(ParseTarget::Integer)),
        },
        Value::SimpleString(s) => match parse_i64(s.as_slice()) {
            Some(i) => Ok(i),
            None => Err(Error::Parse(ParseTarget::Integer)),
        },
        Value::Error(e) => Err(Error::Redis(duplicate_error(e))),
        _ => Err(Error::Parse(ParseTarget::Integer)),
    }
}

/// Reads a reply as a count or a position.
pub fn to_usize(value: &Value) -> (r: Result<usize, Error>)
    ensures
        match usize_of(value@) {
            Ok(i) => r matches Ok(found) && found == i,
            Err(e) => r matches Err(f) && f@ == e,
        },
{
    match to_integer(value) {
        Ok(i) => if 0 <= i && i as u64 <= usize::MAX as u64 {
            Ok(i as usize)
        } else {
            Err(Error::Parse(ParseTarget::Integer))
        },
        Err(e) => Err(e),
    }
}

/// Reads a reply as a signed position.
pub fn to_isize(value: &Value) -> (r: Result<isize, Error>)
    ensures
        match isize_of(value@) {
            Ok(i) => r matches Ok(found) && found == i,
            Err(e) => r matches Err(f) && f@ == e,
        },
{
    match to_integer(value) {
        Ok(i) => if isize::MIN as i64 <= i && i <= isize::MAX as i64 {
            Ok(i as isize)
        } else {
            Err(Error::Parse(ParseTarget::Integer))
        },
        Err(e) => Err(e),
    }
}

/// The values that a reply holds in a row; `None` stands for none.
pub fn to_items(value: &Value) -> (r: Result<Option<&Vec<Value>>, Error>)
    ensures
        match items_of(value@) {
            Ok(items) => r matches Ok(found) && match found {
                Some(v) => views(v@) == items && (*value == Value::Array(Some(*v)) || *value
                    == Value::Unordered(*v) || *value == Value::Push(*v)),
                None => items.len() == 0,
            },
            Err(e) => r matches Err(f) && f@ == e,
        },
{
    match value {
        Value::Array(Some(items)) => Ok(Some(items)),
        Value::Array(None) => Ok(None),
        Value::BulkString(None) => Ok(None),
        Value::Unordered(items) => Ok(Some(items)),
        Value::Push(items) => Ok(Some(items)),
        Value::Error(e) => Err(Error::Redis(duplicate_error(e))),
        _ => Err(Error::Parse(ParseTarget::Sequence)),
    }
}

/// Reads a reply as texts in a row.
pub fn to_texts(value: &Value) -> (r: Result<Vec<Vec<u8>>, Error>)
    ensures
        match texts_of(value@) {
            Ok(t) => r matches Ok(found) && crate::resp::command::byte_strings(found@) == t,
            Err(e) => r matches Err(f) && f@ == e,
        },
{
    let items = match to_items(value) {
        Ok(Some(items)) => items,
        Ok(None) => {
            let out: Vec<Vec<u8>> = Vec::new();
            assert(crate::resp::command::byte_strings(out@) =~= Seq::<Seq<u8>>::empty());
            return Ok(out);
        },
        Err(e) => {
            return Err(e);
        },
    };
    let ghost all = views(items@);
    let ghost f = |item: ValueView| text_of(item);
    let mut out: Vec<Vec<u8>> = Vec::new();
    let mut i: usize = 0;
    assert(all.take(0) =~= Seq::<ValueView>::empty());
    assert(crate::resp::command::byte_strings(out@) =~= Seq::<Seq<u8>>::empty());
    while i < items.len()
        invariant
            i <= items.len(),
            all == views(items@),
            items_of(value@) == Ok::<Seq<ValueView>, ErrorView>(all),
            f == (|item: ValueView| text_of(item)),
            collect(all.take(i as int), f) == Ok::<Seq<Seq<u8>>, ErrorView>(
                crate::resp::command::byte_strings(out@),
            ),
        decreases items.len() - i,
    {
        proof {
            lemma_collect_step(all, f, i as int);
        }
        match to_text(&items[i]) {
            Ok(text) => {
                proof {
                    crate::resp::command::lemma_byte_strings_push(out@, text);
                }
                out.push(text);
            },
            Err(e) => {
                proof {
                    lemma_collect_error(all, f, i + 1);
                }
                return Err(e);
            },
        }
        i = i + 1;
    }
    assert(all.take(items.len() as int) =~= all);
    Ok(out)
}

/// Reads a reply as the entries of a dictionary.
pub fn to_entries(value: &Value) -> (r: Result<Vec<(Vec<u8>, Value)>, Error>)
    ensures
        match entries_of(value@) {
            Ok(entries) => r matches Ok(found) && entry_views(found@) == entries,
            Err(e) => r matches Err(f) && f@ == e,
        },
{
    let mut out: Vec<(Vec<u8>, Value)> = Vec::new();
    assert(entry_views(out@) =~= Seq::<(Seq<u8>, ValueView)>::empty());
    match value {
        Value::Dictionary(pairs) => {
            let ghost all = pair_views(pairs@);
            let mut i: usize = 0;
            assert(all.take(0) =~= Seq::<(ValueView, ValueView)>::empty());
            while i < pairs.len()
                invariant
                    i <= pairs.len(),
                    all == pair_views(pairs@),
                    value@ == ValueView::Dictionary(all),
                    entries_from_pairs(all.take(i as int)) == Ok::<
                        Seq<(Seq<u8>, ValueView)>,
                        ErrorView,
                    >(entry_views(out@)),
                decreases pairs.len() - i,
            {
                proof {
                    assert(all.take(i + 1).drop_last() =~= all.take(i as int));
                }
                match to_text(&pairs[i].0) {
                    Ok(key) => {
                        let entry = (key, pairs[i].1.duplicate());
                        assert(entry_views(out@.push(entry)) =~= entry_views(out@).push(
                            (entry.0@, entry.1@),
                        ));
                        out.push(entry);
                    },
                    Err(e) => {
                        proof {
                            lemma_pairs_error(all, i + 1);
                        }
                        return Err(e);
                    },
                }
                i = i + 1;
            }
            assert(all.take(pairs.len() as int) =~= all);
            Ok(out)
        },
        Value::Array(Some(items)) => {
            if items.len() % 2 != 0 {
                return Err(Error::Parse(ParseTarget::Dictionary));
            }
            let ghost all = views(items@);
            let mut i: usize = 0;
            assert(all.take(0) =~= Seq::<ValueView>::empty());
            while i < items.len()
                invariant
                    i <= items.len(),
                    i % 2 == 0,
                    items.len() % 2 == 0,
                    all == views(items@),
                    value@ == ValueView::Array(Some(all)),
                    entries_from_items(all.take(i as int)) == Ok::<
                        Seq<(Seq<u8>, ValueView)>,
                        ErrorView,
                    >(entry_views(out@)),
                decreases items.len() - i,
            {
                proof {
                    let next = all.take(i + 2);
                    assert(next.take(next.len() - 2) =~= all.take(i as int));
                }
                match to_text(&items[i]) {
                    Ok(key) => {
                        let entry = (key, items[i + 1].duplicate());
                        assert(entry_views(out@.push(entry)) =~= entry_views(out@).push(
                            (entry.0@, entry.1@),
                        ));
                        out.push(entry);
                    },
                    Err(e) => {
                        proof {
                            lemma_items_error(all, i + 2);
                        }
                        return Err(e);
                    },
                }
                i = i + 2;
            }
            assert(all.take(items.len() as int) =~= all);
            Ok(out)
        },
        Value::Array(None) => Ok(out),
        Value::BulkString(None) => Ok(out),
        Value::Error(e) => Err(Error::Redis(duplicate_error(e))),
        _ => Err(Error::Parse(ParseTarget::Dictionary)),
    }
}

/// An error met among the first pairs is the error of the whole.
pub proof fn lemma_pairs_error(pairs: Seq<(ValueView, ValueView)>, k: int)
    requires
        0 <= k <= pairs.len(),
        entries_from_pairs(pairs.take(k)) is Err,
    ensures
        entries_from_pairs(pairs) == entries_from_pairs(pairs.take(k)),
    decreases pairs.len() - k,
{
    if k < pairs.len() {
        assert(pairs.take(k + 1).drop_last() =~= pairs.take(k));
        lemma_pairs_error(pairs, k + 1);
    } else {
        assert(pairs.take(k) =~= pairs);
    }
}

/// An error met among the first values of a flat array is the error of the
/// whole.
pub proof fn lemma_items_error(items: Seq<ValueView>, k: int)
    requires
        0 <= k <= items.len(),
        k % 2 == 0,
        items.len() % 2 == 0,
        entries_from_items(items.take(k)) is Err,
    ensures
        entries_from_items(items) == entries_from_items(items.take(k)),
    decreases items.len() - k,
{
    if k < items.len() {
        let next = items.take(k + 2);
        assert(next.take(next.len() - 2) =~= items.take(k));
        lemma_items_error(items, k + 2);
    } else {
        assert(items.take(k) =~= items);
    }
}

/// The value of the last entry with the given key.
pub fn lookup<'a>(entries: &'a Vec<(Vec<u8>, Value)>, key: &str) -> (r: Option<&'a Value>)
    ensures
        match field(entry_views(entries@), bytes_of(key)) {
            Some(v) => r matches Some(found) && found@ == v,
            None => r is None,
        },
{
    let ghost all = entry_views(entries@);
    let mut i: usize = entries.len();
    assert(all.take(i as int) =~= all);
    while i > 0
        invariant
            i <= entries.len(),
            all == entry_views(entries@),
            field(all, bytes_of(key)) == field(all.take(i as int), bytes_of(key)),
        decreases i,
    {
        proof {
            assert(all.take(i as int).drop_last() =~= all.take(i - 1));
        }
        if bytes_eq(entries[i - 1].0.as_slice(), key.as_bytes()) {
            return Some(&entries[i - 1].1);
        }
        i = i - 1;
    }
    None
}

} // verus!
