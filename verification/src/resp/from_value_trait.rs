//! Reading a reply as a value of the type that the caller asks for.

use vstd::prelude::*;
use crate::error::{Error, ErrorView, ParseTarget};
use crate::resp::command::Command;
use crate::resp::from_value::{
    integer_of, isize_of, items_of, text_of, to_integer, to_isize, to_items, to_text, to_usize,
    usize_of,
};
use crate::resp::value::{views, Value, ValueView};

verus! {

/// A type that a reply can be read as.
pub trait FromValue: Sized + DeepView {
    /// What a reply is read as.
    spec fn read(v: ValueView) -> Result<Self::V, ErrorView>;

    /// The number of values that one item of this type takes from a row of
    /// values that starts with `first`.
    spec fn width(first: ValueView) -> nat;

    /// What the values that one item takes are read as.
    spec fn read_run(run: Seq<ValueView>) -> Result<Self::V, ErrorView>;

    /// Reads a reply.
    fn from_value(value: Value) -> (r: Result<Self, Error>)
        ensures
            match Self::read(value@) {
                Ok(x) => r matches Ok(found) && found.deep_view() == x,
                Err(e) => r matches Err(f) && f@ == e,
            },
    ;

    /// Reads the reply to a command; the command is of no account.
    fn from_value_with_command(value: Value, command: &Command) -> (r: Result<Self, Error>)
        ensures
            match Self::read(value@) {
                Ok(x) => r matches Ok(found) && found.deep_view() == x,
                Err(e) => r matches Err(f) && f@ == e,
            },
    ;

    /// Reads a reply that stays with the caller.
    fn read_from(value: &Value) -> (r: Result<Self, Error>)
        ensures
            match Self::read(value@) {
                Ok(x) => r matches Ok(found) && found.deep_view() == x,
                Err(e) => r matches Err(f) && f@ == e,
            },
    ;

    /// The number of values that one item takes from a row that starts with
    /// `first`: at least one.
    fn run_len(first: &Value) -> (n: usize)
        ensures
            n == Self::width(first@),
            n >= 1,
    ;

    /// Reads one item from the values of a row from `pos` on.
    fn from_run(items: &Vec<Value>, pos: usize) -> (r: Result<Self, Error>)
        requires
            pos < items@.len(),
            pos + Self::width(items@[pos as int]@) <= items@.len(),
        ensures
            match Self::read_run(
                views(items@).subrange(pos as int, pos + Self::width(items@[pos as int]@)),
            ) {
                Ok(x) => r matches Ok(found) && found.deep_view() == x,
                Err(e) => r matches Err(f) && f@ == e,
            },
    ;
}

impl DeepView for Value {
    type V = ValueView;

    open spec fn deep_view(&self) -> ValueView {
        self@
    }
}

impl Value {
    /// Reads the value as the type that the caller asks for.
    pub fn into<T: FromValue>(self) -> (r: Result<T, Error>)
        ensures
            match T::read(self@) {
                Ok(x) => r matches Ok(found) && found.deep_view() == x,
                Err(e) => r matches Err(f) && f@ == e,
            },
    {
        T::from_value(self)
    }

    /// Reads the value, the reply to a command, as the type that the caller
    /// asks for.
    pub fn into_with_command<T: FromValue>(self, command: &Command) -> (r: Result<T, Error>)
        ensures
            match T::read(self@) {
                Ok(x) => r matches Ok(found) && found.deep_view() == x,
                Err(e) => r matches Err(f) && f@ == e,
            },
    {
        T::from_value_with_command(self, command)
    }
}

impl FromValue for Value {
    open spec fn read(v: ValueView) -> Result<ValueView, ErrorView> {
        Ok(v)
    }

    open spec fn width(first: ValueView) -> nat {
        1
    }

    open spec fn read_run(run: Seq<ValueView>) -> Result<ValueView, ErrorView> {
        Ok(run[0])
    }

    fn from_value(value: Value) -> (r: Result<Value, Error>) {
        Ok(value)
    }

    fn from_value_with_command(value: Value, command: &Command) -> (r: Result<Value, Error>) {
        Ok(value)
    }

    fn read_from(value: &Value) -> (r: Result<Value, Error>) {
        Ok(value.duplicate())
    }

    fn run_len(first: &Value) -> (n: usize) {
        1
    }

    fn from_run(items: &Vec<Value>, pos: usize) -> (r: Result<Value, Error>) {
        assert(views(items@).subrange(pos as int, pos + 1)[0] == items@[pos as int]@);
        Ok(items[pos].duplicate())
    }
}

impl FromValue for i64 {
    open spec fn read(v: ValueView) -> Result<i64, ErrorView> {
        integer_of(v)
    }

    open spec fn width(first: ValueView) -> nat {
        1
    }

    open spec fn read_run(run: Seq<ValueView>) -> Result<i64, ErrorView> {
        integer_of(run[0])
    }

    fn from_value(value: Value) -> (r: Result<i64, Error>) {
        to_integer(&value)
    }

    fn from_value_with_command(value: Value, command: &Command) -> (r: Result<i64, Error>) {
        to_integer(&value)
    }

    fn read_from(value: &Value) -> (r: Result<i64, Error>) {
        to_integer(value)
    }

    fn run_len(first: &Value) -> (n: usize) {
        1
    }

    fn from_run(items: &Vec<Value>, pos: usize) -> (r: Result<i64, Error>) {
        assert(views(items@).subrange(pos as int, pos + 1)[0] == items@[pos as int]@);
        to_integer(&items[pos])
    }
}

impl FromValue for usize {
    open spec fn read(v: ValueView) -> Result<usize, ErrorView> {
        usize_of(v)
    }

    open spec fn width(first: ValueView) -> nat {
        1
    }

    open spec fn read_run(run: Seq<ValueView>) -> Result<usize, ErrorView> {
        usize_of(run[0])
    }

    fn from_value(value: Value) -> (r: Result<usize, Error>) {
        to_usize(&value)
    }

    fn from_value_with_command(value: Value, command: &Command) -> (r: Result<usize, Error>) {
        to_usize(&value)
    }

    fn read_from(value: &Value) -> (r: Result<usize, Error>) {
        to_usize(value)
    }

    fn run_len(first: &Value) -> (n: usize) {
        1
    }

    fn from_run(items: &Vec<Value>, pos: usize) -> (r: Result<usize, Error>) {
        assert(views(items@).subrange(pos as int, pos + 1)[0] == items@[pos as int]@);
        to_usize(&items[pos])
    }
}

impl FromValue for isize {
    open spec fn read(v: ValueView) -> Result<isize, ErrorView> {
        isize_of(v)
    }

    open spec fn width(first: ValueView) -> nat {
        1
    }

    open spec fn read_run(run: Seq<ValueView>) -> Result<isize, ErrorView> {
        isize_of(run[0])
    }

    fn from_value(value: Value) -> (r: Result<isize, Error>) {
        to_isize(&value)
    }

    fn from_value_with_command(value: Value, command: &Command) -> (r: Result<isize, Error>) {
        to_isize(&value)
    }

    fn read_from(value: &Value) -> (r: Result<isize, Error>) {
        to_isize(value)
    }

    fn run_len(first: &Value) -> (n: usize) {
        1
    }

    fn from_run(items: &Vec<Value>, pos: usize) -> (r: Result<isize, Error>) {
        assert(views(items@).subrange(pos as int, pos + 1)[0] == items@[pos as int]@);
        to_isize(&items[pos])
    }
}

impl FromValue for Vec<u8> {
    open spec fn read(v: ValueView) -> Result<Seq<u8>, ErrorView> {
        text_of(v)
    }

    open spec fn width(first: ValueView) -> nat {
        1
    }

    open spec fn read_run(run: Seq<ValueView>) -> Result<Seq<u8>, ErrorView> {
        text_of(run[0])
    }

    fn from_value(value: Value) -> (r: Result<Vec<u8>, Error>) {
        Self::read_from(&value)
    }

    fn from_value_with_command(value: Value, command: &Command) -> (r: Result<Vec<u8>, Error>) {
        Self::read_from(&value)
    }

    fn read_from(value: &Value) -> (r: Result<Vec<u8>, Error>) {
        match to_text(value) {
            Ok(bytes) => {
                assert(bytes.deep_view() =~= bytes@);
                Ok(bytes)
            },
            Err(e) => Err(e),
        }
    }

    fn run_len(first: &Value) -> (n: usize) {
        1
    }

    fn from_run(items: &Vec<Value>, pos: usize) -> (r: Result<Vec<u8>, Error>) {
        assert(views(items@).subrange(pos as int, pos + 1)[0] == items@[pos as int]@);
        Self::read_from(&items[pos])
    }
}

/// `String::from_utf8` of std: the string that the bytes encode, where they
/// are valid UTF-8; no string where they are not.
#[verifier::external_body]
pub(crate) fn string_from_utf8(bytes: Vec<u8>) -> (r: Option<String>)
    ensures
        match r {
            Some(s) => vstd::utf8::valid_utf8(bytes@) && s@ == vstd::utf8::decode_utf8(bytes@),
            None => !vstd::utf8::valid_utf8(bytes@),
        },
{
    String::from_utf8(bytes).ok()
}

/// The string that a reply stands for: its text, which has to be valid
/// UTF-8.
pub open spec fn string_of(v: ValueView) -> Result<Seq<char>, ErrorView> {
    match text_of(v) {
        Err(e) => Err(e),
        Ok(bytes) => if vstd::utf8::valid_utf8(bytes) {
            Ok(vstd::utf8::decode_utf8(bytes))
        } else {
            Err(ErrorView::Parse(ParseTarget::Text))
        },
    }
}

/// Reads a reply as a string.
pub fn to_string(value: &Value) -> (r: Result<String, Error>)
    ensures
        match string_of(value@) {
            Ok(s) => r matches Ok(found) && found@ == s,
            Err(e) => r matches Err(f) && f@ == e,
        },
{
    match to_text(value) {
        Err(e) => Err(e),
        Ok(bytes) => match string_from_utf8(bytes) {
            Some(s) => Ok(s),
            None => Err(Error::Parse(ParseTarget::Text)),
        },
    }
}

impl FromValue for String {
    open spec fn read(v: ValueView) -> Result<Seq<char>, ErrorView> {
        string_of(v)
    }

    open spec fn width(first: ValueView) -> nat {
        1
    }

    open spec fn read_run(run: Seq<ValueView>) -> Result<Seq<char>, ErrorView> {
        string_of(run[0])
    }

    fn from_value(value: Value) -> (r: Result<String, Error>) {
        to_string(&value)
    }

    fn from_value_with_command(value: Value, command: &Command) -> (r: Result<String, Error>) {
        to_string(&value)
    }

    fn read_from(value: &Value) -> (r: Result<String, Error>) {
        to_string(value)
    }

    fn run_len(first: &Value) -> (n: usize) {
        1
    }

    fn from_run(items: &Vec<Value>, pos: usize) -> (r: Result<String, Error>) {
        assert(views(items@).subrange(pos as int, pos + 1)[0] == items@[pos as int]@);
        to_string(&items[pos])
    }
}

/// Two results as the result of a pair: the first error where there is
/// one.
pub open spec fn paired<A, B>(a: Result<A, ErrorView>, b: Result<B, ErrorView>) -> Result<
    (A, B),
    ErrorView,
> {
    match (a, b) {
        (Err(e), _) => Err(e),
        (Ok(_), Err(e)) => Err(e),
        (Ok(x), Ok(y)) => Ok((x, y)),
    }
}

impl<A: FromValue, B: FromValue> FromValue for (A, B) {
    open spec fn read(v: ValueView) -> Result<(A::V, B::V), ErrorView> {
        match items_of(v) {
            Err(e) => Err(e),
            Ok(items) => if items.len() == 2 {
                paired(A::read(items[0]), B::read(items[1]))
            } else {
                Err(ErrorView::Parse(ParseTarget::Pair))
            },
        }
    }

    open spec fn width(first: ValueView) -> nat {
        if first is Array {
            1
        } else {
            2
        }
    }

    open spec fn read_run(run: Seq<ValueView>) -> Result<(A::V, B::V), ErrorView> {
        if run.len() == 1 {
            Self::read(run[0])
        } else {
            paired(A::read(run[0]), B::read(run[1]))
        }
    }

    fn from_value(value: Value) -> (r: Result<(A, B), Error>) {
        Self::read_from(&value)
    }

    fn from_value_with_command(value: Value, command: &Command) -> (r: Result<(A, B), Error>) {
        Self::read_from(&value)
    }

    fn read_from(value: &Value) -> (r: Result<(A, B), Error>) {
        let items = match to_items(value) {
            Ok(Some(items)) => items,
            Ok(None) => {
                return Err(Error::Parse(ParseTarget::Pair));
            },
            Err(e) => {
                return Err(e);
            },
        };
        if items.len() != 2 {
            return Err(Error::Parse(ParseTarget::Pair));
        }
        assert(views(items@)[0] == items@[0]@);
        assert(views(items@)[1] == items@[1]@);
        let a = match A::read_from(&items[0]) {
            Ok(a) => a,
            Err(e) => {
                return Err(e);
            },
        };
        let b = match B::read_from(&items[1]) {
            Ok(b) => b,
            Err(e) => {
                return Err(e);
            },
        };
        Ok((a, b))
    }

    fn run_len(first: &Value) -> (n: usize) {
        match first {
            Value::Array(_) => 1,
            _ => 2,
        }
    }

    fn from_run(items: &Vec<Value>, pos: usize) -> (r: Result<(A, B), Error>) {
        let ghost w = Self::width(items@[pos as int]@);
        let ghost run = views(items@).subrange(pos as int, pos + w);
        let count = items.len();
        assert(run[0] == items@[pos as int]@);
        match &items[pos] {
            Value::Array(_) => Self::read_from(&items[pos]),
            _ => {
                assert(pos + 2 <= count);
                assert(run[1] == items@[pos + 1]@);
                let a = match A::read_from(&items[pos]) {
                    Ok(a) => a,
                    Err(e) => {
                        return Err(e);
                    },
                };
                let b = match B::read_from(&items[pos + 1]) {
                    Ok(b) => b,
                    Err(e) => {
                        return Err(e);
                    },
                };
                Ok((a, b))
            },
        }
    }
}

/// The items that the values from `pos` on are read as, one after the
/// other; a row that ends within an item cannot be read.
pub open spec fn read_row<T: FromValue>(items: Seq<ValueView>, pos: int) -> Result<
    Seq<T::V>,
    ErrorView,
>
    decreases items.len() - pos,
{
    if pos < 0 || pos >= items.len() {
        Ok(Seq::empty())
    } else {
        let w = T::width(items[pos]);
        if w < 1 || pos + w > items.len() {
            Err(ErrorView::Parse(ParseTarget::Sequence))
        } else {
            match T::read_run(items.subrange(pos, pos + w)) {
                Err(e) => Err(e),
                Ok(x) => match read_row::<T>(items, pos + w) {
                    Err(e) => Err(e),
                    Ok(rest) => Ok(seq![x] + rest),
                },
            }
        }
    }
}

impl<T: FromValue> FromValue for Vec<T> {
    open spec fn read(v: ValueView) -> Result<Seq<T::V>, ErrorView> {
        match items_of(v) {
            Ok(items) => read_row::<T>(items, 0),
            Err(e) => Err(e),
        }
    }

    open spec fn width(first: ValueView) -> nat {
        1
    }

    open spec fn read_run(run: Seq<ValueView>) -> Result<Seq<T::V>, ErrorView> {
        Self::read(run[0])
    }

    fn from_value(value: Value) -> (r: Result<Vec<T>, Error>) {
        Self::read_from(&value)
    }

    fn from_value_with_command(value: Value, command: &Command) -> (r: Result<Vec<T>, Error>) {
        Self::read_from(&value)
    }

    fn read_from(value: &Value) -> (r: Result<Vec<T>, Error>) {
        let mut out: Vec<T> = Vec::new();
        let items = match to_items(value) {
            Ok(Some(items)) => items,
            Ok(None) => {
                assert(out.deep_view() =~= Seq::<T::V>::empty());
                return Ok(out);
            },
            Err(e) => {
                return Err(e);
            },
        };
        let ghost all = views(items@);
        let mut pos: usize = 0;
        assert(out.deep_view() =~= Seq::<T::V>::empty());
        while pos < items.len()
            invariant
                pos <= items.len(),
                all == views(items@),
                items_of(value@) == Ok::<Seq<ValueView>, ErrorView>(all),
                read_row::<T>(all, 0) == match read_row::<T>(all, pos as int) {
                    Ok(rest) => Ok::<Seq<T::V>, ErrorView>(out.deep_view() + rest),
                    Err(e) => Err(e),
                },
            decreases items.len() - pos,
        {
            assert(all[pos as int] == items@[pos as int]@);
            let w = T::run_len(&items[pos]);
            if w > items.len() - pos {
                return Err(Error::Parse(ParseTarget::Sequence));
            }
            match T::from_run(items, pos) {
                Ok(item) => {
                    let ghost before = out.deep_view();
                    let ghost x = item.deep_view();
                    out.push(item);
                    proof {
                        assert(out.deep_view() =~= before.push(x));
                        if let Ok(rest) = read_row::<T>(all, pos + w) {
                            assert(before.push(x) + rest =~= before + (seq![x] + rest));
                        }
                    }
                },
                Err(e) => {
                    return Err(e);
                },
            }
            pos = pos + w;
        }
        proof {
            assert(out.deep_view() + Seq::<T::V>::empty() =~= out.deep_view());
        }
        Ok(out)
    }

    fn run_len(first: &Value) -> (n: usize) {
        1
    }

    fn from_run(items: &Vec<Value>, pos: usize) -> (r: Result<Vec<T>, Error>) {
        assert(views(items@).subrange(pos as int, pos + 1)[0] == items@[pos as int]@);
        Self::read_from(&items[pos])
    }
}

/// Reads the values of a row as items of one type, one after the other.
pub struct ValueIterator<T: FromValue> {
    pub items: Vec<Value>,
    pub pos: usize,
    pub phantom: core::marker::PhantomData<T>,
}

impl<T: FromValue> ValueIterator<T> {
    /// An iterator that stands before the first of the values.
    pub fn new(items: Vec<Value>) -> (r: ValueIterator<T>)
        ensures
            r.items == items,
            r.pos == 0,
    {
        ValueIterator { items, pos: 0, phantom: core::marker::PhantomData }
    }

    /// Reads the next item and steps over the values that it takes. `None`
    /// says that no value is left. A row that ends within an item gives an
    /// error and ends the iteration.
    pub fn next(&mut self) -> (r: Option<Result<T, Error>>)
        ensures
            final(self).items == old(self).items,
            old(self).pos >= old(self).items@.len() ==> r is None && final(self).pos == old(
                self,
            ).pos,
            old(self).pos < old(self).items@.len() ==> ({
                let items = views(old(self).items@);
                let pos = old(self).pos as int;
                let w = T::width(items[pos]);
                if pos + w > items.len() {
                    &&& r matches Some(Err(e))
                    &&& e@ == ErrorView::Parse(ParseTarget::Sequence)
                    &&& final(self).pos == items.len()
                } else {
                    &&& final(self).pos == pos + w
                    &&& match T::read_run(items.subrange(pos, pos + w)) {
                        Ok(x) => r matches Some(Ok(found)) && found.deep_view() == x,
                        Err(e) => r matches Some(Err(f)) && f@ == e,
                    }
                }
            }),
    {
        if self.pos >= self.items.len() {
            return None;
        }
        assert(views(self.items@)[self.pos as int] == self.items@[self.pos as int]@);
        let w = T::run_len(&self.items[self.pos]);
        if w > self.items.len() - self.pos {
            self.pos = self.items.len();
            return Some(Err(Error::Parse(ParseTarget::Sequence)));
        }
        let item = T::from_run(&self.items, self.pos);
        self.pos = self.pos + w;
        Some(item)
    }
}

} // verus!
