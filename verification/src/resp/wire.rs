//! The grammar of RESP frames: what a run of bytes, read from a position,
//! holds as a value.

use vstd::prelude::*;
use crate::error::{ProtocolFault, RedisErrorKindView, RedisErrorView};
use crate::resp::decimal::{decimal_value, i64_value};
use crate::resp::text::{bytes_of, find_byte, rfind_byte, COLON, CR, LF, SPACE};
use crate::resp::value::ValueView;

verus! {

/// `+`: a simple string.
pub const TAG_SIMPLE: u8 = 43;

/// `-`: an error.
pub const TAG_ERROR: u8 = 45;

/// `:`: an integer.
pub const TAG_INTEGER: u8 = 58;

/// `,`: a double.
pub const TAG_DOUBLE: u8 = 44;

/// `$`: a bulk string.
pub const TAG_BULK: u8 = 36;

/// `#`: a boolean.
pub const TAG_BOOLEAN: u8 = 35;

/// `_`: nil.
pub const TAG_NIL: u8 = 95;

/// `*`: an array.
pub const TAG_ARRAY: u8 = 42;

/// `%`: a map.
pub const TAG_MAP: u8 = 37;

/// `~`: a set.
pub const TAG_SET: u8 = 126;

/// `>`: a push.
pub const TAG_PUSH: u8 = 62;

/// `!`: an error with a length.
pub const TAG_BLOB_ERROR: u8 = 33;

/// `=`: a verbatim string.
pub const TAG_VERBATIM: u8 = 61;

/// `t`: true.
pub const LETTER_T: u8 = 116;

/// `f`: false.
pub const LETTER_F: u8 = 102;

/// What reading a frame from a position comes to.
pub enum Parsed<T> {
    /// The bytes end before the frame does: more are needed.
    Incomplete,
    /// The bytes are no frame.
    Malformed(ProtocolFault),
    /// The frame holds this, and ends before this position.
    Complete(T, int),
}

/// The position of the first CRLF at or after `from`.
pub open spec fn find_crlf(s: Seq<u8>, from: int) -> Option<int>
    decreases s.len() - from,
{
    if from < 0 || from + 1 >= s.len() {
        None
    } else if s[from] == CR && s[from + 1] == LF {
        Some(from)
    } else {
        find_crlf(s, from + 1)
    }
}

/// The 16-bit unsigned number that `s` stands for.
pub open spec fn u16_value(s: Seq<u8>) -> Option<u16> {
    match decimal_value(s) {
        Some(n) => if 0 <= n <= u16::MAX {
            Some(n as u16)
        } else {
            None
        },
        None => None,
    }
}

/// The slot, host and port of a redirection: `<slot> <host>:<port>`, the
/// host ending at the last colon.
pub open spec fn redirect_target(d: Seq<u8>) -> Option<(u16, Seq<u8>, u16)> {
    let space = find_byte(d, SPACE, 0);
    let colon = rfind_byte(d, COLON, d.len() as int);
    if space < d.len() && colon > space {
        match (u16_value(d.take(space)), u16_value(d.skip(colon + 1))) {
            (Some(slot), Some(port)) => Some((slot, d.subrange(space + 1, colon), port)),
            _ => None,
        }
    } else {
        None
    }
}

/// The error that a line of text stands for. The token before the first
/// space is its kind, the rest its description. `None` where the kind is a
/// redirection and the description names no target.
pub open spec fn error_of_line(line: Seq<u8>) -> Option<RedisErrorView> {
    let space = find_byte(line, SPACE, 0);
    let token = line.take(space);
    let description = if space < line.len() {
        line.skip(space + 1)
    } else {
        Seq::<u8>::empty()
    };
    if token == bytes_of("MOVED") {
        match redirect_target(description) {
            Some((hash_slot, host, port)) => Some(
                RedisErrorView {
                    kind: RedisErrorKindView::Moved { hash_slot, host, port },
                    description,
                },
            ),
            None => None,
        }
    } else if token == bytes_of("ASK") {
        match redirect_target(description) {
            Some((hash_slot, host, port)) => Some(
                RedisErrorView {
                    kind: RedisErrorKindView::Ask { hash_slot, host, port },
                    description,
                },
            ),
            None => None,
        }
    } else if token == bytes_of("ERR") {
        Some(RedisErrorView { kind: RedisErrorKindView::Generic, description })
    } else {
        Some(RedisErrorView { kind: RedisErrorKindView::Other(token), description })
    }
}

/// A length or a count: a decimal line.
pub open spec fn parse_size(s: Seq<u8>, pos: int) -> Parsed<int> {
    match find_crlf(s, pos) {
        None => Parsed::Incomplete,
        Some(end) => match i64_value(s.subrange(pos, end)) {
            Some(n) => Parsed::Complete(n as int, end + 2),
            None => Parsed::Malformed(ProtocolFault::MalformedSize),
        },
    }
}

/// A length, CRLF, that many bytes, CRLF. A negative length stands for nil.
pub open spec fn parse_sized(s: Seq<u8>, pos: int) -> Parsed<Option<Seq<u8>>> {
    match parse_size(s, pos) {
        Parsed::Incomplete => Parsed::Incomplete,
        Parsed::Malformed(fault) => Parsed::Malformed(fault),
        Parsed::Complete(n, p) => if n < 0 {
            Parsed::Complete(None, p)
        } else if s.len() < p + n + 2 {
            Parsed::Incomplete
        } else if s[p + n] != CR || s[p + n + 1] != LF {
            Parsed::Malformed(ProtocolFault::MissingTerminator)
        } else {
            Parsed::Complete(Some(s.subrange(p, p + n)), p + n + 2)
        },
    }
}

/// The value of a frame that is one line of text after its tag.
pub open spec fn line_value(tag: u8, line: Seq<u8>) -> Result<ValueView, ProtocolFault> {
    if tag == TAG_SIMPLE {
        Ok(ValueView::SimpleString(line))
    } else if tag == TAG_DOUBLE {
        Ok(ValueView::Double(line))
    } else if tag == TAG_INTEGER {
        match i64_value(line) {
            Some(i) => Ok(ValueView::Integer(i)),
            None => Err(ProtocolFault::MalformedInteger),
        }
    } else if tag == TAG_BOOLEAN {
        if line == seq![LETTER_T] {
            Ok(ValueView::Boolean(true))
        } else if line == seq![LETTER_F] {
            Ok(ValueView::Boolean(false))
        } else {
            Err(ProtocolFault::MalformedBoolean)
        }
    } else if tag == TAG_NIL {
        if line.len() == 0 {
            Ok(ValueView::BulkString(None))
        } else {
            Err(ProtocolFault::MalformedNil)
        }
    } else {
        match error_of_line(line) {
            Some(e) => Ok(ValueView::Error(e)),
            None => Err(ProtocolFault::MalformedRedirect),
        }
    }
}

/// The value of a frame that is a length and that many bytes after its tag.
pub open spec fn sized_value(tag: u8, body: Option<Seq<u8>>) -> Result<ValueView, ProtocolFault> {
    match body {
        None => Ok(ValueView::BulkString(None)),
        Some(bytes) => if tag == TAG_BULK {
            Ok(ValueView::BulkString(Some(bytes)))
        } else if tag == TAG_VERBATIM {
            if bytes.len() >= 4 {
                Ok(ValueView::BulkString(Some(bytes.skip(4))))
            } else {
                Err(ProtocolFault::MalformedVerbatim)
            }
        } else {
            match error_of_line(bytes) {
                Some(e) => Ok(ValueView::Error(e)),
                None => Err(ProtocolFault::MalformedRedirect),
            }
        },
    }
}

/// The value of a frame that is a count and that many frames after its tag.
pub open spec fn sequence_value(tag: u8, items: Seq<ValueView>) -> ValueView {
    if tag == TAG_SET {
        ValueView::Unordered(items)
    } else if tag == TAG_PUSH {
        ValueView::Push(items)
    } else {
        ValueView::Array(Some(items))
    }
}

/// `tag` opens a frame of one line.
pub open spec fn is_line_tag(tag: u8) -> bool {
    tag == TAG_SIMPLE || tag == TAG_ERROR || tag == TAG_INTEGER || tag == TAG_DOUBLE || tag
        == TAG_BOOLEAN || tag == TAG_NIL
}

/// `tag` opens a frame of a length and that many bytes.
pub open spec fn is_sized_tag(tag: u8) -> bool {
    tag == TAG_BULK || tag == TAG_BLOB_ERROR || tag == TAG_VERBATIM
}

/// `tag` opens a frame of a count and that many frames.
pub open spec fn is_sequence_tag(tag: u8) -> bool {
    tag == TAG_ARRAY || tag == TAG_SET || tag == TAG_PUSH
}

/// The frame that starts at `pos`: its value and the position after it.
///
/// The first byte names the type. A simple string, an error, an integer, a
/// double, a boolean and nil are one line; a bulk string, a blob error and a
/// verbatim string are a length and that many bytes; an array, a set and a
/// push are a count and that many frames, a map a count and twice as many.
/// A negative length stands for the nil bulk string, a negative count for
/// the nil array.
pub open spec fn parse_value(s: Seq<u8>, pos: int) -> Parsed<ValueView>
    decreases s.len() - pos, 0nat,
{
    if pos < 0 || pos >= s.len() {
        Parsed::Incomplete
    } else if is_line_tag(s[pos]) {
        match find_crlf(s, pos + 1) {
            None => Parsed::Incomplete,
            Some(end) => match line_value(s[pos], s.subrange(pos + 1, end)) {
                Ok(v) => Parsed::Complete(v, end + 2),
                Err(fault) => Parsed::Malformed(fault),
            },
        }
    } else if is_sized_tag(s[pos]) {
        match parse_sized(s, pos + 1) {
            Parsed::Incomplete => Parsed::Incomplete,
            Parsed::Malformed(fault) => Parsed::Malformed(fault),
            Parsed::Complete(body, end) => match sized_value(s[pos], body) {
                Ok(v) => Parsed::Complete(v, end),
                Err(fault) => Parsed::Malformed(fault),
            },
        }
    } else if is_sequence_tag(s[pos]) {
        match parse_size(s, pos + 1) {
            Parsed::Incomplete => Parsed::Incomplete,
            Parsed::Malformed(fault) => Parsed::Malformed(fault),
            Parsed::Complete(n, p) => if n < 0 {
                Parsed::Complete(ValueView::Array(None), p)
            } else if pos < p <= s.len() {
                match parse_items(s, p, n as nat) {
                    Parsed::Incomplete => Parsed::Incomplete,
                    Parsed::Malformed(fault) => Parsed::Malformed(fault),
                    Parsed::Complete(items, end) => Parsed::Complete(
                        sequence_value(s[pos], items),
                        end,
                    ),
                }
            } else {
                Parsed::Incomplete
            },
        }
    } else if s[pos] == TAG_MAP {
        match parse_size(s, pos + 1) {
            Parsed::Incomplete => Parsed::Incomplete,
            Parsed::Malformed(fault) => Parsed::Malformed(fault),
            Parsed::Complete(n, p) => if n < 0 {
                Parsed::Complete(ValueView::Array(None), p)
            } else if pos < p <= s.len() {
                match parse_pairs(s, p, n as nat) {
                    Parsed::Incomplete => Parsed::Incomplete,
                    Parsed::Malformed(fault) => Parsed::Malformed(fault),
                    Parsed::Complete(pairs, end) => Parsed::Complete(
                        ValueView::Dictionary(pairs),
                        end,
                    ),
                }
            } else {
                Parsed::Incomplete
            },
        }
    } else {
        Parsed::Malformed(ProtocolFault::UnknownType(s[pos]))
    }
}

/// `count` frames in a row from `pos`, each of at least one byte and within
/// the bytes.
pub open spec fn parse_items(s: Seq<u8>, pos: int, count: nat) -> Parsed<Seq<ValueView>>
    decreases s.len() - pos, count + 1,
{
    if count == 0 {
        Parsed::Complete(Seq::empty(), pos)
    } else {
        match parse_value(s, pos) {
            Parsed::Incomplete => Parsed::Incomplete,
            Parsed::Malformed(fault) => Parsed::Malformed(fault),
            Parsed::Complete(first, p) => if pos < p <= s.len() {
                match parse_items(s, p, (count - 1) as nat) {
                    Parsed::Incomplete => Parsed::Incomplete,
                    Parsed::Malformed(fault) => Parsed::Malformed(fault),
                    Parsed::Complete(rest, end) => Parsed::Complete(seq![first] + rest, end),
                }
            } else {
                Parsed::Incomplete
            },
        }
    }
}

/// `count` pairs of frames in a row from `pos`.
pub open spec fn parse_pairs(s: Seq<u8>, pos: int, count: nat) -> Parsed<
    Seq<(ValueView, ValueView)>,
>
    decreases s.len() - pos, count + 1,
{
    if count == 0 {
        Parsed::Complete(Seq::empty(), pos)
    } else {
        match parse_value(s, pos) {
            Parsed::Incomplete => Parsed::Incomplete,
            Parsed::Malformed(fault) => Parsed::Malformed(fault),
            Parsed::Complete(key, p) => if pos < p <= s.len() {
                match parse_value(s, p) {
                    Parsed::Incomplete => Parsed::Incomplete,
                    Parsed::Malformed(fault) => Parsed::Malformed(fault),
                    Parsed::Complete(value, q) => if p < q <= s.len() {
                        match parse_pairs(s, q, (count - 1) as nat) {
                            Parsed::Incomplete => Parsed::Incomplete,
                            Parsed::Malformed(fault) => Parsed::Malformed(fault),
                            Parsed::Complete(rest, end) => Parsed::Complete(
                                seq![(key, value)] + rest,
                                end,
                            ),
                        }
                    } else {
                        Parsed::Incomplete
                    },
                }
            } else {
                Parsed::Incomplete
            },
        }
    }
}

/// What `find_crlf` returns is the first CRLF.
pub proof fn lemma_find_crlf(s: Seq<u8>, from: int)
    requires
        0 <= from,
    ensures
        match find_crlf(s, from) {
            Some(end) => {
                &&& from <= end
                &&& end + 1 < s.len()
                &&& s[end] == CR
                &&& s[end + 1] == LF
                &&& forall|i: int| from <= i < end ==> !(s[i] == CR && #[trigger] s[i + 1] == LF)
            },
            None => forall|i: int|
                from <= i && i + 1 < s.len() ==> !(s[i] == CR && #[trigger] s[i + 1] == LF),
        },
    decreases s.len() - from,
{
    if from + 1 < s.len() && !(s[from] == CR && s[from + 1] == LF) {
        lemma_find_crlf(s, from + 1);
    }
}

/// The first CRLF is what `find_crlf` returns.
pub proof fn lemma_find_crlf_is(s: Seq<u8>, from: int, end: int)
    requires
        0 <= from <= end,
        end + 1 < s.len(),
        s[end] == CR,
        s[end + 1] == LF,
        forall|i: int| from <= i < end ==> !(s[i] == CR && #[trigger] s[i + 1] == LF),
    ensures
        find_crlf(s, from) == Some(end),
    decreases end - from,
{
    if from < end {
        assert(!(s[from] == CR && s[from + 1] == LF));
        lemma_find_crlf_is(s, from + 1, end);
    }
}

/// A complete frame ends after the position it starts at, within the bytes.
pub proof fn lemma_parse_value_advances(s: Seq<u8>, pos: int)
    requires
        0 <= pos,
    ensures
        parse_value(s, pos) matches Parsed::Complete(_, end) ==> pos < end <= s.len(),
    decreases s.len() - pos, 0nat,
{
    if pos < s.len() {
        lemma_find_crlf(s, pos + 1);
        if is_sequence_tag(s[pos]) {
            if let Parsed::Complete(n, p) = parse_size(s, pos + 1) {
                if n >= 0 {
                    lemma_parse_items_advances(s, p, n as nat);
                }
            }
        } else if s[pos] == TAG_MAP {
            if let Parsed::Complete(n, p) = parse_size(s, pos + 1) {
                if n >= 0 {
                    lemma_parse_pairs_advances(s, p, n as nat);
                }
            }
        }
    }
}

/// A complete run of frames ends at or after the position it starts at.
pub proof fn lemma_parse_items_advances(s: Seq<u8>, pos: int, count: nat)
    requires
        0 <= pos <= s.len(),
    ensures
        parse_items(s, pos, count) matches Parsed::Complete(items, end) ==> pos <= end <= s.len()
            && items.len() == count,
    decreases s.len() - pos, count + 1,
{
    if count > 0 {
        lemma_parse_value_advances(s, pos);
        if let Parsed::Complete(_, p) = parse_value(s, pos) {
            lemma_parse_items_advances(s, p, (count - 1) as nat);
        }
    }
}

/// A complete run of pairs ends at or after the position it starts at.
pub proof fn lemma_parse_pairs_advances(s: Seq<u8>, pos: int, count: nat)
    requires
        0 <= pos <= s.len(),
    ensures
        parse_pairs(s, pos, count) matches Parsed::Complete(pairs, end) ==> pos <= end <= s.len()
            && pairs.len() == count,
    decreases s.len() - pos, count + 1,
{
    if count > 0 {
        lemma_parse_value_advances(s, pos);
        if let Parsed::Complete(_, p) = parse_value(s, pos) {
            lemma_parse_value_advances(s, p);
            if let Parsed::Complete(_, q) = parse_value(s, p) {
                lemma_parse_pairs_advances(s, q, (count - 1) as nat);
            }
        }
    }
}

/// The two bytes that close a line.
pub open spec fn crlf() -> Seq<u8> {
    seq![CR, LF]
}

/// The line that an error is written as: the token of its kind, then a
/// space and the description where there is one.
pub open spec fn error_line(e: RedisErrorView) -> Seq<u8> {
    let token = match e.kind {
        RedisErrorKindView::Generic => bytes_of("ERR"),
        RedisErrorKindView::Moved { .. } => bytes_of("MOVED"),
        RedisErrorKindView::Ask { .. } => bytes_of("ASK"),
        RedisErrorKindView::Other(name) => name,
    };
    if e.description.len() == 0 {
        token
    } else {
        token + seq![SPACE] + e.description
    }
}

/// The description of a redirection to the given slot, host and port.
pub open spec fn redirect_text(hash_slot: u16, host: Seq<u8>, port: u16) -> Seq<u8> {
    crate::resp::decimal::decimal(hash_slot as int) + seq![SPACE] + host + seq![COLON]
        + crate::resp::decimal::decimal(port as int)
}

/// The canonical frame of a value.
pub open spec fn wire_form(v: ValueView) -> Seq<u8>
    decreases v,
{
    match v {
        ValueView::SimpleString(s) => seq![TAG_SIMPLE] + s + crlf(),
        ValueView::Integer(i) => seq![TAG_INTEGER] + crate::resp::decimal::decimal(i as int)
            + crlf(),
        ValueView::Double(t) => seq![TAG_DOUBLE] + t + crlf(),
        ValueView::BulkString(Some(b)) => seq![TAG_BULK] + crate::resp::decimal::decimal(
            b.len() as int,
        ) + crlf() + b + crlf(),
        ValueView::BulkString(None) => seq![TAG_NIL] + crlf(),
        ValueView::Boolean(b) => seq![
            TAG_BOOLEAN,
            if b {
                LETTER_T
            } else {
                LETTER_F
            },
        ] + crlf(),
        ValueView::Array(Some(items)) => seq![TAG_ARRAY] + crate::resp::decimal::decimal(
            items.len() as int,
        ) + crlf() + wire_items(items),
        ValueView::Array(None) => seq![TAG_ARRAY] + crate::resp::decimal::decimal(-1) + crlf(),
        ValueView::Dictionary(pairs) => seq![TAG_MAP] + crate::resp::decimal::decimal(
            pairs.len() as int,
        ) + crlf() + wire_pairs(pairs),
        ValueView::Unordered(items) => seq![TAG_SET] + crate::resp::decimal::decimal(
            items.len() as int,
        ) + crlf() + wire_items(items),
        ValueView::Push(items) => seq![TAG_PUSH] + crate::resp::decimal::decimal(
            items.len() as int,
        ) + crlf() + wire_items(items),
        ValueView::Error(e) => seq![TAG_ERROR] + error_line(e) + crlf(),
    }
}

/// The frames of a sequence of values, one after the other.
pub open spec fn wire_items(items: Seq<ValueView>) -> Seq<u8>
    decreases items,
{
    if items.len() == 0 {
        Seq::empty()
    } else {
        wire_form(items[0]) + wire_items(items.drop_first())
    }
}

/// The frames of a sequence of pairs: key, value, key, value.
pub open spec fn wire_pairs(pairs: Seq<(ValueView, ValueView)>) -> Seq<u8>
    decreases pairs,
{
    if pairs.len() == 0 {
        Seq::empty()
    } else {
        wire_form(pairs[0].0) + wire_form(pairs[0].1) + wire_pairs(pairs.drop_first())
    }
}

/// `s` holds no CRLF.
pub open spec fn no_crlf(s: Seq<u8>) -> bool {
    forall|i: int| 0 <= i && i + 1 < s.len() ==> !(s[i] == CR && #[trigger] s[i + 1] == LF)
}

/// `s` holds no `b`.
pub open spec fn no_byte(s: Seq<u8>, b: u8) -> bool {
    forall|i: int| 0 <= i < s.len() ==> #[trigger] s[i] != b
}

/// An error that its own line reads back as: the description of a
/// redirection is its target, the token of another kind is no reserved word
/// and holds no space, and the line holds no CRLF.
pub open spec fn error_well_formed(e: RedisErrorView) -> bool {
    &&& no_crlf(error_line(e))
    &&& match e.kind {
        RedisErrorKindView::Generic => true,
        RedisErrorKindView::Moved { hash_slot, host, port } => e.description == redirect_text(
            hash_slot,
            host,
            port,
        ),
        RedisErrorKindView::Ask { hash_slot, host, port } => e.description == redirect_text(
            hash_slot,
            host,
            port,
        ),
        RedisErrorKindView::Other(name) => {
            &&& no_byte(name, SPACE)
            &&& name != bytes_of("ERR")
            &&& name != bytes_of("MOVED")
            &&& name != bytes_of("ASK")
        },
    }
}

/// A value that its canonical frame reads back as: no line holds a CRLF, no
/// length or count is beyond the 64-bit signed range, and every error and
/// every nested value is well formed.
pub open spec fn well_formed(v: ValueView) -> bool
    decreases v,
{
    match v {
        ValueView::SimpleString(s) => no_crlf(s),
        ValueView::Integer(_) => true,
        ValueView::Double(t) => no_crlf(t),
        ValueView::BulkString(Some(b)) => b.len() <= i64::MAX,
        ValueView::BulkString(None) => true,
        ValueView::Boolean(_) => true,
        ValueView::Array(Some(items)) => items.len() <= i64::MAX && all_well_formed(items),
        ValueView::Array(None) => true,
        ValueView::Dictionary(pairs) => pairs.len() <= i64::MAX && all_pairs_well_formed(pairs),
        ValueView::Unordered(items) => items.len() <= i64::MAX && all_well_formed(items),
        ValueView::Push(items) => items.len() <= i64::MAX && all_well_formed(items),
        ValueView::Error(e) => error_well_formed(e),
    }
}

/// Every value of the sequence is well formed.
pub open spec fn all_well_formed(items: Seq<ValueView>) -> bool
    decreases items,
{
    items.len() == 0 || (well_formed(items[0]) && all_well_formed(items.drop_first()))
}

/// Every key and every value of the pairs is well formed.
pub open spec fn all_pairs_well_formed(pairs: Seq<(ValueView, ValueView)>) -> bool
    decreases pairs,
{
    pairs.len() == 0 || (well_formed(pairs[0].0) && well_formed(pairs[0].1)
        && all_pairs_well_formed(pairs.drop_first()))
}

} // verus!
