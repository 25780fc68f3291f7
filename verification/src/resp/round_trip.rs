//! Reading back what was written: the decoder is a left inverse of the
//! canonical frame of every well-formed value.

use vstd::prelude::*;
use crate::error::{RedisErrorKindView, RedisErrorView};
use crate::resp::decimal::{
    decimal, is_digit, lemma_decimal_bytes, lemma_decimal_round_trip, MINUS,
};
use crate::resp::text::{
    bytes_of, lemma_ascii_bytes, lemma_find_byte_is, lemma_rfind_byte_is, COLON, CR, LF, SPACE,
};
use crate::resp::value::ValueView;
use crate::resp::wire::{
    all_pairs_well_formed, all_well_formed, crlf, error_line, error_of_line, error_well_formed,
    find_crlf, lemma_find_crlf_is, lemma_parse_value_advances, no_byte, no_crlf, parse_items,
    parse_pairs, parse_size, parse_value, redirect_target, redirect_text, well_formed, wire_form,
    wire_items, wire_pairs, Parsed, LETTER_F, LETTER_T, TAG_ARRAY, TAG_BOOLEAN, TAG_BULK,
    TAG_DOUBLE, TAG_ERROR, TAG_INTEGER, TAG_MAP, TAG_NIL, TAG_PUSH, TAG_SET, TAG_SIMPLE,
};

verus! {

/// `s` holds the bytes `w` from position `pos` on.
pub open spec fn occurs(s: Seq<u8>, pos: int, w: Seq<u8>) -> bool {
    0 <= pos && pos + w.len() <= s.len() && s.subrange(pos, pos + w.len()) == w
}

/// Where `s` holds `w` at `pos`, it holds each byte of `w` in its place.
pub proof fn lemma_occurs_index(s: Seq<u8>, pos: int, w: Seq<u8>, i: int)
    requires
        occurs(s, pos, w),
        0 <= i < w.len(),
    ensures
        s[pos + i] == w[i],
{
    assert(s.subrange(pos, pos + w.len())[i] == s[pos + i]);
}

/// Where `s` holds `a + b` at `pos`, it holds `a` there and `b` after it.
pub proof fn lemma_occurs_split(s: Seq<u8>, pos: int, a: Seq<u8>, b: Seq<u8>)
    requires
        occurs(s, pos, a + b),
    ensures
        occurs(s, pos, a),
        occurs(s, pos + a.len(), b),
{
    assert forall|i: int| 0 <= i < a.len() implies s.subrange(pos, pos + a.len())[i] == a[i] by {
        lemma_occurs_index(s, pos, a + b, i);
    }
    assert(s.subrange(pos, pos + a.len()) =~= a);
    assert forall|i: int| 0 <= i < b.len() implies s.subrange(
        pos + a.len(),
        pos + a.len() + b.len(),
    )[i] == b[i] by {
        lemma_occurs_index(s, pos, a + b, a.len() + i);
    }
    assert(s.subrange(pos + a.len(), pos + a.len() + b.len()) =~= b);
}

/// A line without CRLF that is closed by CRLF ends at that CRLF.
pub proof fn lemma_line_found(s: Seq<u8>, pos: int, line: Seq<u8>)
    requires
        occurs(s, pos, line + crlf()),
        no_crlf(line),
    ensures
        find_crlf(s, pos) == Some(pos + line.len()),
        s.subrange(pos, pos + line.len()) == line,
{
    let w = line + crlf();
    let end = pos + line.len();
    lemma_occurs_split(s, pos, line, crlf());
    lemma_occurs_index(s, pos, w, line.len() as int);
    lemma_occurs_index(s, pos, w, line.len() as int + 1);
    assert forall|i: int| pos <= i < end implies !(s[i] == CR && #[trigger] s[i + 1] == LF) by {
        lemma_occurs_index(s, pos, w, i - pos);
        lemma_occurs_index(s, pos, w, i - pos + 1);
        if i + 1 < end {
            assert(line[i - pos + 1] == s[i + 1]);
        }
    }
    lemma_find_crlf_is(s, pos, end);
}

/// The canonical text of a number holds no CR, no space and no colon.
pub proof fn lemma_decimal_plain(n: int)
    ensures
        no_crlf(decimal(n)),
        no_byte(decimal(n), SPACE),
        no_byte(decimal(n), COLON),
{
    assert forall|i: int| 0 <= i < decimal(n).len() implies is_digit(#[trigger] decimal(n)[i])
        || decimal(n)[i] == MINUS by {
        lemma_decimal_bytes(n, i);
    }
}

/// A count that was written is read back.
pub proof fn lemma_size_round_trip(s: Seq<u8>, pos: int, n: int)
    requires
        occurs(s, pos, decimal(n) + crlf()),
        i64::MIN <= n <= i64::MAX,
    ensures
        parse_size(s, pos) == Parsed::Complete(n, pos + decimal(n).len() + 2),
{
    lemma_decimal_plain(n);
    lemma_line_found(s, pos, decimal(n));
    lemma_decimal_round_trip(n);
}

/// The three reserved tokens, byte by byte.
pub proof fn lemma_reserved_tokens()
    ensures
        bytes_of("ERR") =~= seq![69u8, 82u8, 82u8],
        bytes_of("MOVED") =~= seq![77u8, 79u8, 86u8, 69u8, 68u8],
        bytes_of("ASK") =~= seq![65u8, 83u8, 75u8],
{
    reveal_strlit("ERR");
    reveal_strlit("MOVED");
    reveal_strlit("ASK");
    lemma_ascii_bytes("ERR");
    lemma_ascii_bytes("MOVED");
    lemma_ascii_bytes("ASK");
}

/// The description of a redirection names its target.
pub proof fn lemma_redirect_round_trip(hash_slot: u16, host: Seq<u8>, port: u16)
    ensures
        redirect_target(redirect_text(hash_slot, host, port)) == Some((hash_slot, host, port)),
        redirect_text(hash_slot, host, port).len() > 0,
{
    let a = decimal(hash_slot as int);
    let b = decimal(port as int);
    let d = redirect_text(hash_slot, host, port);
    lemma_decimal_plain(hash_slot as int);
    lemma_decimal_plain(port as int);
    lemma_decimal_round_trip(hash_slot as int);
    lemma_decimal_round_trip(port as int);
    let space = a.len() as int;
    let colon = (a.len() + 1 + host.len()) as int;
    assert(d.len() == a.len() + 1 + host.len() + 1 + b.len());
    assert(d[space] == SPACE);
    assert(d[colon] == COLON);
    assert forall|i: int| 0 <= i < space implies d[i] != SPACE by {
        assert(d[i] == a[i]);
    }
    lemma_find_byte_is(d, SPACE, 0, space);
    assert forall|i: int| colon < i < d.len() implies d[i] != COLON by {
        assert(d[i] == b[i - colon - 1]);
    }
    lemma_rfind_byte_is(d, COLON, d.len() as int, colon);
    assert(d.take(space) =~= a);
    assert(d.skip(colon + 1) =~= b);
    assert(d.subrange(space + 1, colon) =~= host);
}

/// The line of a well-formed error stands for that error.
pub proof fn lemma_error_round_trip(e: RedisErrorView)
    requires
        error_well_formed(e),
    ensures
        error_of_line(error_line(e)) == Some(e),
{
    lemma_reserved_tokens();
    let token = match e.kind {
        RedisErrorKindView::Generic => bytes_of("ERR"),
        RedisErrorKindView::Moved { .. } => bytes_of("MOVED"),
        RedisErrorKindView::Ask { .. } => bytes_of("ASK"),
        RedisErrorKindView::Other(name) => name,
    };
    let line = error_line(e);
    assert(no_byte(token, SPACE));
    let at = token.len() as int;
    assert forall|i: int| 0 <= i < at implies line[i] != SPACE by {
        assert(line[i] == token[i]);
    }
    if e.description.len() > 0 {
        assert(line[at] == SPACE);
        lemma_find_byte_is(line, SPACE, 0, at);
        assert(line.take(at) =~= token);
        assert(line.skip(at + 1) =~= e.description);
    } else {
        lemma_find_byte_is(line, SPACE, 0, at);
        assert(line.take(at) =~= token);
        assert(e.description =~= Seq::<u8>::empty());
    }
    match e.kind {
        RedisErrorKindView::Moved { hash_slot, host, port } => {
            lemma_redirect_round_trip(hash_slot, host, port);
        },
        RedisErrorKindView::Ask { hash_slot, host, port } => {
            lemma_redirect_round_trip(hash_slot, host, port);
        },
        _ => {},
    }
}

/// Decoding the canonical frame of a well-formed value, wherever it stands
/// among other bytes, gives the value back and ends where the frame ends.
pub proof fn lemma_frame_round_trip(v: ValueView, s: Seq<u8>, pos: int)
    requires
        well_formed(v),
        occurs(s, pos, wire_form(v)),
    ensures
        parse_value(s, pos) == Parsed::Complete(v, pos + wire_form(v).len()),
    decreases v,
{
    let w = wire_form(v);
    assert(w.len() > 0 && s[pos] == w[0]) by {
        lemma_wire_form_tag(v);
        lemma_occurs_index(s, pos, w, 0);
    }
    match v {
        ValueView::SimpleString(t) => {
            assert(w =~= seq![TAG_SIMPLE] + (t + crlf()));
            lemma_occurs_split(s, pos, seq![TAG_SIMPLE], t + crlf());
            lemma_line_found(s, pos + 1, t);
        },
        ValueView::Double(t) => {
            assert(w =~= seq![TAG_DOUBLE] + (t + crlf()));
            lemma_occurs_split(s, pos, seq![TAG_DOUBLE], t + crlf());
            lemma_line_found(s, pos + 1, t);
        },
        ValueView::Integer(i) => {
            let t = decimal(i as int);
            assert(w =~= seq![TAG_INTEGER] + (t + crlf()));
            lemma_occurs_split(s, pos, seq![TAG_INTEGER], t + crlf());
            lemma_decimal_plain(i as int);
            lemma_line_found(s, pos + 1, t);
            lemma_decimal_round_trip(i as int);
        },
        ValueView::Boolean(b) => {
            let t = seq![if b { LETTER_T } else { LETTER_F }];
            assert(w =~= seq![TAG_BOOLEAN] + (t + crlf()));
            lemma_occurs_split(s, pos, seq![TAG_BOOLEAN], t + crlf());
            assert(no_crlf(t));
            lemma_line_found(s, pos + 1, t);
            assert(seq![LETTER_T] != seq![LETTER_F]) by {
                assert(seq![LETTER_T][0] != seq![LETTER_F][0]);
            }
        },
        ValueView::BulkString(None) => {
            let t = Seq::<u8>::empty();
            assert(w =~= seq![TAG_NIL] + (t + crlf()));
            lemma_occurs_split(s, pos, seq![TAG_NIL], t + crlf());
            lemma_line_found(s, pos + 1, t);
        },
        ValueView::Error(e) => {
            let t = error_line(e);
            assert(w =~= seq![TAG_ERROR] + (t + crlf()));
            lemma_occurs_split(s, pos, seq![TAG_ERROR], t + crlf());
            lemma_line_found(s, pos + 1, t);
            lemma_error_round_trip(e);
        },
        ValueView::BulkString(Some(b)) => {
            let n = decimal(b.len() as int);
            assert(w =~= seq![TAG_BULK] + ((n + crlf()) + (b + crlf())));
            lemma_occurs_split(s, pos, seq![TAG_BULK], (n + crlf()) + (b + crlf()));
            lemma_occurs_split(s, pos + 1, n + crlf(), b + crlf());
            lemma_size_round_trip(s, pos + 1, b.len() as int);
            let p = pos + 1 + n.len() + 2;
            lemma_occurs_split(s, p, b, crlf());
            lemma_occurs_index(s, p + b.len(), crlf(), 0);
            lemma_occurs_index(s, p + b.len(), crlf(), 1);
        },
        ValueView::Array(None) => {
            let n = decimal(-1);
            assert(w =~= seq![TAG_ARRAY] + (n + crlf()));
            lemma_occurs_split(s, pos, seq![TAG_ARRAY], n + crlf());
            lemma_size_round_trip(s, pos + 1, -1);
        },
        ValueView::Array(Some(items)) => {
            lemma_sequence_round_trip(TAG_ARRAY, items, s, pos);
        },
        ValueView::Unordered(items) => {
            lemma_sequence_round_trip(TAG_SET, items, s, pos);
        },
        ValueView::Push(items) => {
            lemma_sequence_round_trip(TAG_PUSH, items, s, pos);
        },
        ValueView::Dictionary(pairs) => {
            let n = decimal(pairs.len() as int);
            let body = wire_pairs(pairs);
            assert(w =~= seq![TAG_MAP] + ((n + crlf()) + body));
            lemma_occurs_split(s, pos, seq![TAG_MAP], (n + crlf()) + body);
            lemma_occurs_split(s, pos + 1, n + crlf(), body);
            lemma_size_round_trip(s, pos + 1, pairs.len() as int);
            lemma_pairs_round_trip(pairs, s, pos + 1 + n.len() + 2);
        },
    }
}

/// The frame of a sequence, under any of its three tags, is read back.
proof fn lemma_sequence_round_trip(tag: u8, items: Seq<ValueView>, s: Seq<u8>, pos: int)
    requires
        tag == TAG_ARRAY || tag == TAG_SET || tag == TAG_PUSH,
        items.len() <= i64::MAX,
        all_well_formed(items),
        occurs(s, pos, seq![tag] + decimal(items.len() as int) + crlf() + wire_items(items)),
    ensures
        parse_size(s, pos + 1) == Parsed::Complete(
            items.len() as int,
            pos + 1 + decimal(items.len() as int).len() + 2,
        ),
        parse_items(s, pos + 1 + decimal(items.len() as int).len() + 2, items.len())
            == Parsed::Complete(
            items,
            pos + 1 + decimal(items.len() as int).len() + 2 + wire_items(items).len(),
        ),
        pos + 1 + decimal(items.len() as int).len() + 2 <= s.len(),
    decreases items, 1nat,
{
    let n = decimal(items.len() as int);
    let body = wire_items(items);
    let w = seq![tag] + n + crlf() + body;
    assert(w =~= seq![tag] + ((n + crlf()) + body));
    lemma_occurs_split(s, pos, seq![tag], (n + crlf()) + body);
    lemma_occurs_split(s, pos + 1, n + crlf(), body);
    lemma_size_round_trip(s, pos + 1, items.len() as int);
    lemma_items_round_trip(items, s, pos + 1 + n.len() + 2);
}

/// The frames of well-formed values in a row are read back in a row.
pub proof fn lemma_items_round_trip(items: Seq<ValueView>, s: Seq<u8>, pos: int)
    requires
        all_well_formed(items),
        occurs(s, pos, wire_items(items)),
    ensures
        parse_items(s, pos, items.len()) == Parsed::Complete(items, pos + wire_items(items).len()),
    decreases items, 0nat,
{
    if items.len() > 0 {
        let first = wire_form(items[0]);
        let rest = wire_items(items.drop_first());
        lemma_occurs_split(s, pos, first, rest);
        lemma_frame_round_trip(items[0], s, pos);
        lemma_parse_value_advances(s, pos);
        lemma_items_round_trip(items.drop_first(), s, pos + first.len());
        assert(seq![items[0]] + items.drop_first() =~= items);
    } else {
        assert(items =~= Seq::<ValueView>::empty());
    }
}

/// The frames of well-formed pairs in a row are read back in a row.
pub proof fn lemma_pairs_round_trip(pairs: Seq<(ValueView, ValueView)>, s: Seq<u8>, pos: int)
    requires
        all_pairs_well_formed(pairs),
        occurs(s, pos, wire_pairs(pairs)),
    ensures
        parse_pairs(s, pos, pairs.len()) == Parsed::Complete(pairs, pos + wire_pairs(pairs).len()),
    decreases pairs, 0nat,
{
    if pairs.len() > 0 {
        let key = wire_form(pairs[0].0);
        let value = wire_form(pairs[0].1);
        let rest = wire_pairs(pairs.drop_first());
        assert(wire_pairs(pairs) =~= key + (value + rest));
        lemma_occurs_split(s, pos, key, value + rest);
        lemma_occurs_split(s, pos + key.len(), value, rest);
        lemma_frame_round_trip(pairs[0].0, s, pos);
        lemma_frame_round_trip(pairs[0].1, s, pos + key.len());
        lemma_parse_value_advances(s, pos);
        lemma_parse_value_advances(s, pos + key.len());
        lemma_pairs_round_trip(pairs.drop_first(), s, pos + key.len() + value.len());
        assert(seq![pairs[0]] + pairs.drop_first() =~= pairs);
    } else {
        assert(pairs =~= Seq::<(ValueView, ValueView)>::empty());
    }
}

/// The canonical frame of a value starts with the tag of its type.
pub proof fn lemma_wire_form_tag(v: ValueView)
    ensures
        wire_form(v).len() > 0,
        wire_form(v)[0] == match v {
            ValueView::SimpleString(_) => TAG_SIMPLE,
            ValueView::Integer(_) => TAG_INTEGER,
            ValueView::Double(_) => TAG_DOUBLE,
            ValueView::BulkString(Some(_)) => TAG_BULK,
            ValueView::BulkString(None) => TAG_NIL,
            ValueView::Boolean(_) => TAG_BOOLEAN,
            ValueView::Array(_) => TAG_ARRAY,
            ValueView::Dictionary(_) => TAG_MAP,
            ValueView::Unordered(_) => TAG_SET,
            ValueView::Push(_) => TAG_PUSH,
            ValueView::Error(_) => TAG_ERROR,
        },
{
}

/// Decoding the canonical frame of a well-formed value gives the value back
/// and takes exactly the frame, whatever bytes follow it.
pub proof fn lemma_decode_encode(v: ValueView, rest: Seq<u8>)
    requires
        well_formed(v),
    ensures
        parse_value(wire_form(v) + rest, 0) == Parsed::Complete(v, wire_form(v).len() as int),
{
    let s = wire_form(v) + rest;
    assert(s.subrange(0, wire_form(v).len() as int) =~= wire_form(v));
    lemma_frame_round_trip(v, s, 0);
}

} // verus!
