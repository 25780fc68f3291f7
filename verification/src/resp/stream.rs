//! The read half as a stream: bytes arrive in pieces of any size, and the
//! values that come out do not depend on where the pieces were cut.

use vstd::prelude::*;
use crate::error::{Error, ErrorView, ProtocolFault};
use crate::resp::buffer_decoder::buffer_bytes;
use crate::resp::value_decoder::ValueDecoder;
use crate::resp::value::{views, Value, ValueView};
use crate::resp::wire::{
    find_crlf, is_line_tag, is_sequence_tag, is_sized_tag, lemma_find_crlf, lemma_find_crlf_is,
    lemma_parse_value_advances, parse_items, parse_pairs, parse_size, parse_value, Parsed,
    TAG_MAP,
};

verus! {

/// What a buffer holds when every whole frame at its head is taken off.
pub struct Drained {
    /// The values of the frames, in order.
    pub values: Seq<ValueView>,
    /// The bytes that are left: the start of a frame still to come, or, after
    /// a fault, the bytes at which the fault was met.
    pub rest: Seq<u8>,
    /// The fault that ended the reading, if one did.
    pub fault: Option<ProtocolFault>,
}

/// Takes frames off the head of `s` as long as there is a whole one.
pub open spec fn frames(s: Seq<u8>) -> Drained
    decreases s.len(),
{
    match parse_value(s, 0) {
        Parsed::Incomplete => Drained { values: Seq::empty(), rest: s, fault: None },
        Parsed::Malformed(fault) => Drained { values: Seq::empty(), rest: s, fault: Some(fault) },
        Parsed::Complete(v, end) => if 0 < end <= s.len() {
            let after = frames(s.skip(end));
            Drained { values: seq![v] + after.values, rest: after.rest, fault: after.fault }
        } else {
            Drained { values: Seq::empty(), rest: s, fault: None }
        },
    }
}

/// The state of a stream between two arrivals of bytes.
pub struct Stream {
    /// Bytes received that do not yet make a whole frame.
    pub pending: Seq<u8>,
    /// The fault that ended the stream, if one did.
    pub fault: Option<ProtocolFault>,
}

/// The values that come out when `chunk` arrives, and the state after it. A
/// stream that has met a fault gives nothing more.
pub open spec fn feed(stream: Stream, chunk: Seq<u8>) -> (Seq<ValueView>, Stream) {
    if stream.fault is Some {
        (Seq::empty(), stream)
    } else {
        let drained = frames(stream.pending + chunk);
        (drained.values, Stream { pending: drained.rest, fault: drained.fault })
    }
}

/// A line that has ended still ends at the same place when bytes follow.
pub proof fn lemma_find_crlf_stable(s: Seq<u8>, t: Seq<u8>, from: int)
    requires
        0 <= from,
        find_crlf(s, from) is Some,
    ensures
        find_crlf(s + t, from) == find_crlf(s, from),
{
    lemma_find_crlf(s, from);
    let end = find_crlf(s, from)->0;
    assert forall|i: int| from <= i < end implies !((s + t)[i] == crate::resp::text::CR
        && #[trigger] (s + t)[i + 1] == crate::resp::text::LF) by {
        assert((s + t)[i] == s[i]);
        assert((s + t)[i + 1] == s[i + 1]);
    }
    lemma_find_crlf_is(s + t, from, end);
}

/// A count that was read is read the same when bytes follow.
pub proof fn lemma_size_stable(s: Seq<u8>, t: Seq<u8>, pos: int)
    requires
        0 <= pos,
        !(parse_size(s, pos) is Incomplete),
    ensures
        parse_size(s + t, pos) == parse_size(s, pos),
        parse_size(s, pos) matches Parsed::Complete(_, end) ==> pos + 2 <= end <= s.len(),
{
    lemma_find_crlf(s, pos);
    lemma_find_crlf_stable(s, t, pos);
    let end = find_crlf(s, pos)->0;
    assert((s + t).subrange(pos, end) =~= s.subrange(pos, end));
}

/// A frame that was read whole, or found faulty, is read the same when bytes
/// follow it.
pub proof fn lemma_parse_stable(s: Seq<u8>, t: Seq<u8>, pos: int)
    requires
        0 <= pos,
        !(parse_value(s, pos) is Incomplete),
    ensures
        parse_value(s + t, pos) == parse_value(s, pos),
    decreases s.len() - pos, 0nat,
{
    let u = s + t;
    assert(u[pos] == s[pos]);
    if is_line_tag(s[pos]) {
        lemma_find_crlf(s, pos + 1);
        lemma_find_crlf_stable(s, t, pos + 1);
        let end = find_crlf(s, pos + 1)->0;
        assert(u.subrange(pos + 1, end) =~= s.subrange(pos + 1, end));
    } else if is_sized_tag(s[pos]) {
        lemma_size_stable(s, t, pos + 1);
        if let Parsed::Complete(n, p) = parse_size(s, pos + 1) {
            if n >= 0 {
                assert(u[p + n] == s[p + n]);
                assert(u[p + n + 1] == s[p + n + 1]);
                assert(u.subrange(p, p + n) =~= s.subrange(p, p + n));
            }
        }
    } else if is_sequence_tag(s[pos]) {
        lemma_size_stable(s, t, pos + 1);
        if let Parsed::Complete(n, p) = parse_size(s, pos + 1) {
            if n >= 0 {
                lemma_items_stable(s, t, p, n as nat);
            }
        }
    } else if s[pos] == TAG_MAP {
        lemma_size_stable(s, t, pos + 1);
        if let Parsed::Complete(n, p) = parse_size(s, pos + 1) {
            if n >= 0 {
                lemma_pairs_stable(s, t, p, n as nat);
            }
        }
    }
}

/// Frames in a row that were read whole, or found faulty, are read the same
/// when bytes follow them.
pub proof fn lemma_items_stable(s: Seq<u8>, t: Seq<u8>, pos: int, count: nat)
    requires
        0 <= pos <= s.len(),
        !(parse_items(s, pos, count) is Incomplete),
    ensures
        parse_items(s + t, pos, count) == parse_items(s, pos, count),
    decreases s.len() - pos, count + 1,
{
    if count > 0 {
        lemma_parse_stable(s, t, pos);
        lemma_parse_value_advances(s, pos);
        if let Parsed::Complete(_, p) = parse_value(s, pos) {
            lemma_items_stable(s, t, p, (count - 1) as nat);
        }
    }
}

/// Pairs in a row that were read whole, or found faulty, are read the same
/// when bytes follow them.
pub proof fn lemma_pairs_stable(s: Seq<u8>, t: Seq<u8>, pos: int, count: nat)
    requires
        0 <= pos <= s.len(),
        !(parse_pairs(s, pos, count) is Incomplete),
    ensures
        parse_pairs(s + t, pos, count) == parse_pairs(s, pos, count),
    decreases s.len() - pos, count + 1,
{
    if count > 0 {
        lemma_parse_stable(s, t, pos);
        lemma_parse_value_advances(s, pos);
        if let Parsed::Complete(_, p) = parse_value(s, pos) {
            lemma_parse_stable(s, t, p);
            lemma_parse_value_advances(s, p);
            if let Parsed::Complete(_, q) = parse_value(s, p) {
                lemma_pairs_stable(s, t, q, (count - 1) as nat);
            }
        }
    }
}

/// Taking the frames off `x + y` is taking them off `x` and then off what
/// `x` left, followed by `y`.
pub proof fn lemma_frames_append(x: Seq<u8>, y: Seq<u8>)
    ensures
        frames(x).fault is None ==> {
            &&& frames(x + y).values == frames(x).values + frames(frames(x).rest + y).values
            &&& frames(x + y).rest == frames(frames(x).rest + y).rest
            &&& frames(x + y).fault == frames(frames(x).rest + y).fault
        },
        frames(x).fault is Some ==> {
            &&& frames(x + y).values == frames(x).values
            &&& frames(x + y).fault == frames(x).fault
        },
    decreases x.len(),
{
    match parse_value(x, 0) {
        Parsed::Incomplete => {
            assert(frames(x).values + frames(x + y).values =~= frames(x + y).values);
        },
        Parsed::Malformed(_) => {
            lemma_parse_stable(x, y, 0);
        },
        Parsed::Complete(v, end) => {
            lemma_parse_stable(x, y, 0);
            lemma_parse_value_advances(x, 0);
            assert((x + y).skip(end) =~= x.skip(end) + y);
            lemma_frames_append(x.skip(end), y);
            let after = frames(x.skip(end));
            if after.fault is None {
                assert(seq![v] + (after.values + frames(after.rest + y).values) =~= (seq![v]
                    + after.values) + frames(after.rest + y).values);
            }
        },
    }
}

/// The values that a stream gives do not depend on how the bytes were cut:
/// two pieces one after the other give what the two give as one piece, and
/// leave the stream in the same state. (Once a fault is met the bytes that
/// are left are of no account.)
pub proof fn lemma_feed_split(stream: Stream, a: Seq<u8>, b: Seq<u8>)
    ensures
        ({
            let (first, middle) = feed(stream, a);
            let (second, end) = feed(middle, b);
            let (whole, end_whole) = feed(stream, a + b);
            &&& whole == first + second
            &&& end_whole.fault == end.fault
            &&& end.fault is None ==> end_whole.pending == end.pending
        }),
{
    let (first, middle) = feed(stream, a);
    if stream.fault is Some {
        assert(first + first =~= first);
    } else {
        lemma_frames_append(stream.pending + a, b);
        assert(stream.pending + (a + b) =~= (stream.pending + a) + b);
        if middle.fault is Some {
            assert(first + Seq::<ValueView>::empty() =~= first);
        }
    }
}

/// Cutting a byte sequence at any point and feeding the two parts in turn
/// to a fresh stream gives the values of feeding it whole, in the same
/// order.
pub proof fn lemma_split_point(bytes: Seq<u8>, i: int)
    requires
        0 <= i <= bytes.len(),
    ensures
        ({
            let fresh = Stream { pending: Seq::empty(), fault: None };
            let (first, middle) = feed(fresh, bytes.take(i));
            let (second, _end) = feed(middle, bytes.skip(i));
            feed(fresh, bytes).0 == first + second
        }),
{
    let fresh = Stream { pending: Seq::empty(), fault: None };
    lemma_feed_split(fresh, bytes.take(i), bytes.skip(i));
    assert(bytes.take(i) + bytes.skip(i) =~= bytes);
}

impl ValueDecoder {
    /// Takes every whole frame off the head of `src`, in order. Stops at the
    /// first fault and reports it; `src` then still holds the faulty bytes.
    pub fn drain(&mut self, src: &mut bytes::BytesMut) -> (r: (Vec<Value>, Option<Error>))
        ensures
            views(r.0@) == frames(buffer_bytes(*old(src))).values,
            buffer_bytes(*final(src)) == frames(buffer_bytes(*old(src))).rest,
            match frames(buffer_bytes(*old(src))).fault {
                Some(fault) => r.1 matches Some(e) && e@ == ErrorView::Protocol(fault),
                None => r.1 is None,
            },
    {
        let mut values: Vec<Value> = Vec::new();
        let ghost whole = buffer_bytes(*src);
        assert(views(values@) =~= Seq::<ValueView>::empty());
        assert(views(values@) + frames(whole).values =~= frames(whole).values);
        loop
            invariant
                whole == buffer_bytes(*old(src)),
                frames(whole).values == views(values@) + frames(buffer_bytes(*src)).values,
                frames(whole).rest == frames(buffer_bytes(*src)).rest,
                frames(whole).fault == frames(buffer_bytes(*src)).fault,
            decreases buffer_bytes(*src).len(),
        {
            let ghost before = buffer_bytes(*src);
            proof {
                lemma_parse_value_advances(before, 0);
            }
            match self.decode(src) {
                Ok(Some(value)) => {
                    proof {
                        let after = frames(buffer_bytes(*src));
                        assert(views(values@.push(value)) =~= views(values@) + seq![value@]);
                        assert(views(values@) + (seq![value@] + after.values) =~= (views(values@)
                            + seq![value@]) + after.values);
                    }
                    values.push(value);
                },
                Ok(None) => {
                    assert(views(values@) + Seq::<ValueView>::empty() =~= views(values@));
                    return (values, None);
                },
                Err(e) => {
                    assert(views(values@) + Seq::<ValueView>::empty() =~= views(values@));
                    return (values, Some(e));
                },
            }
        }
    }
}

} // verus!
