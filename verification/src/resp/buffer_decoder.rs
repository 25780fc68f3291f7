//! The buffer decoder: finds where the frame at the head of a growing
//! buffer ends, or says that more bytes are needed. It looks at the bytes
//! only: nothing is copied and nothing is built.

use vstd::prelude::*;
use vstd::slice::slice_subrange;
use crate::error::{Error, ErrorView, ProtocolFault};
use crate::resp::decimal::parse_i64;
use crate::resp::text::{
    copy_range, index_of, last_index_of, lemma_find_byte, lemma_rfind_byte, text_eq, COLON, CR,
    LF, SPACE,
};
use crate::resp::value::ValueView;
use crate::resp::wire::{
    error_of_line, find_crlf, is_line_tag, is_sized_tag, lemma_find_crlf,
    lemma_parse_value_advances, line_value, parse_items, parse_pairs, parse_size, parse_sized,
    parse_value, redirect_target, sized_value, u16_value, Parsed, LETTER_F, LETTER_T, TAG_ARRAY,
    TAG_BLOB_ERROR, TAG_BOOLEAN, TAG_BULK, TAG_DOUBLE, TAG_ERROR, TAG_INTEGER, TAG_MAP, TAG_NIL,
    TAG_PUSH, TAG_SET, TAG_SIMPLE, TAG_VERBATIM,
};

verus! {

/// The bytes that a `bytes::BytesMut` holds, first to last.
pub uninterp spec fn buffer_bytes(buf: bytes::BytesMut) -> Seq<u8>;

/// `bytes::BytesMut`: a buffer of bytes that grows at its end and is used up
/// from its head. Nothing is known of what is inside but what `buffer_bytes`
/// names.
#[verifier::external_type_specification]
#[verifier::external_body]
pub struct ExBytesMut(bytes::BytesMut);

/// `Deref::deref` of `bytes::BytesMut`: the slice is the buffer's contents.
#[verifier::external_body]
pub(crate) fn buffer_slice(buf: &bytes::BytesMut) -> (s: &[u8])
    ensures
        s@ == buffer_bytes(*buf),
{
    std::ops::Deref::deref(buf)
}

/// `Buf::advance` of `bytes::BytesMut`: drops the first `cnt` bytes. It
/// panics where the buffer holds fewer.
#[verifier::external_body]
pub(crate) fn buffer_advance(buf: &mut bytes::BytesMut, cnt: usize)
    requires
        cnt <= buffer_bytes(*old(buf)).len(),
    ensures
        buffer_bytes(*final(buf)) == buffer_bytes(*old(buf)).skip(cnt as int),
{
    bytes::Buf::advance(buf, cnt)
}

/// How far reading one part of a frame came.
pub enum Step<T> {
    /// The bytes end before the part does.
    More,
    /// The bytes are no frame.
    Fault(ProtocolFault),
    /// The part, and the position after it.
    Done(T, usize),
}

/// The position after the first CRLF at or after `pos`.
pub fn next_crlf(buf: &[u8], pos: usize) -> (r: Option<usize>)
    ensures
        match r {
            Some(next) => find_crlf(buf@, pos as int) == Some(next - 2),
            None => find_crlf(buf@, pos as int) is None,
        },
{
    let mut i: usize = pos;
    while i < buf.len() && buf.len() - i >= 2
        invariant
            pos <= i,
            find_crlf(buf@, pos as int) == find_crlf(buf@, i as int),
        decreases buf.len() - i,
    {
        if buf[i] == CR && buf[i + 1] == LF {
            return Some(i + 2);
        }
        i = i + 1;
    }
    None
}

/// The length or count that the line at `pos` holds.
pub fn size(buf: &[u8], pos: usize) -> (r: Step<i64>)
    ensures
        match parse_size(buf@, pos as int) {
            Parsed::Incomplete => r is More,
            Parsed::Malformed(fault) => r matches Step::Fault(f) && f == fault,
            Parsed::Complete(n, end) => r matches Step::Done(m, next) && m == n && next == end
                && pos + 2 <= end <= buf@.len(),
        },
{
    match next_crlf(buf, pos) {
        None => Step::More,
        Some(next) => {
            proof {
                lemma_find_crlf(buf@, pos as int);
            }
            match parse_i64(slice_subrange(buf, pos, next - 2)) {
                Some(n) => Step::Done(n, next),
                None => Step::Fault(ProtocolFault::MalformedSize),
            }
        },
    }
}

/// Reads text as an unsigned 16-bit decimal number.
pub fn parse_u16(text: &[u8]) -> (r: Option<u16>)
    ensures
        r == u16_value(text@),
{
    match parse_i64(text) {
        Some(n) => if 0 <= n && n <= 0xffff {
            Some(n as u16)
        } else {
            None
        },
        None => None,
    }
}

/// Whether the description of a redirection names a target.
pub fn names_target(description: &[u8]) -> (r: bool)
    ensures
        r == redirect_target(description@) is Some,
{
    let space = index_of(description, SPACE, 0);
    let colon = match last_index_of(description, COLON) {
        Some(i) => i,
        None => {
            return false;
        },
    };
    proof {
        lemma_find_byte(description@, SPACE, 0);
        lemma_rfind_byte(description@, COLON, description@.len() as int);
    }
    if space >= description.len() || colon <= space {
        return false;
    }
    let slot_text = slice_subrange(description, 0, space);
    let port_text = slice_subrange(description, colon + 1, description.len());
    assert(slot_text@ =~= description@.take(space as int));
    assert(port_text@ =~= description@.skip(colon + 1));
    parse_u16(slot_text).is_some() && parse_u16(port_text).is_some()
}

/// Whether a line of text stands for an error: every line does but that of
/// a redirection without target.
pub fn is_error_line(line: &[u8]) -> (r: bool)
    ensures
        r == error_of_line(line@) is Some,
{
    let space = index_of(line, SPACE, 0);
    proof {
        lemma_find_byte(line@, SPACE, 0);
    }
    let token = slice_subrange(line, 0, space);
    assert(token@ =~= line@.take(space as int));
    if text_eq(token, "MOVED") || text_eq(token, "ASK") {
        let from = if space < line.len() {
            space + 1
        } else {
            line.len()
        };
        let description = slice_subrange(line, from, line.len());
        proof {
            if space < line.len() {
                assert(description@ =~= line@.skip(space + 1));
            } else {
                assert(description@ =~= Seq::<u8>::empty());
            }
        }
        names_target(description)
    } else {
        true
    }
}

/// The fault in a one-line frame with the given tag, if there is one.
pub fn line_fault(tag: u8, line: &[u8]) -> (r: Option<ProtocolFault>)
    requires
        is_line_tag(tag),
    ensures
        match line_value(tag, line@) {
            Ok(_) => r is None,
            Err(fault) => r == Some(fault),
        },
{
    if tag == TAG_SIMPLE || tag == TAG_DOUBLE {
        None
    } else if tag == TAG_INTEGER {
        match parse_i64(line) {
            Some(_) => None,
            None => Some(ProtocolFault::MalformedInteger),
        }
    } else if tag == TAG_BOOLEAN {
        if line.len() == 1 && (line[0] == LETTER_T || line[0] == LETTER_F) {
            proof {
                if line[0] == LETTER_T {
                    assert(line@ =~= seq![LETTER_T]);
                } else {
                    assert(line@ =~= seq![LETTER_F]);
                    assert(seq![LETTER_T][0] == LETTER_T);
                }
            }
            None
        } else {
            assert(seq![LETTER_T].len() == 1 && seq![LETTER_T][0] == LETTER_T);
            assert(seq![LETTER_F].len() == 1 && seq![LETTER_F][0] == LETTER_F);
            Some(ProtocolFault::MalformedBoolean)
        }
    } else if tag == TAG_NIL {
        if line.len() == 0 {
            None
        } else {
            Some(ProtocolFault::MalformedNil)
        }
    } else if is_error_line(line) {
        None
    } else {
        Some(ProtocolFault::MalformedRedirect)
    }
}

/// Where the bytes of the sized frame whose length line is at `pos` start
/// and stop; `None` for nil.
pub fn sized_string(buf: &[u8], pos: usize) -> (r: Step<Option<(usize, usize)>>)
    ensures
        match parse_sized(buf@, pos as int) {
            Parsed::Incomplete => r is More,
            Parsed::Malformed(fault) => r matches Step::Fault(f) && f == fault,
            Parsed::Complete(body, end) => r matches Step::Done(range, next) && next == end && end
                <= buf@.len() && match body {
                Some(b) => range matches Some(at) && at.0 <= at.1 <= buf@.len()
                    && b == buf@.subrange(at.0 as int, at.1 as int),
                None => range is None,
            },
        },
{
    match size(buf, pos) {
        Step::More => Step::More,
        Step::Fault(fault) => Step::Fault(fault),
        Step::Done(n, start) => {
            if n < 0 {
                return Step::Done(None, start);
            }
            let left = buf.len() - start;
            if left < 2 || n as u64 > (left - 2) as u64 {
                return Step::More;
            }
            let stop = start + n as usize;
            if buf[stop] != CR || buf[stop + 1] != LF {
                return Step::Fault(ProtocolFault::MissingTerminator);
            }
            Step::Done(Some((start, stop)), stop + 2)
        },
    }
}

/// The fault in a sized frame with the given tag and bytes, if there is
/// one.
pub fn sized_fault(tag: u8, bytes: &[u8]) -> (r: Option<ProtocolFault>)
    requires
        is_sized_tag(tag),
    ensures
        match sized_value(tag, Some(bytes@)) {
            Ok(_) => r is None,
            Err(fault) => r == Some(fault),
        },
{
    if tag == TAG_BULK {
        None
    } else if tag == TAG_VERBATIM {
        if bytes.len() >= 4 {
            None
        } else {
            Some(ProtocolFault::MalformedVerbatim)
        }
    } else if is_error_line(bytes) {
        None
    } else {
        Some(ProtocolFault::MalformedRedirect)
    }
}

/// Where the frame that starts at `pos` ends: `Ok(None)` where more bytes
/// are needed, else the position after the frame, or the fault in it.
pub fn decode(buf: &[u8], pos: usize) -> (r: Result<Option<usize>, Error>)
    ensures
        match parse_value(buf@, pos as int) {
            Parsed::Incomplete => r matches Ok(None),
            Parsed::Malformed(fault) => r matches Err(e) && e@ == ErrorView::Protocol(fault),
            Parsed::Complete(_, end) => r matches Ok(Some(next)) && next == end && pos < end
                <= buf@.len(),
        },
    decreases buf@.len() - pos, 0nat,
{
    if buf.len() <= pos {
        return Ok(None);
    }
    proof {
        lemma_parse_value_advances(buf@, pos as int);
        lemma_find_crlf(buf@, pos + 1);
    }
    let first_byte = buf[pos];
    let pos = pos + 1;
    if first_byte == TAG_SIMPLE || first_byte == TAG_ERROR || first_byte == TAG_INTEGER
        || first_byte == TAG_DOUBLE || first_byte == TAG_BOOLEAN || first_byte == TAG_NIL {
        match next_crlf(buf, pos) {
            None => Ok(None),
            Some(next) => match line_fault(first_byte, slice_subrange(buf, pos, next - 2)) {
                None => Ok(Some(next)),
                Some(fault) => Err(Error::Protocol(fault)),
            },
        }
    } else if first_byte == TAG_BULK || first_byte == TAG_BLOB_ERROR || first_byte
        == TAG_VERBATIM {
        match sized_string(buf, pos) {
            Step::More => Ok(None),
            Step::Fault(fault) => Err(Error::Protocol(fault)),
            Step::Done(None, next) => Ok(Some(next)),
            Step::Done(Some((start, stop)), next) => match sized_fault(
                first_byte,
                slice_subrange(buf, start, stop),
            ) {
                None => Ok(Some(next)),
                Some(fault) => Err(Error::Protocol(fault)),
            },
        }
    } else if first_byte == TAG_ARRAY || first_byte == TAG_SET || first_byte == TAG_PUSH {
        match array(buf, pos) {
            Step::More => Ok(None),
            Step::Fault(fault) => Err(Error::Protocol(fault)),
            Step::Done(_, next) => Ok(Some(next)),
        }
    } else if first_byte == TAG_MAP {
        match map(buf, pos) {
            Step::More => Ok(None),
            Step::Fault(fault) => Err(Error::Protocol(fault)),
            Step::Done(_, next) => Ok(Some(next)),
        }
    } else {
        Err(Error::Protocol(ProtocolFault::UnknownType(first_byte)))
    }
}

/// Where the frames of the sequence whose count line is at `pos` end. The
/// count comes with the end; no frame follows a negative count.
fn array(buf: &[u8], pos: usize) -> (r: Step<i64>)
    requires
        0 < pos <= buf@.len(),
    ensures
        match parse_size(buf@, pos as int) {
            Parsed::Incomplete => r is More,
            Parsed::Malformed(fault) => r matches Step::Fault(f) && f == fault,
            Parsed::Complete(n, start) => if n < 0 {
                r matches Step::Done(m, next) && m == n && next == start
            } else {
                match parse_items(buf@, start, n as nat) {
                    Parsed::Incomplete => r is More,
                    Parsed::Malformed(fault) => r matches Step::Fault(f) && f == fault,
                    Parsed::Complete(_, end) => r matches Step::Done(m, next) && m == n && next
                        == end,
                }
            },
        },
    decreases buf@.len() - pos, 1nat,
{
    let (count, start) = match size(buf, pos) {
        Step::More => {
            return Step::More;
        },
        Step::Fault(fault) => {
            return Step::Fault(fault);
        },
        Step::Done(n, start) => (n, start),
    };
    proof {
        lemma_find_crlf(buf@, pos as int);
    }
    if count < 0 {
        return Step::Done(count, start);
    }
    let mut new_pos: usize = start;
    let mut i: i64 = 0;
    while i < count
        invariant
            0 <= i <= count,
            pos < start <= new_pos <= buf@.len(),
            parse_size(buf@, pos as int) == Parsed::Complete(count as int, start as int),
            parse_items(buf@, start as int, i as nat) matches Parsed::Complete(_, cur) && cur
                == new_pos,
        decreases count - i,
    {
        proof {
            lemma_parse_items_split(buf@, start as int, i as nat, count as nat);
            lemma_parse_items_split(buf@, start as int, i as nat, (i + 1) as nat);
        }
        match decode(buf, new_pos) {
            Ok(None) => {
                return Step::More;
            },
            Err(Error::Protocol(fault)) => {
                return Step::Fault(fault);
            },
            Err(_) => {
                assert(false);
                return Step::More;
            },
            Ok(Some(next)) => {
                proof {
                    let s = buf@;
                    let value = parse_value(s, new_pos as int)->Complete_0;
                    assert(parse_items(s, next as int, 0) == Parsed::Complete(
                        Seq::<ValueView>::empty(),
                        next as int,
                    ));
                    assert(parse_items(s, new_pos as int, 1) matches Parsed::Complete(_, e) && e
                        == next);
                }
                new_pos = next;
            },
        }
        i = i + 1;
    }
    Step::Done(count, new_pos)
}

/// Where the frames of the map whose count line is at `pos` end. The count
/// comes with the end; no frame follows a negative count.
fn map(buf: &[u8], pos: usize) -> (r: Step<i64>)
    requires
        0 < pos <= buf@.len(),
    ensures
        match parse_size(buf@, pos as int) {
            Parsed::Incomplete => r is More,
            Parsed::Malformed(fault) => r matches Step::Fault(f) && f == fault,
            Parsed::Complete(n, start) => if n < 0 {
                r matches Step::Done(m, next) && m == n && next == start
            } else {
                match parse_pairs(buf@, start, n as nat) {
                    Parsed::Incomplete => r is More,
                    Parsed::Malformed(fault) => r matches Step::Fault(f) && f == fault,
                    Parsed::Complete(_, end) => r matches Step::Done(m, next) && m == n && next
                        == end,
                }
            },
        },
    decreases buf@.len() - pos, 1nat,
{
    let (count, start) = match size(buf, pos) {
        Step::More => {
            return Step::More;
        },
        Step::Fault(fault) => {
            return Step::Fault(fault);
        },
        Step::Done(n, start) => (n, start),
    };
    proof {
        lemma_find_crlf(buf@, pos as int);
    }
    if count < 0 {
        return Step::Done(count, start);
    }
    let mut new_pos: usize = start;
    let mut i: i64 = 0;
    while i < count
        invariant
            0 <= i <= count,
            pos < start <= new_pos <= buf@.len(),
            parse_size(buf@, pos as int) == Parsed::Complete(count as int, start as int),
            parse_pairs(buf@, start as int, i as nat) matches Parsed::Complete(_, cur) && cur
                == new_pos,
        decreases count - i,
    {
        proof {
            lemma_parse_pairs_split(buf@, start as int, i as nat, count as nat);
            lemma_parse_pairs_split(buf@, start as int, i as nat, (i + 1) as nat);
        }
        let middle = match decode(buf, new_pos) {
            Ok(None) => {
                return Step::More;
            },
            Err(Error::Protocol(fault)) => {
                return Step::Fault(fault);
            },
            Err(_) => {
                assert(false);
                return Step::More;
            },
            Ok(Some(p)) => p,
        };
        let next = match decode(buf, middle) {
            Ok(None) => {
                return Step::More;
            },
            Err(Error::Protocol(fault)) => {
                return Step::Fault(fault);
            },
            Err(_) => {
                assert(false);
                return Step::More;
            },
            Ok(Some(p)) => p,
        };
        proof {
            let s = buf@;
            assert(parse_pairs(s, next as int, 0) == Parsed::Complete(
                Seq::<(ValueView, ValueView)>::empty(),
                next as int,
            ));
            assert(parse_pairs(s, new_pos as int, 1) matches Parsed::Complete(_, e) && e == next);
        }
        new_pos = next;
        i = i + 1;
    }
    Step::Done(count, new_pos)
}

/// Reading `n` frames from `pos` is reading the first `i` of them and then
/// the rest from where those end.
pub proof fn lemma_parse_items_split(s: Seq<u8>, pos: int, i: nat, n: nat)
    requires
        i <= n,
        0 <= pos <= s.len(),
    ensures
        parse_items(s, pos, i) matches Parsed::Complete(done, cur) ==> parse_items(s, pos, n)
            == match parse_items(s, cur, (n - i) as nat) {
            Parsed::Incomplete => Parsed::Incomplete,
            Parsed::Malformed(fault) => Parsed::Malformed(fault),
            Parsed::Complete(rest, end) => Parsed::Complete(done + rest, end),
        },
    decreases i,
{
    if let Parsed::Complete(done, cur) = parse_items(s, pos, i) {
        if i == 0 {
            if let Parsed::Complete(rest, end) = parse_items(s, cur, n) {
                assert(done + rest =~= rest);
            }
        } else {
            let first = parse_value(s, pos)->Complete_0;
            let p = parse_value(s, pos)->Complete_1;
            lemma_parse_items_split(s, p, (i - 1) as nat, (n - 1) as nat);
            let tail = parse_items(s, p, (i - 1) as nat)->Complete_0;
            if let Parsed::Complete(rest, end) = parse_items(s, cur, (n - i) as nat) {
                assert(seq![first] + (tail + rest) =~= done + rest);
            }
        }
    }
}

/// Reading `n` pairs from `pos` is reading the first `i` of them and then
/// the rest from where those end.
pub proof fn lemma_parse_pairs_split(s: Seq<u8>, pos: int, i: nat, n: nat)
    requires
        i <= n,
        0 <= pos <= s.len(),
    ensures
        parse_pairs(s, pos, i) matches Parsed::Complete(done, cur) ==> parse_pairs(s, pos, n)
            == match parse_pairs(s, cur, (n - i) as nat) {
            Parsed::Incomplete => Parsed::Incomplete,
            Parsed::Malformed(fault) => Parsed::Malformed(fault),
            Parsed::Complete(rest, end) => Parsed::Complete(done + rest, end),
        },
    decreases i,
{
    if let Parsed::Complete(done, cur) = parse_pairs(s, pos, i) {
        if i == 0 {
            if let Parsed::Complete(rest, end) = parse_pairs(s, cur, n) {
                assert(done + rest =~= rest);
            }
        } else {
            let key = parse_value(s, pos)->Complete_0;
            let p = parse_value(s, pos)->Complete_1;
            let value = parse_value(s, p)->Complete_0;
            let q = parse_value(s, p)->Complete_1;
            lemma_parse_pairs_split(s, q, (i - 1) as nat, (n - 1) as nat);
            let tail = parse_pairs(s, q, (i - 1) as nat)->Complete_0;
            if let Parsed::Complete(rest, end) = parse_pairs(s, cur, (n - i) as nat) {
                assert(seq![(key, value)] + (tail + rest) =~= done + rest);
            }
        }
    }
}

/// Decoder of the frames of a connection as they come: raw bytes.
pub struct BufferDecoder;

impl BufferDecoder {
    /// Takes the bytes of one frame off the head of `src`. Where the bytes
    /// hold no whole frame, or no frame at all, `src` is left as it is.
    pub fn decode(&mut self, src: &mut bytes::BytesMut) -> (r: Result<Option<Vec<u8>>, Error>)
        ensures
            match parse_value(buffer_bytes(*old(src)), 0) {
                Parsed::Incomplete => r matches Ok(None) && buffer_bytes(*final(src))
                    == buffer_bytes(*old(src)),
                Parsed::Malformed(fault) => r matches Err(e) && e@ == ErrorView::Protocol(fault)
                    && buffer_bytes(*final(src)) == buffer_bytes(*old(src)),
                Parsed::Complete(_, end) => r matches Ok(Some(frame)) && frame@ == buffer_bytes(
                    *old(src),
                ).take(end) && buffer_bytes(*final(src)) == buffer_bytes(*old(src)).skip(end),
            },
    {
        match decode(buffer_slice(src), 0) {
            Ok(Some(pos)) => {
                let vec = copy_range(buffer_slice(src), 0, pos);
                assert(vec@ =~= buffer_bytes(*src).take(pos as int));
                buffer_advance(src, pos);
                Ok(Some(vec))
            },
            Ok(None) => Ok(None),
            Err(e) => Err(e),
        }
    }
}

} // verus!
