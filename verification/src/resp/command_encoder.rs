//! The encoder: a command goes on the wire as an array of bulk strings, its
//! name first.

use vstd::prelude::*;
use crate::resp::buffer_decoder::buffer_bytes;
use crate::resp::command::{Command, CommandView};
use crate::resp::decimal::{decimal, push_length};
use crate::resp::round_trip::lemma_decode_encode;
use crate::resp::text::{push_bytes, CR, LF};
use crate::resp::value::ValueView;
use crate::resp::wire::{
    all_well_formed, crlf, parse_value, well_formed, wire_form, wire_items, Parsed, TAG_ARRAY,
    TAG_BULK,
};

verus! {

/// `BytesMut::extend_from_slice` of `bytes::BytesMut`: appends the bytes.
#[verifier::external_body]
pub(crate) fn buffer_extend(buf: &mut bytes::BytesMut, extend: &[u8])
    ensures
        buffer_bytes(*final(buf)) == buffer_bytes(*old(buf)) + extend@,
{
    buf.extend_from_slice(extend)
}

/// `BytesMut::clear` of `bytes::BytesMut`: the buffer holds nothing after
/// it.
#[verifier::external_body]
pub(crate) fn buffer_clear(buf: &mut bytes::BytesMut)
    ensures
        buffer_bytes(*final(buf)) == Seq::<u8>::empty(),
{
    buf.clear()
}

/// The bulk strings that byte strings are sent as.
pub open spec fn bulk_strings(items: Seq<Seq<u8>>) -> Seq<ValueView> {
    items.map_values(|b: Seq<u8>| ValueView::BulkString(Some(b)))
}

/// The value that a command is sent as.
pub open spec fn command_value(c: CommandView) -> ValueView {
    ValueView::Array(Some(bulk_strings(seq![c.name] + c.args)))
}

/// The bytes that a command is sent as.
pub open spec fn command_wire(c: CommandView) -> Seq<u8> {
    wire_form(command_value(c))
}

/// The bytes that commands are sent as, one after the other.
pub open spec fn batch_wire(commands: Seq<CommandView>) -> Seq<u8>
    decreases commands.len(),
{
    if commands.len() == 0 {
        Seq::empty()
    } else {
        batch_wire(commands.drop_last()) + command_wire(commands.last())
    }
}

/// The frames of a sequence with one more value at its end.
pub proof fn lemma_wire_items_push(items: Seq<ValueView>, last: ValueView)
    ensures
        wire_items(items.push(last)) == wire_items(items) + wire_form(last),
    decreases items.len(),
{
    let all = items.push(last);
    if items.len() == 0 {
        assert(all.drop_first() =~= Seq::<ValueView>::empty());
        assert(wire_items(all.drop_first()) =~= Seq::<u8>::empty());
        assert(wire_items(all) =~= wire_form(last));
        assert(wire_items(items) + wire_form(last) =~= wire_form(last));
    } else {
        lemma_wire_items_push(items.drop_first(), last);
        assert(all.drop_first() =~= items.drop_first().push(last));
        assert(wire_items(all) =~= wire_items(items) + wire_form(last));
    }
}

/// Bulk strings of a length within the 64-bit signed range are well formed.
pub proof fn lemma_bulk_strings_well_formed(items: Seq<Seq<u8>>)
    requires
        forall|i: int| 0 <= i < items.len() ==> (#[trigger] items[i]).len() <= i64::MAX,
    ensures
        all_well_formed(bulk_strings(items)),
    decreases items.len(),
{
    if items.len() > 0 {
        assert forall|i: int| 0 <= i < items.drop_first().len() implies (
        #[trigger] items.drop_first()[i]).len() <= i64::MAX by {
            assert(items.drop_first()[i] == items[i + 1]);
        }
        lemma_bulk_strings_well_formed(items.drop_first());
        assert(bulk_strings(items).drop_first() =~= bulk_strings(items.drop_first()));
        assert(items[0].len() <= i64::MAX);
        assert(well_formed(bulk_strings(items)[0]));
    }
}

/// Decoding what a command is sent as gives the array of its name and its
/// arguments as bulk strings, and takes exactly those bytes.
pub proof fn lemma_command_round_trip(c: CommandView, rest: Seq<u8>)
    requires
        c.name.len() <= i64::MAX,
        c.args.len() < i64::MAX,
        forall|i: int| 0 <= i < c.args.len() ==> (#[trigger] c.args[i]).len() <= i64::MAX,
    ensures
        parse_value(command_wire(c) + rest, 0) == Parsed::Complete(
            command_value(c),
            command_wire(c).len() as int,
        ),
{
    lemma_bulk_strings_well_formed(seq![c.name] + c.args);
    lemma_decode_encode(command_value(c), rest);
}

/// Appends one bulk string to `out`.
pub fn encode_bulk(bytes: &[u8], out: &mut Vec<u8>)
    ensures
        final(out)@ == old(out)@ + wire_form(ValueView::BulkString(Some(bytes@))),
{
    out.push(TAG_BULK);
    push_length(out, bytes.len());
    out.push(CR);
    out.push(LF);
    push_bytes(out, bytes);
    out.push(CR);
    out.push(LF);
    assert(out@ =~= old(out)@ + wire_form(ValueView::BulkString(Some(bytes@))));
}

/// Appends to `out` the bytes that `command` is sent as.
pub fn encode_command(command: &Command, out: &mut Vec<u8>)
    requires
        command@.args.len() < usize::MAX,
    ensures
        final(out)@ == old(out)@ + command_wire(command@),
{
    let ghost all = seq![command@.name] + command@.args;
    let count = command.args.len();
    out.push(TAG_ARRAY);
    push_length(out, count + 1);
    out.push(CR);
    out.push(LF);
    let ghost head = seq![TAG_ARRAY] + decimal(all.len() as int) + crlf();
    assert(out@ =~= old(out)@ + head);
    encode_bulk(command.name.as_slice(), out);
    proof {
        lemma_wire_items_push(Seq::empty(), ValueView::BulkString(Some(command@.name)));
        assert(bulk_strings(all.take(1)) =~= Seq::<ValueView>::empty().push(
            ValueView::BulkString(Some(command@.name)),
        ));
        assert(out@ =~= old(out)@ + head + wire_items(bulk_strings(all.take(1))));
    }
    let mut i: usize = 0;
    while i < count
        invariant
            i <= count,
            count == command@.args.len(),
            all == seq![command@.name] + command@.args,
            head == seq![TAG_ARRAY] + decimal(all.len() as int) + crlf(),
            out@ == old(out)@ + head + wire_items(bulk_strings(all.take(i + 1))),
        decreases count - i,
    {
        encode_bulk(command.args.get(i).as_slice(), out);
        proof {
            let item = ValueView::BulkString(Some(command@.args[i as int]));
            lemma_wire_items_push(bulk_strings(all.take(i + 1)), item);
            assert(bulk_strings(all.take(i + 2)) =~= bulk_strings(all.take(i + 1)).push(item));
            assert(out@ =~= old(out)@ + head + wire_items(bulk_strings(all.take(i + 2))));
        }
        i = i + 1;
    }
    assert(all.take(count + 1) =~= all);
}

/// Encoder of a connection's write half.
pub struct CommandEncoder;

impl CommandEncoder {
    /// Appends to `dst` the bytes that `command` is sent as.
    pub fn encode(&mut self, command: &Command, dst: &mut bytes::BytesMut)
        requires
            command@.args.len() < usize::MAX,
        ensures
            buffer_bytes(*final(dst)) == buffer_bytes(*old(dst)) + command_wire(command@),
    {
        let mut out: Vec<u8> = Vec::new();
        encode_command(command, &mut out);
        assert(out@ =~= command_wire(command@));
        buffer_extend(dst, out.as_slice());
    }
}

} // verus!
