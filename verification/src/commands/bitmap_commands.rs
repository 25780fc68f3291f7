//! Commands on bitmaps and bit fields, and the options they take.

use vstd::prelude::*;
use crate::client::client::Client;
use crate::client::pipeline::Pipeline;
use crate::client::prepared_command::{prepare_command, PreparedCommand};
use crate::client::transaction::Transaction;
use crate::resp::command::{cmd, CommandArgs, CommandView, IntoArgs};
use crate::resp::decimal::decimal;
use crate::resp::text::bytes_of;

verus! {

/// Unit of a range: byte or bit.
pub enum BitUnit {
    Byte,
    Bit,
}

impl IntoArgs for BitUnit {
    open spec fn arg_list(&self) -> Seq<Seq<u8>> {
        match *self {
            BitUnit::Byte => seq![bytes_of("BYTE")],
            BitUnit::Bit => seq![bytes_of("BIT")],
        }
    }

    fn into_args(self, args: CommandArgs) -> (r: CommandArgs) {
        args.arg(
            match self {
                BitUnit::Byte => "BYTE",
                BitUnit::Bit => "BIT",
            },
        )
    }
}

/// The interval that a bit count or a bit position is taken over.
pub struct BitRange {
    pub command_args: CommandArgs,
}

impl BitRange {
    /// The interval from `start` to `end`; negative positions count from
    /// the end.
    pub fn range(start: isize, end: isize) -> (r: BitRange)
        ensures
            r.command_args@ == seq![decimal(start as int), decimal(end as int)],
    {
        let r = BitRange { command_args: CommandArgs::default().arg(start).arg(end) };
        assert(r.command_args@ =~= seq![decimal(start as int), decimal(end as int)]);
        r
    }

    /// The interval counted in the given unit.
    pub fn unit(self, unit: BitUnit) -> (r: BitRange)
        ensures
            r.command_args@ == self.command_args@ + unit.arg_list(),
    {
        BitRange { command_args: self.command_args.arg(unit) }
    }
}

impl Default for BitRange {
    fn default() -> (r: BitRange)
        ensures
            r.command_args@ == Seq::<Seq<u8>>::empty(),
    {
        BitRange { command_args: CommandArgs::default() }
    }
}

impl IntoArgs for BitRange {
    open spec fn arg_list(&self) -> Seq<Seq<u8>> {
        self.command_args@
    }

    fn into_args(self, args: CommandArgs) -> (r: CommandArgs) {
        args.arg(self.command_args)
    }
}

/// What happens where a bit field overflows.
pub enum BitFieldOverflow {
    Wrap,
    Sat,
    Fail,
}

impl IntoArgs for BitFieldOverflow {
    open spec fn arg_list(&self) -> Seq<Seq<u8>> {
        match *self {
            BitFieldOverflow::Wrap => seq![bytes_of("WRAP")],
            BitFieldOverflow::Sat => seq![bytes_of("SAT")],
            BitFieldOverflow::Fail => seq![bytes_of("FAIL")],
        }
    }

    fn into_args(self, args: CommandArgs) -> (r: CommandArgs) {
        args.arg(
            match self {
                BitFieldOverflow::Wrap => "WRAP",
                BitFieldOverflow::Sat => "SAT",
                BitFieldOverflow::Fail => "FAIL",
            },
        )
    }
}

/// A bitwise operation between strings.
pub enum BitOperation {
    And,
    Or,
    Xor,
    Not,
}

impl IntoArgs for BitOperation {
    open spec fn arg_list(&self) -> Seq<Seq<u8>> {
        match *self {
            BitOperation::And => seq![bytes_of("AND")],
            BitOperation::Or => seq![bytes_of("OR")],
            BitOperation::Xor => seq![bytes_of("XOR")],
            BitOperation::Not => seq![bytes_of("NOT")],
        }
    }

    fn into_args(self, args: CommandArgs) -> (r: CommandArgs) {
        args.arg(
            match self {
                BitOperation::And => "AND",
                BitOperation::Or => "OR",
                BitOperation::Xor => "XOR",
                BitOperation::Not => "NOT",
            },
        )
    }
}

/// The sub-command `GET` of a bit field command.
pub struct BitFieldGetSubCommand<E = &'static str, O = &'static str> where E: IntoArgs, O: IntoArgs {
    pub encoding: E,
    pub offset: O,
}

impl<E, O> BitFieldGetSubCommand<E, O> where E: IntoArgs, O: IntoArgs {
    /// Reads the bit field of the given encoding at the given offset.
    pub fn new(encoding: E, offset: O) -> (r: Self)
        ensures
            r.encoding == encoding,
            r.offset == offset,
    {
        Self { encoding, offset }
    }
}

impl<E, O> IntoArgs for BitFieldGetSubCommand<E, O> where E: IntoArgs, O: IntoArgs {
    open spec fn arg_list(&self) -> Seq<Seq<u8>> {
        seq![bytes_of("GET")] + self.encoding.arg_list() + self.offset.arg_list()
    }

    fn into_args(self, args: CommandArgs) -> (r: CommandArgs) {
        let ghost wanted = args@ + self.arg_list();
        let r = args.arg("GET").arg(self.encoding).arg(self.offset);
        assert(r@ =~= wanted);
        r
    }
}

/// A sub-command of a bit field command.
pub enum BitFieldSubCommand<E = &'static str, O = &'static str> where E: IntoArgs, O: IntoArgs {
    Get(BitFieldGetSubCommand<E, O>),
    SetValue(E, O, u64),
    IncrBy(E, O, i64),
    Overflow(BitFieldOverflow),
}

impl<E, O> BitFieldSubCommand<E, O> where E: IntoArgs, O: IntoArgs {
    /// Reads the bit field.
    pub fn get(encoding: E, offset: O) -> (r: Self)
        ensures
            r == Self::Get(BitFieldGetSubCommand { encoding, offset }),
    {
        Self::Get(BitFieldGetSubCommand::new(encoding, offset))
    }

    /// Sets the bit field; the old value is the reply.
    pub fn set(encoding: E, offset: O, value: u64) -> (r: Self)
        ensures
            r == Self::SetValue(encoding, offset, value),
    {
        Self::SetValue(encoding, offset, value)
    }

    /// Adds to the bit field; the new value is the reply.
    pub fn incr_by(encoding: E, offset: O, increment: i64) -> (r: Self)
        ensures
            r == Self::IncrBy(encoding, offset, increment),
    {
        Self::IncrBy(encoding, offset, increment)
    }

    /// Sets what happens where the sub-commands after it overflow.
    pub fn overflow(overflow: BitFieldOverflow) -> (r: Self)
        ensures
            r == Self::Overflow(overflow),
    {
        Self::Overflow(overflow)
    }
}

impl<E, O> IntoArgs for BitFieldSubCommand<E, O> where E: IntoArgs, O: IntoArgs {
    open spec fn arg_list(&self) -> Seq<Seq<u8>> {
        match *self {
            BitFieldSubCommand::Get(g) => g.arg_list(),
            BitFieldSubCommand::SetValue(encoding, offset, value) => seq![bytes_of("SET")]
                + encoding.arg_list() + offset.arg_list() + seq![decimal(value as int)],
            BitFieldSubCommand::IncrBy(encoding, offset, increment) => seq![bytes_of("INCRBY")]
                + encoding.arg_list() + offset.arg_list() + seq![decimal(increment as int)],
            BitFieldSubCommand::Overflow(overflow) => seq![bytes_of("OVERFLOW")]
                + overflow.arg_list(),
        }
    }

    fn into_args(self, args: CommandArgs) -> (r: CommandArgs) {
        let ghost wanted = args@ + self.arg_list();
        let r = match self {
            BitFieldSubCommand::Get(g) => g.into_args(args),
            BitFieldSubCommand::SetValue(encoding, offset, value) => {
                args.arg("SET").arg(encoding).arg(offset).arg(value)
            },
            BitFieldSubCommand::IncrBy(encoding, offset, increment) => {
                args.arg("INCRBY").arg(encoding).arg(offset).arg(increment)
            },
            BitFieldSubCommand::Overflow(overflow) => args.arg("OVERFLOW").arg(overflow),
        };
        assert(r@ =~= wanted);
        r
    }
}

/// The arguments that values are written as, one value after the other.
pub open spec fn args_of_all<T: IntoArgs>(items: Seq<T>) -> Seq<Seq<u8>>
    decreases items.len(),
{
    if items.len() == 0 {
        Seq::empty()
    } else {
        items[0].arg_list() + args_of_all(items.drop_first())
    }
}

impl<T: IntoArgs> IntoArgs for Vec<T> {
    open spec fn arg_list(&self) -> Seq<Seq<u8>> {
        args_of_all(self@)
    }

    fn into_args(self, args: CommandArgs) -> (r: CommandArgs) {
        let ghost all = self@;
        let mut items = self;
        let mut out = args;
        assert(args@ + Seq::<Seq<u8>>::empty() =~= args@);
        while items.len() > 0
            invariant
                out@ + args_of_all(items@) == args@ + args_of_all(all),
            decreases items.len(),
        {
            let ghost before = items@;
            let item = items.remove(0);
            proof {
                assert(items@ =~= before.drop_first());
                assert((out@ + item.arg_list()) + args_of_all(items@) =~= out@ + (item.arg_list()
                    + args_of_all(items@)));
            }
            out = out.arg(item);
        }
        assert(out@ + Seq::<Seq<u8>>::empty() =~= out@);
        out
    }
}

/// The command named `name` with the given arguments.
pub open spec fn command_of(name: &str, args: Seq<Seq<u8>>) -> CommandView {
    CommandView { name: bytes_of(name), args }
}

/// Commands on bitmaps and bit fields.
pub trait BitmapCommands: Sized {
    /// Counts the bits set in a string.
    fn bitcount<K: IntoArgs>(&mut self, key: K, range: BitRange) -> (r: PreparedCommand<'_, Self>)
        ensures
            r.command@ == command_of("BITCOUNT", key.arg_list() + range.arg_list()),
            *r.executor == *old(self),
            *final(self) == *final(r.executor),
    {
        prepare_command(self, cmd("BITCOUNT").arg(key).arg(range))
    }

    /// Reads and writes bit fields of a string.
    fn bitfield<K: IntoArgs, E: IntoArgs, O: IntoArgs>(
        &mut self,
        key: K,
        sub_commands: Vec<BitFieldSubCommand<E, O>>,
    ) -> (r: PreparedCommand<'_, Self>)
        ensures
            r.command@ == command_of("BITFIELD", key.arg_list() + sub_commands.arg_list()),
            *r.executor == *old(self),
            *final(self) == *final(r.executor),
    {
        prepare_command(self, cmd("BITFIELD").arg(key).arg(sub_commands))
    }

    /// Reads bit fields of a string; can be sent to a replica.
    fn bitfield_readonly<K: IntoArgs, E: IntoArgs, O: IntoArgs>(
        &mut self,
        key: K,
        get_commands: Vec<BitFieldGetSubCommand<E, O>>,
    ) -> (r: PreparedCommand<'_, Self>)
        ensures
            r.command@ == command_of("BITFIELD_RO", key.arg_list() + get_commands.arg_list()),
            *r.executor == *old(self),
            *final(self) == *final(r.executor),
    {
        prepare_command(self, cmd("BITFIELD_RO").arg(key).arg(get_commands))
    }

    /// Combines strings bit by bit and stores the result.
    fn bitop<D: IntoArgs, K: IntoArgs>(
        &mut self,
        operation: BitOperation,
        dest_key: D,
        keys: Vec<K>,
    ) -> (r: PreparedCommand<'_, Self>)
        ensures
            r.command@ == command_of(
                "BITOP",
                operation.arg_list() + dest_key.arg_list() + keys.arg_list(),
            ),
            *r.executor == *old(self),
            *final(self) == *final(r.executor),
    {
        prepare_command(self, cmd("BITOP").arg(operation).arg(dest_key).arg(keys))
    }

    /// Finds the first bit that is set, or the first that is clear.
    fn bitpos<K: IntoArgs>(&mut self, key: K, bit: u64, range: BitRange) -> (r: PreparedCommand<
        '_,
        Self,
    >)
        ensures
            r.command@ == command_of(
                "BITPOS",
                key.arg_list() + seq![decimal(bit as int)] + range.arg_list(),
            ),
            *r.executor == *old(self),
            *final(self) == *final(r.executor),
    {
        prepare_command(self, cmd("BITPOS").arg(key).arg(bit).arg(range))
    }

    /// Reads the bit at an offset.
    fn getbit<K: IntoArgs>(&mut self, key: K, offset: u64) -> (r: PreparedCommand<'_, Self>)
        ensures
            r.command@ == command_of("GETBIT", key.arg_list() + seq![decimal(offset as int)]),
            *r.executor == *old(self),
            *final(self) == *final(r.executor),
    {
        prepare_command(self, cmd("GETBIT").arg(key).arg(offset))
    }

    /// Sets or clears the bit at an offset.
    fn setbit<K: IntoArgs>(&mut self, key: K, offset: u64, value: u64) -> (r: PreparedCommand<
        '_,
        Self,
    >)
        ensures
            r.command@ == command_of(
                "SETBIT",
                key.arg_list() + seq![decimal(offset as int), decimal(value as int)],
            ),
            *r.executor == *old(self),
            *final(self) == *final(r.executor),
    {
        let ghost wanted = key.arg_list() + seq![decimal(offset as int), decimal(value as int)];
        let command = cmd("SETBIT").arg(key).arg(offset).arg(value);
        assert(command@.args =~= wanted);
        prepare_command(self, command)
    }
}

impl BitmapCommands for Pipeline {

}

impl BitmapCommands for Transaction {

}

impl BitmapCommands for Client {

}

} // verus!
