//! A command: its name and its arguments, each a byte string.

use vstd::prelude::*;
use crate::resp::decimal::{decimal, push_decimal, push_digits};
use crate::resp::text::{bytes_of, copy_bytes};

verus! {

/// The byte strings that a sequence of vectors holds.
pub open spec fn byte_strings(v: Seq<Vec<u8>>) -> Seq<Seq<u8>> {
    v.map_values(|a: Vec<u8>| a@)
}

/// Appending a vector appends its bytes to the byte strings.
pub proof fn lemma_byte_strings_push(v: Seq<Vec<u8>>, a: Vec<u8>)
    ensures
        byte_strings(v.push(a)) == byte_strings(v).push(a@),
{
    assert(byte_strings(v.push(a)) =~= byte_strings(v).push(a@));
}

/// The arguments of a command, in order.
#[derive(Debug, PartialEq, Eq)]
pub struct CommandArgs {
    pub args: Vec<Vec<u8>>,
}

impl View for CommandArgs {
    type V = Seq<Seq<u8>>;

    open spec fn view(&self) -> Seq<Seq<u8>> {
        byte_strings(self.args@)
    }
}

/// What can be written as arguments of a command.
pub trait IntoArgs: Sized {
    /// The arguments that the value is written as.
    spec fn arg_list(&self) -> Seq<Seq<u8>>;

    /// Appends the value to `args`.
    fn into_args(self, args: CommandArgs) -> (r: CommandArgs)
        ensures
            r@ == args@ + self.arg_list(),
    ;
}

impl CommandArgs {
    /// No arguments.
    pub fn new() -> (r: CommandArgs)
        ensures
            r@ == Seq::<Seq<u8>>::empty(),
    {
        let r = CommandArgs { args: Vec::new() };
        assert(r@ =~= Seq::<Seq<u8>>::empty());
        r
    }

    /// Appends what `value` is written as.
    pub fn arg<A: IntoArgs>(self, value: A) -> (r: CommandArgs)
        ensures
            r@ == self@ + value.arg_list(),
    {
        value.into_args(self)
    }

    /// Appends one byte string.
    pub fn push(self, bytes: Vec<u8>) -> (r: CommandArgs)
        ensures
            r@ == self@.push(bytes@),
    {
        let mut args = self.args;
        proof {
            lemma_byte_strings_push(args@, bytes);
        }
        args.push(bytes);
        CommandArgs { args }
    }

    /// The number of arguments.
    pub fn len(&self) -> (n: usize)
        ensures
            n == self@.len(),
    {
        self.args.len()
    }

    /// The argument at `index`.
    pub fn get(&self, index: usize) -> (r: &Vec<u8>)
        requires
            index < self@.len(),
        ensures
            r@ == self@[index as int],
    {
        &self.args[index]
    }

    /// A copy of the arguments.
    pub fn duplicate(&self) -> (r: CommandArgs)
        ensures
            r@ == self@,
    {
        let mut out = CommandArgs::new();
        let mut i: usize = 0;
        while i < self.args.len()
            invariant
                i <= self.args.len(),
                out@ == self@.take(i as int),
            decreases self.args.len() - i,
        {
            out = out.push(copy_bytes(self.args[i].as_slice()));
            assert(self@.take(i + 1) =~= self@.take(i as int).push(self@[i as int]));
            i = i + 1;
        }
        assert(self@.take(self.args.len() as int) =~= self@);
        out
    }
}

impl Clone for CommandArgs {
    fn clone(&self) -> (r: CommandArgs)
        ensures
            r@ == self@,
    {
        self.duplicate()
    }
}

impl Default for CommandArgs {
    fn default() -> (r: CommandArgs)
        ensures
            r@ == Seq::<Seq<u8>>::empty(),
    {
        CommandArgs::new()
    }
}

impl IntoArgs for CommandArgs {
    open spec fn arg_list(&self) -> Seq<Seq<u8>> {
        self@
    }

    fn into_args(self, args: CommandArgs) -> (r: CommandArgs) {
        let mut out = args;
        let mut i: usize = 0;
        while i < self.args.len()
            invariant
                i <= self.args.len(),
                out@ == args@ + self@.take(i as int),
            decreases self.args.len() - i,
        {
            out = out.push(copy_bytes(self.args[i].as_slice()));
            assert(self@.take(i + 1) =~= self@.take(i as int).push(self@[i as int]));
            assert(out@ =~= args@ + self@.take(i + 1));
            i = i + 1;
        }
        assert(self@.take(self.args.len() as int) =~= self@);
        out
    }
}

impl IntoArgs for &str {
    open spec fn arg_list(&self) -> Seq<Seq<u8>> {
        seq![bytes_of(*self)]
    }

    fn into_args(self, args: CommandArgs) -> (r: CommandArgs) {
        let r = args.push(copy_bytes(self.as_bytes()));
        assert(r@ =~= args@ + seq![bytes_of(self)]);
        r
    }
}

impl IntoArgs for Vec<u8> {
    open spec fn arg_list(&self) -> Seq<Seq<u8>> {
        seq![self@]
    }

    fn into_args(self, args: CommandArgs) -> (r: CommandArgs) {
        let ghost bytes = self@;
        let r = args.push(self);
        assert(r@ =~= args@ + seq![bytes]);
        r
    }
}

impl IntoArgs for &[u8] {
    open spec fn arg_list(&self) -> Seq<Seq<u8>> {
        seq![self@]
    }

    fn into_args(self, args: CommandArgs) -> (r: CommandArgs) {
        let r = args.push(copy_bytes(self));
        assert(r@ =~= args@ + seq![self@]);
        r
    }
}

impl IntoArgs for i64 {
    open spec fn arg_list(&self) -> Seq<Seq<u8>> {
        seq![decimal(*self as int)]
    }

    fn into_args(self, args: CommandArgs) -> (r: CommandArgs) {
        let mut text: Vec<u8> = Vec::new();
        push_decimal(&mut text, self);
        assert(text@ =~= decimal(self as int));
        let r = args.push(text);
        assert(r@ =~= args@ + seq![decimal(self as int)]);
        r
    }
}

impl IntoArgs for u64 {
    open spec fn arg_list(&self) -> Seq<Seq<u8>> {
        seq![decimal(*self as int)]
    }

    fn into_args(self, args: CommandArgs) -> (r: CommandArgs) {
        let mut text: Vec<u8> = Vec::new();
        push_digits(&mut text, self);
        assert(text@ =~= decimal(self as int));
        let r = args.push(text);
        assert(r@ =~= args@ + seq![decimal(self as int)]);
        r
    }
}

impl IntoArgs for usize {
    open spec fn arg_list(&self) -> Seq<Seq<u8>> {
        seq![decimal(*self as int)]
    }

    fn into_args(self, args: CommandArgs) -> (r: CommandArgs) {
        (self as u64).into_args(args)
    }
}

impl IntoArgs for isize {
    open spec fn arg_list(&self) -> Seq<Seq<u8>> {
        seq![decimal(*self as int)]
    }

    fn into_args(self, args: CommandArgs) -> (r: CommandArgs) {
        (self as i64).into_args(args)
    }
}

impl IntoArgs for u16 {
    open spec fn arg_list(&self) -> Seq<Seq<u8>> {
        seq![decimal(*self as int)]
    }

    fn into_args(self, args: CommandArgs) -> (r: CommandArgs) {
        (self as u64).into_args(args)
    }
}

/// A command to send to the server.
#[derive(Debug, PartialEq, Eq)]
pub struct Command {
    /// The name, such as `GET`.
    pub name: Vec<u8>,
    /// The arguments after the name.
    pub args: CommandArgs,
}

impl Clone for Command {
    fn clone(&self) -> (r: Command)
        ensures
            r@ == self@,
    {
        Command { name: copy_bytes(self.name.as_slice()), args: self.args.duplicate() }
    }
}

/// Mathematical form of a [`Command`].
pub struct CommandView {
    pub name: Seq<u8>,
    pub args: Seq<Seq<u8>>,
}

impl View for Command {
    type V = CommandView;

    open spec fn view(&self) -> CommandView {
        CommandView { name: self.name@, args: self.args@ }
    }
}

/// The views of a sequence of commands.
pub open spec fn command_views(commands: Seq<Command>) -> Seq<CommandView> {
    commands.map_values(|c: Command| c@)
}

/// A command with the given name and no arguments.
pub fn cmd(name: &str) -> (r: Command)
    ensures
        r@ == (CommandView { name: bytes_of(name), args: Seq::empty() }),
{
    Command { name: copy_bytes(name.as_bytes()), args: CommandArgs::new() }
}

impl Command {
    /// A command with the given name and no arguments.
    pub fn new(name: Vec<u8>) -> (r: Command)
        ensures
            r@ == (CommandView { name: name@, args: Seq::empty() }),
    {
        Command { name, args: CommandArgs::new() }
    }

    /// The command with what `value` is written as appended to its
    /// arguments.
    pub fn arg<A: IntoArgs>(self, value: A) -> (r: Command)
        ensures
            r@ == (CommandView { name: self@.name, args: self@.args + value.arg_list() }),
    {
        Command { name: self.name, args: self.args.arg(value) }
    }

    /// A copy of the command.
    pub fn duplicate(&self) -> (r: Command)
        ensures
            r@ == self@,
    {
        Command { name: copy_bytes(self.name.as_slice()), args: self.args.duplicate() }
    }
}

} // verus!
