//! A command prepared for the executor that will send it.

use vstd::prelude::*;
use crate::resp::command::Command;

verus! {

/// A command and the executor that it was prepared for.
pub struct PreparedCommand<'a, T> {
    /// The executor: a client, a pipeline or a transaction.
    pub executor: &'a mut T,
    /// The command.
    pub command: Command,
}

/// Prepares a command for an executor.
pub fn prepare_command<'a, T>(executor: &'a mut T, command: Command) -> (r: PreparedCommand<'a, T>)
    ensures
        r.command == command,
        *r.executor == *old(executor),
        *final(executor) == *final(r.executor),
{
    PreparedCommand { executor, command }
}

} // verus!
