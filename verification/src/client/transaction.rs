//! A transaction: commands queued between `MULTI` and `EXEC`.

use vstd::prelude::*;
use crate::client::pipeline::{flags_from, 
    batch_reply, filter_results, kept, reply_of_batch, BatchPreparedCommand,
};
use crate::client::prepared_command::PreparedCommand;
use crate::error::{Error, ErrorView};
use crate::resp::command::{cmd, command_views, Command, CommandView};
use crate::resp::text::bytes_of;
use crate::resp::value::{views, Value, ValueView};

verus! {

/// Commands queued for a transaction, `MULTI` first, and for each whether
/// its reply is to be forgotten.
pub struct Transaction {
    pub commands: Vec<Command>,
    pub forget_flags: Vec<bool>,
}

/// The first error reply among the first `n` values.
pub open spec fn first_error(values: Seq<ValueView>, n: int) -> Option<ErrorView>
    decreases n,
{
    if n <= 0 {
        None
    } else {
        match first_error(values, n - 1) {
            Some(e) => Some(e),
            None => if n - 1 < values.len() {
                match values[n - 1] {
                    ValueView::Error(e) => Some(ErrorView::Redis(e)),
                    _ => None,
                }
            } else {
                None
            },
        }
    }
}

/// The flags of the commands after `MULTI`.
pub open spec fn flags_after_multi(forget_flags: Seq<bool>) -> Seq<bool> {
    flags_from(forget_flags, 1)
}

/// What the replies to a transaction of `queued` commands, `MULTI`
/// included, come to. An error reply to `MULTI` or to one of the commands
/// fails the transaction. The reply to `EXEC` holds the replies of the
/// commands: those not forgotten are what the transaction comes to. Nil in
/// its place says that the transaction was aborted.
pub open spec fn transaction_reply(values: Seq<ValueView>, queued: int, forget_flags: Seq<bool>)
    -> Result<ValueView, ErrorView> {
    match first_error(values, queued) {
        Some(e) => Err(e),
        None => if queued < values.len() {
            match values[queued] {
                ValueView::Array(Some(results)) => batch_reply(
                    kept(results, flags_after_multi(forget_flags)),
                ),
                ValueView::Array(None) => Err(ErrorView::Aborted),
                ValueView::BulkString(None) => Err(ErrorView::Aborted),
                _ => Err(ErrorView::UnexpectedReply),
            }
        } else {
            Err(ErrorView::UnexpectedReply)
        },
    }
}

impl Transaction {
    /// A transaction that holds `MULTI` alone.
    pub fn new() -> (r: Transaction)
        ensures
            command_views(r.commands@) == seq![
                CommandView { name: bytes_of("MULTI"), args: Seq::empty() },
            ],
            r.forget_flags@ == seq![false],
    {
        let mut transaction = Transaction { commands: Vec::new(), forget_flags: Vec::new() };
        transaction.queue(cmd("MULTI"));
        assert(command_views(transaction.commands@) =~= seq![
            CommandView { name: bytes_of("MULTI"), args: Seq::empty() },
        ]);
        assert(transaction.forget_flags@ =~= seq![false]);
        transaction
    }

    /// Queues a command into the transaction.
    pub fn queue(&mut self, command: Command)
        ensures
            final(self).commands@ == old(self).commands@.push(command),
            final(self).forget_flags@ == old(self).forget_flags@.push(false),
    {
        self.commands.push(command);
        self.forget_flags.push(false);
    }

    /// Queues a command into the transaction; its reply is to be forgotten.
    pub fn forget(&mut self, command: Command)
        ensures
            final(self).commands@ == old(self).commands@.push(command),
            final(self).forget_flags@ == old(self).forget_flags@.push(true),
    {
        self.commands.push(command);
        self.forget_flags.push(true);
    }

    /// The batch to send: the commands queued, then `EXEC`.
    pub fn batch(&self) -> (r: Vec<Command>)
        ensures
            command_views(r@) == command_views(self.commands@).push(
                CommandView { name: bytes_of("EXEC"), args: Seq::empty() },
            ),
    {
        let mut out: Vec<Command> = Vec::new();
        let mut i: usize = 0;
        assert(command_views(out@) =~= command_views(self.commands@).take(0));
        while i < self.commands.len()
            invariant
                i <= self.commands.len(),
                command_views(out@) == command_views(self.commands@).take(i as int),
            decreases self.commands.len() - i,
        {
            let command = self.commands[i].duplicate();
            proof {
                let all = command_views(self.commands@);
                assert(command_views(out@.push(command)) =~= command_views(out@).push(command@));
                assert(all.take(i + 1) =~= all.take(i as int).push(all[i as int]));
            }
            out.push(command);
            i = i + 1;
        }
        let exec = cmd("EXEC");
        proof {
            let all = command_views(self.commands@);
            assert(all.take(self.commands.len() as int) =~= all);
            assert(command_views(out@.push(exec)) =~= command_views(out@).push(exec@));
        }
        out.push(exec);
        out
    }

    /// What the replies to the batch come to for the caller.
    pub fn execute(self, values: Vec<Value>) -> (r: Result<Value, Error>)
        ensures
            match transaction_reply(
                views(values@),
                self.commands@.len() as int,
                self.forget_flags@,
            ) {
                Ok(v) => r matches Ok(found) && found@ == v,
                Err(e) => r matches Err(f) && f@ == e,
            },
    {
        let queued = self.commands.len();
        let ghost all = views(values@);
        let mut i: usize = 0;
        while i < queued
            invariant
                i <= queued,
                queued == self.commands@.len(),
                all == views(values@),
                first_error(all, i as int) is None,
            decreases queued - i,
        {
            if i < values.len() {
                assert(all[i as int] == values@[i as int]@);
                if let Value::Error(e) = &values[i] {
                    proof {
                        assert(first_error(all, i + 1) == Some(ErrorView::Redis(e@)));
                        lemma_first_error_stays(all, i + 1, queued as int);
                    }
                    return Err(Error::Redis(e.duplicate()));
                }
            }
            i = i + 1;
        }
        if queued >= values.len() {
            return Err(Error::UnexpectedReply);
        }
        assert(all[queued as int] == values@[queued as int]@);
        match &values[queued] {
            Value::Array(Some(results)) => {
                assert(flags_from(self.forget_flags@, 1) =~= flags_after_multi(self.forget_flags@));
                reply_of_batch(filter_results(results, &self.forget_flags, 1))
            },
            Value::Array(None) => Err(Error::Aborted),
            Value::BulkString(None) => Err(Error::Aborted),
            _ => Err(Error::UnexpectedReply),
        }
    }
}

/// An error reply among the first values is the first error reply among
/// more of them.
pub proof fn lemma_first_error_stays(values: Seq<ValueView>, k: int, n: int)
    requires
        0 <= k <= n,
        first_error(values, k) is Some,
    ensures
        first_error(values, n) == first_error(values, k),
    decreases n - k,
{
    if k < n {
        lemma_first_error_stays(values, k, n - 1);
    }
}

impl<'a> BatchPreparedCommand for PreparedCommand<'a, Transaction> {
    fn queue(self)
        ensures
            final(self.executor).commands@ == old(self.executor).commands@.push(self.command),
            final(self.executor).forget_flags@ == old(self.executor).forget_flags@.push(false),
    {
        self.executor.queue(self.command)
    }

    fn forget(self)
        ensures
            final(self.executor).commands@ == old(self.executor).commands@.push(self.command),
            final(self.executor).forget_flags@ == old(self.executor).forget_flags@.push(true),
    {
        self.executor.forget(self.command)
    }
}

} // verus!
