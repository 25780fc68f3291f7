//! The client of one connection: it hands commands to the multiplexer and
//! gives each the ticket under which its reply will come.

use vstd::prelude::*;
use crate::client::pipeline::Pipeline;
use crate::client::prepared_command::PreparedCommand;
use crate::client::transaction::Transaction;
use crate::error::Error;
use crate::network::multiplexer::{
    after_submit, Message, MessageView, Multiplexer, MultiplexerView,
};
use crate::resp::command::{command_views, Command, CommandView};

verus! {

/// A client of one connection.
pub struct Client {
    /// The multiplexer of the connection.
    pub multiplexer: Multiplexer,
    /// The ticket that the next command gets.
    pub next_ticket: u64,
    /// Whether commands are submitted again after a disconnect.
    pub retry_on_error: bool,
}

/// The messages that the first `n` commands of a batch are submitted as:
/// each under the ticket after that of the command before it.
pub open spec fn batch_messages(
    commands: Seq<CommandView>,
    first_ticket: u64,
    retry_on_error: bool,
    n: int,
) -> Seq<MessageView>
    decreases n,
{
    if n <= 0 {
        Seq::empty()
    } else {
        batch_messages(commands, first_ticket, retry_on_error, n - 1).push(
            MessageView {
                command: commands[n - 1],
                ticket: Some(((first_ticket + n - 1) % 0x1_0000_0000_0000_0000) as u64),
                retry_on_error,
            },
        )
    }
}

impl Client {
    /// A client on a connection without messages. `max_batch_size` is the
    /// largest number of commands written at once; 0 sets no limit.
    pub fn connect(max_batch_size: usize, retry_on_error: bool) -> (r: Client)
        ensures
            r.multiplexer@ == (MultiplexerView {
                max_batch_size,
                queued: Seq::empty(),
                in_flight: Seq::empty(),
            }),
            r.next_ticket == 0,
            r.retry_on_error == retry_on_error,
    {
        Client { multiplexer: Multiplexer::new(max_batch_size), next_ticket: 0, retry_on_error }
    }

    /// Submits a command; its reply will come under the ticket returned.
    pub fn send(&mut self, command: Command) -> (ticket: u64)
        ensures
            ticket == old(self).next_ticket,
            final(self).next_ticket == old(self).next_ticket.wrapping_add(1),
            final(self).retry_on_error == old(self).retry_on_error,
            final(self).multiplexer@ == after_submit(
                old(self).multiplexer@,
                MessageView {
                    command: command@,
                    ticket: Some(ticket),
                    retry_on_error: old(self).retry_on_error,
                },
            ),
    {
        let ticket = self.next_ticket;
        self.next_ticket = ticket.wrapping_add(1);
        self.multiplexer.submit(
            Message { command, ticket: Some(ticket), retry_on_error: self.retry_on_error },
        );
        ticket
    }

    /// Submits the commands of a batch in their order, one after the other
    /// with no other command between them. The reply to the first comes under
    /// the ticket returned, the reply to each next one under the ticket after
    /// it. `retry_on_error` takes the place of what the client is set to.
    pub fn send_batch(&mut self, commands: Vec<Command>, retry_on_error: Option<bool>) -> (ticket:
        u64)
        ensures
            ticket == old(self).next_ticket,
            final(self).next_ticket == ((old(self).next_ticket + commands@.len())
                % 0x1_0000_0000_0000_0000) as u64,
            final(self).retry_on_error == old(self).retry_on_error,
            final(self).multiplexer@ == (MultiplexerView {
                queued: old(self).multiplexer@.queued + batch_messages(
                    command_views(commands@),
                    ticket,
                    match retry_on_error {
                        Some(retry) => retry,
                        None => old(self).retry_on_error,
                    },
                    commands@.len() as int,
                ),
                ..old(self).multiplexer@
            }),
    {
        let first = self.next_ticket;
        let retry = match retry_on_error {
            Some(retry) => retry,
            None => self.retry_on_error,
        };
        let ghost all = command_views(commands@);
        let ghost before = self.multiplexer@;
        let mut commands = commands;
        let ghost total = commands@.len();
        assert(before.queued + batch_messages(all, first, retry, 0) =~= before.queued);
        assert(all.skip(0) =~= all);
        while commands.len() > 0
            invariant
                commands@.len() <= total,
                total == all.len(),
                command_views(commands@) == all.skip(total - commands@.len()),
                self.retry_on_error == old(self).retry_on_error,
                self.next_ticket == ((first + total - commands@.len())
                    % 0x1_0000_0000_0000_0000) as u64,
                self.multiplexer@ == (MultiplexerView {
                    queued: before.queued + batch_messages(
                        all,
                        first,
                        retry,
                        total - commands@.len(),
                    ),
                    ..before
                }),
            decreases commands.len(),
        {
            let ghost done = total - commands@.len();
            let ghost prev = commands@;
            let command = commands.remove(0);
            proof {
                assert(command@ == command_views(prev)[0]);
                assert(all.skip(done)[0] == all[done]);
                assert(commands@ =~= prev.drop_first());
                assert(command_views(prev.drop_first()) =~= command_views(prev).drop_first());
                assert(all.skip(done).drop_first() =~= all.skip(done + 1));
                assert(before.queued + batch_messages(all, first, retry, done + 1) =~= (before.queued
                    + batch_messages(all, first, retry, done)).push(
                    MessageView {
                        command: all[done],
                        ticket: Some(((first + done) % 0x1_0000_0000_0000_0000) as u64),
                        retry_on_error: retry,
                    },
                ));
            }
            let ticket = self.next_ticket;
            self.next_ticket = ticket.wrapping_add(1);
            self.multiplexer.submit(Message { command, ticket: Some(ticket), retry_on_error: retry });
        }
        first
    }

    /// Submits a command whose reply is to be forgotten.
    pub fn send_and_forget(&mut self, command: Command) -> (r: Result<(), Error>)
        ensures
            r is Ok,
            final(self).next_ticket == old(self).next_ticket,
            final(self).retry_on_error == old(self).retry_on_error,
            final(self).multiplexer@ == after_submit(
                old(self).multiplexer@,
                MessageView {
                    command: command@,
                    ticket: None,
                    retry_on_error: old(self).retry_on_error,
                },
            ),
    {
        self.multiplexer.submit(
            Message { command, ticket: None, retry_on_error: self.retry_on_error },
        );
        Ok(())
    }

    /// A new transaction.
    pub fn create_transaction(&mut self) -> (r: Transaction)
        ensures
            *final(self) == *old(self),
            command_views(r.commands@) == seq![
                CommandView { name: crate::resp::text::bytes_of("MULTI"), args: Seq::empty() },
            ],
            r.forget_flags@ == seq![false],
    {
        Transaction::new()
    }

    /// A new pipeline.
    pub fn create_pipeline(&mut self) -> (r: Pipeline)
        ensures
            *final(self) == *old(self),
            r.commands@.len() == 0,
            r.forget_flags@.len() == 0,
            r.retry_on_error is None,
    {
        Pipeline::new()
    }
}

/// What a command prepared for a client can do besides being sent.
pub trait ClientPreparedCommand {
    /// Sends the command; its reply is to be forgotten.
    fn forget(self) -> Result<(), Error>;
}

impl<'a> ClientPreparedCommand for PreparedCommand<'a, Client> {
    fn forget(self) -> (r: Result<(), Error>)
        ensures
            r is Ok,
            final(self.executor).next_ticket == old(self.executor).next_ticket,
            final(self.executor).retry_on_error == old(self.executor).retry_on_error,
            final(self.executor).multiplexer@ == after_submit(
                old(self.executor).multiplexer@,
                MessageView {
                    command: self.command@,
                    ticket: None,
                    retry_on_error: old(self.executor).retry_on_error,
                },
            ),
    {
        self.executor.send_and_forget(self.command)
    }
}

} // verus!
