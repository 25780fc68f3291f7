//! A pipeline: commands queued to go out as one batch.

use vstd::prelude::*;
use crate::client::prepared_command::PreparedCommand;
use crate::error::{Error, ErrorView};
use crate::resp::command::Command;
use crate::resp::value::{lemma_views_push, views, Value, ValueView};

verus! {

/// Commands queued to go out as one batch, and for each whether its reply
/// is to be forgotten.
pub struct Pipeline {
    pub commands: Vec<Command>,
    pub forget_flags: Vec<bool>,
    pub retry_on_error: Option<bool>,
}

/// The values whose command does not forget its reply, in order. A value
/// without a flag goes with the flags, and with the values a flag without a
/// value.
pub open spec fn kept(values: Seq<ValueView>, forget_flags: Seq<bool>) -> Seq<ValueView>
    decreases values.len(),
{
    if values.len() == 0 {
        Seq::empty()
    } else if values.len() > forget_flags.len() {
        kept(values.drop_last(), forget_flags)
    } else if forget_flags[values.len() - 1] {
        kept(values.drop_last(), forget_flags)
    } else {
        kept(values.drop_last(), forget_flags).push(values.last())
    }
}

/// What a batch comes to for the caller: a single value that is kept as it
/// is, an error where that value is an error reply; else the values kept as
/// an array.
pub open spec fn batch_reply(values: Seq<ValueView>) -> Result<ValueView, ErrorView> {
    if values.len() == 1 {
        match values[0] {
            ValueView::Error(e) => Err(ErrorView::Redis(e)),
            v => Ok(v),
        }
    } else {
        Ok(ValueView::Array(Some(values)))
    }
}

/// The flags from index `skip` on; none where there are fewer flags.
pub open spec fn flags_from(forget_flags: Seq<bool>, skip: int) -> Seq<bool> {
    if 0 <= skip <= forget_flags.len() {
        forget_flags.skip(skip)
    } else {
        Seq::empty()
    }
}

/// The values whose command does not forget its reply, in order; the flag
/// of the first value stands at index `skip`.
pub fn filter_results(results: &Vec<Value>, forget_flags: &Vec<bool>, skip: usize) -> (r: Vec<Value>)
    ensures
        views(r@) == kept(views(results@), flags_from(forget_flags@, skip as int)),
{
    let ghost all = views(results@);
    let ghost flags = flags_from(forget_flags@, skip as int);
    let mut out: Vec<Value> = Vec::new();
    let mut i: usize = 0;
    assert(views(out@) =~= Seq::<ValueView>::empty());
    assert(all.take(0) =~= Seq::<ValueView>::empty());
    while i < results.len()
        invariant
            i <= results.len(),
            all == views(results@),
            flags == flags_from(forget_flags@, skip as int),
            views(out@) == kept(all.take(i as int), flags),
        decreases results.len() - i,
    {
        proof {
            assert(all.take(i + 1).drop_last() =~= all.take(i as int));
        }
        if skip <= forget_flags.len() && i < forget_flags.len() - skip && !forget_flags[i + skip] {
            let item = results[i].duplicate();
            proof {
                lemma_views_push(out@, item);
            }
            out.push(item);
        }
        i = i + 1;
    }
    assert(all.take(results.len() as int) =~= all);
    out
}

/// What the values kept of a batch come to for the caller.
pub fn reply_of_batch(mut filtered_results: Vec<Value>) -> (r: Result<Value, Error>)
    ensures
        match batch_reply(views(filtered_results@)) {
            Ok(v) => r matches Ok(found) && found@ == v,
            Err(e) => r matches Err(f) && f@ == e,
        },
{
    if filtered_results.len() == 1 {
        match filtered_results.pop() {
            Some(Value::Error(e)) => Err(Error::Redis(e)),
            Some(value) => Ok(value),
            None => Err(Error::UnexpectedReply),
        }
    } else {
        Ok(Value::Array(Some(filtered_results)))
    }
}

impl Pipeline {
    /// A pipeline without commands.
    pub fn new() -> (r: Pipeline)
        ensures
            r.commands@.len() == 0,
            r.forget_flags@.len() == 0,
            r.retry_on_error is None,
    {
        Pipeline { commands: Vec::new(), forget_flags: Vec::new(), retry_on_error: None }
    }

    /// Sets whether the batch is to be sent again after a disconnect, in
    /// place of what the configuration says.
    pub fn retry_on_error(&mut self, retry_on_error: bool)
        ensures
            final(self).retry_on_error == Some(retry_on_error),
            final(self).commands == old(self).commands,
            final(self).forget_flags == old(self).forget_flags,
    {
        self.retry_on_error = Some(retry_on_error);
    }

    /// Queues a command.
    pub fn queue(&mut self, command: Command)
        ensures
            final(self).commands@ == old(self).commands@.push(command),
            final(self).forget_flags@ == old(self).forget_flags@.push(false),
            final(self).retry_on_error == old(self).retry_on_error,
    {
        self.commands.push(command);
        self.forget_flags.push(false);
    }

    /// Queues a command whose reply is to be forgotten.
    pub fn forget(&mut self, command: Command)
        ensures
            final(self).commands@ == old(self).commands@.push(command),
            final(self).forget_flags@ == old(self).forget_flags@.push(true),
            final(self).retry_on_error == old(self).retry_on_error,
    {
        self.commands.push(command);
        self.forget_flags.push(true);
    }

    /// What the replies to the batch come to for the caller: the replies
    /// that are not forgotten, a single one as it is, else as an array. A
    /// batch of one command comes to its reply; without a reply it comes to
    /// an error.
    pub fn execute(self, results: Vec<Value>) -> (r: Result<Value, Error>)
        ensures
            match (if self.commands@.len() > 1 {
                batch_reply(kept(views(results@), self.forget_flags@))
            } else if results@.len() > 0 {
                batch_reply(seq![results@[0]@])
            } else {
                Err(ErrorView::UnexpectedReply)
            }) {
                Ok(v) => r matches Ok(found) && found@ == v,
                Err(e) => r matches Err(f) && f@ == e,
            },
    {
        if self.commands.len() > 1 {
            assert(flags_from(self.forget_flags@, 0) =~= self.forget_flags@);
            reply_of_batch(filter_results(&results, &self.forget_flags, 0))
        } else if results.len() > 0 {
            let mut single: Vec<Value> = Vec::new();
            single.push(results[0].duplicate());
            assert(views(single@) =~= seq![results@[0]@]);
            reply_of_batch(single)
        } else {
            Err(Error::UnexpectedReply)
        }
    }
}

/// What a command prepared for a pipeline or a transaction can do.
pub trait BatchPreparedCommand {
    /// Queues the command.
    fn queue(self);

    /// Queues the command; its reply is to be forgotten.
    fn forget(self);
}

/// Every command that can be queued and forgotten: a shorter way to ask for
/// a command prepared for a pipeline or a transaction.
pub trait PipelinePreparedCommand: BatchPreparedCommand {

}

impl<T: BatchPreparedCommand> PipelinePreparedCommand for T {

}

impl<'a> BatchPreparedCommand for PreparedCommand<'a, Pipeline> {
    fn queue(self)
        ensures
            final(self.executor).commands@ == old(self.executor).commands@.push(self.command),
            final(self.executor).forget_flags@ == old(self.executor).forget_flags@.push(false),
            final(self.executor).retry_on_error == old(self.executor).retry_on_error,
    {
        self.executor.queue(self.command)
    }

    fn forget(self)
        ensures
            final(self.executor).commands@ == old(self.executor).commands@.push(self.command),
            final(self.executor).forget_flags@ == old(self.executor).forget_flags@.push(true),
            final(self.executor).retry_on_error == old(self.executor).retry_on_error,
    {
        self.executor.forget(self.command)
    }
}

} // verus!
