//! The multiplexer: many producers share one connection. Commands go on
//! the wire in the order in which they were submitted; each reply goes to
//! the command that has waited longest.

use vstd::prelude::*;
use crate::resp::command::{command_views, Command, CommandView};
use crate::resp::value::{Value, ValueView};

verus! {

/// A command on its way and who waits for its reply.
#[derive(Debug, PartialEq, Eq)]
pub struct Message {
    /// The command.
    pub command: Command,
    /// Who waits for the reply; `None` where the reply is to be forgotten.
    pub ticket: Option<u64>,
    /// Whether the command is to be submitted again after a disconnect.
    pub retry_on_error: bool,
}

/// Mathematical form of a [`Message`].
pub struct MessageView {
    pub command: CommandView,
    pub ticket: Option<u64>,
    pub retry_on_error: bool,
}

impl View for Message {
    type V = MessageView;

    open spec fn view(&self) -> MessageView {
        MessageView {
            command: self.command@,
            ticket: self.ticket,
            retry_on_error: self.retry_on_error,
        }
    }
}

/// The views of a sequence of messages.
pub open spec fn message_views(messages: Seq<Message>) -> Seq<MessageView> {
    messages.map_values(|m: Message| m@)
}

/// The commands of a sequence of messages.
pub open spec fn commands_of(messages: Seq<MessageView>) -> Seq<CommandView> {
    messages.map_values(|m: MessageView| m.command)
}

/// What becomes of a value read from the connection.
#[derive(Debug, PartialEq, Eq)]
pub enum Delivery {
    /// The reply to the command that waited longest, for the one who waits
    /// for it.
    Reply { ticket: u64, value: Value },
    /// The reply to a command whose reply is forgotten.
    Discarded,
    /// A push frame: it goes to the subscriptions, and no command stops
    /// waiting.
    Push(Value),
    /// A value that no command waits for.
    Unexpected(Value),
}

/// Mathematical form of a [`Delivery`].
pub enum DeliveryView {
    Reply { ticket: u64, value: ValueView },
    Discarded,
    Push(ValueView),
    Unexpected(ValueView),
}

impl View for Delivery {
    type V = DeliveryView;

    open spec fn view(&self) -> DeliveryView {
        match *self {
            Delivery::Reply { ticket, value } => DeliveryView::Reply { ticket, value: value@ },
            Delivery::Discarded => DeliveryView::Discarded,
            Delivery::Push(value) => DeliveryView::Push(value@),
            Delivery::Unexpected(value) => DeliveryView::Unexpected(value@),
        }
    }
}

/// The state of a multiplexer.
pub struct MultiplexerView {
    /// The largest number of commands written at once; 0 for no limit.
    pub max_batch_size: usize,
    /// The messages submitted and not yet written, oldest first.
    pub queued: Seq<MessageView>,
    /// The messages written whose reply is still to come, oldest first.
    pub in_flight: Seq<MessageView>,
}

/// The multiplexer of one connection.
pub struct Multiplexer {
    pub max_batch_size: usize,
    pub queued: Vec<Message>,
    pub in_flight: Vec<Message>,
}

impl View for Multiplexer {
    type V = MultiplexerView;

    open spec fn view(&self) -> MultiplexerView {
        MultiplexerView {
            max_batch_size: self.max_batch_size,
            queued: message_views(self.queued@),
            in_flight: message_views(self.in_flight@),
        }
    }
}

/// The number of messages that the next write takes.
pub open spec fn batch_len(s: MultiplexerView) -> int {
    if s.max_batch_size == 0 || s.queued.len() <= s.max_batch_size {
        s.queued.len() as int
    } else {
        s.max_batch_size as int
    }
}

/// The state after a message was submitted: it waits behind all the
/// others.
pub open spec fn after_submit(s: MultiplexerView, m: MessageView) -> MultiplexerView {
    MultiplexerView { queued: s.queued.push(m), ..s }
}

/// The state after a write: the messages written now wait for their
/// replies, behind those that were written before.
pub open spec fn after_write(s: MultiplexerView) -> MultiplexerView {
    MultiplexerView {
        queued: s.queued.skip(batch_len(s)),
        in_flight: s.in_flight + s.queued.take(batch_len(s)),
        ..s
    }
}

/// The commands that a write puts on the wire, in order.
pub open spec fn written(s: MultiplexerView) -> Seq<CommandView> {
    commands_of(s.queued.take(batch_len(s)))
}

/// The state after a value was read: unless the value is a push frame, the
/// message that waited longest waits no more.
pub open spec fn after_value(s: MultiplexerView, v: ValueView) -> MultiplexerView {
    if v is Push || s.in_flight.len() == 0 {
        s
    } else {
        MultiplexerView { in_flight: s.in_flight.drop_first(), ..s }
    }
}

/// What becomes of a value read in the given state.
pub open spec fn delivery_of(s: MultiplexerView, v: ValueView) -> DeliveryView {
    if v is Push {
        DeliveryView::Push(v)
    } else if s.in_flight.len() == 0 {
        DeliveryView::Unexpected(v)
    } else {
        match s.in_flight[0].ticket {
            Some(ticket) => DeliveryView::Reply { ticket, value: v },
            None => DeliveryView::Discarded,
        }
    }
}

impl Multiplexer {
    /// A multiplexer without messages.
    pub fn new(max_batch_size: usize) -> (r: Multiplexer)
        ensures
            r@ == (MultiplexerView {
                max_batch_size,
                queued: Seq::empty(),
                in_flight: Seq::empty(),
            }),
    {
        let r = Multiplexer { max_batch_size, queued: Vec::new(), in_flight: Vec::new() };
        assert(r@.queued =~= Seq::<MessageView>::empty());
        assert(r@.in_flight =~= Seq::<MessageView>::empty());
        r
    }

    /// Takes a message in; it is written after all that were submitted
    /// before.
    pub fn submit(&mut self, message: Message)
        ensures
            final(self)@ == after_submit(old(self)@, message@),
    {
        assert(message_views(self.queued@.push(message)) =~= message_views(self.queued@).push(
            message@,
        ));
        self.queued.push(message);
    }

    /// The commands to write now, in order: the oldest of those submitted,
    /// up to the batch size. They wait for their replies from now on.
    pub fn next_batch(&mut self) -> (r: Vec<Command>)
        ensures
            final(self)@ == after_write(old(self)@),
            command_views(r@) == written(old(self)@),
    {
        let count = if self.max_batch_size == 0 || self.queued.len() <= self.max_batch_size {
            self.queued.len()
        } else {
            self.max_batch_size
        };
        let ghost before = self.queued@;
        let mut batch = self.queued.split_off(count);
        std::mem::swap(&mut self.queued, &mut batch);
        assert(batch@ =~= before.take(count as int));
        assert(self.queued@ =~= before.skip(count as int));
        let mut commands: Vec<Command> = Vec::new();
        let mut i: usize = 0;
        assert(command_views(commands@) =~= commands_of(message_views(batch@)).take(0));
        while i < batch.len()
            invariant
                i <= batch.len(),
                command_views(commands@) == commands_of(message_views(batch@)).take(i as int),
            decreases batch.len() - i,
        {
            let command = batch[i].command.duplicate();
            proof {
                let all = commands_of(message_views(batch@));
                assert(all[i as int] == batch@[i as int]@.command);
                assert(command_views(commands@.push(command)) =~= command_views(commands@).push(
                    command@,
                ));
                assert(all.take(i + 1) =~= all.take(i as int).push(all[i as int]));
            }
            commands.push(command);
            i = i + 1;
        }
        proof {
            assert(commands_of(message_views(batch@)).take(batch.len() as int) =~= commands_of(
                message_views(batch@),
            ));
            assert(message_views(before.take(count as int)) =~= message_views(before).take(
                count as int,
            ));
            assert(message_views(before.skip(count as int)) =~= message_views(before).skip(
                count as int,
            ));
            assert(message_views(self.in_flight@ + batch@) =~= message_views(self.in_flight@)
                + message_views(batch@));
        }
        self.in_flight.append(&mut batch);
        commands
    }

    /// Takes a value read from the connection to the one who waits for it.
    pub fn on_value(&mut self, value: Value) -> (r: Delivery)
        ensures
            final(self)@ == after_value(old(self)@, value@),
            r@ == delivery_of(old(self)@, value@),
    {
        if let Value::Push(_) = &value {
            return Delivery::Push(value);
        }
        if self.in_flight.len() == 0 {
            return Delivery::Unexpected(value);
        }
        let message = self.in_flight.remove(0);
        assert(message_views(self.in_flight@) =~= message_views(old(self).in_flight@).drop_first());
        assert(message@ == message_views(old(self).in_flight@)[0]);
        match message.ticket {
            Some(ticket) => Delivery::Reply { ticket, value },
            None => Delivery::Discarded,
        }
    }

    /// The connection is gone: none of the messages written waits any
    /// more. Those that are to be sent again after a disconnect go back to
    /// the head of the messages to write, in their order; the others are
    /// handed back, oldest first, to be told of the disconnect.
    pub fn on_disconnect(&mut self) -> (r: Vec<Message>)
        ensures
            message_views(r@) == given_up(old(self)@.in_flight),
            final(self)@ == (MultiplexerView {
                queued: sent_again(old(self)@.in_flight) + old(self)@.queued,
                in_flight: Seq::empty(),
                ..old(self)@
            }),
    {
        let mut waiting: Vec<Message> = Vec::new();
        std::mem::swap(&mut self.in_flight, &mut waiting);
        assert(message_views(self.in_flight@) =~= Seq::<MessageView>::empty());
        let ghost all = message_views(waiting@);
        let ghost before = message_views(self.queued@);
        let mut again: Vec<Message> = Vec::new();
        let mut failed: Vec<Message> = Vec::new();
        assert(message_views(again@) =~= sent_again(all.take(0)));
        assert(message_views(failed@) =~= given_up(all.take(0)));
        assert(all.skip(0) =~= all);
        while waiting.len() > 0
            invariant
                message_views(waiting@) == all.skip(all.len() - waiting@.len()),
                waiting@.len() <= all.len(),
                message_views(again@) == sent_again(all.take(all.len() - waiting@.len())),
                message_views(failed@) == given_up(all.take(all.len() - waiting@.len())),
            decreases waiting.len(),
        {
            let ghost done = all.len() - waiting@.len();
            let ghost prev = waiting@;
            let message = waiting.remove(0);
            proof {
                assert(message@ == message_views(prev)[0]);
                assert(all.skip(done)[0] == all[done]);
                assert(waiting@ =~= prev.drop_first());
                assert(message_views(prev.drop_first()) =~= message_views(prev).drop_first());
                assert(all.skip(done).drop_first() =~= all.skip(done + 1));
                assert(message@ == all[done]);
                assert(message_views(waiting@) =~= all.skip(done + 1));
                assert(all.take(done + 1).drop_last() =~= all.take(done));
                assert(all.take(done + 1).last() == all[done]);
            }
            if message.retry_on_error {
                assert(message_views(again@.push(message)) =~= message_views(again@).push(message@));
                again.push(message);
            } else {
                assert(message_views(failed@.push(message)) =~= message_views(failed@).push(
                    message@,
                ));
                failed.push(message);
            }
        }
        proof {
            assert(all.take(all.len() as int) =~= all);
            assert(message_views(again@ + self.queued@) =~= message_views(again@) + before);
        }
        again.append(&mut self.queued);
        std::mem::swap(&mut self.queued, &mut again);
        failed
    }
}

/// The messages that are to be sent again after a disconnect, in order.
pub open spec fn sent_again(messages: Seq<MessageView>) -> Seq<MessageView>
    decreases messages.len(),
{
    if messages.len() == 0 {
        Seq::empty()
    } else if messages.last().retry_on_error {
        sent_again(messages.drop_last()).push(messages.last())
    } else {
        sent_again(messages.drop_last())
    }
}

/// The messages that are given up at a disconnect, in order.
pub open spec fn given_up(messages: Seq<MessageView>) -> Seq<MessageView>
    decreases messages.len(),
{
    if messages.len() == 0 {
        Seq::empty()
    } else if messages.last().retry_on_error {
        given_up(messages.drop_last())
    } else {
        given_up(messages.drop_last()).push(messages.last())
    }
}

/// One step in the life of a multiplexer.
pub enum Event {
    /// A message is submitted.
    Submit(MessageView),
    /// The messages submitted are written, up to the batch size.
    Write,
    /// A value is read from the connection.
    Value(ValueView),
}

/// What has happened on a connection so far.
pub struct History {
    /// The state of the multiplexer.
    pub state: MultiplexerView,
    /// The messages submitted, in order.
    pub submitted: Seq<MessageView>,
    /// The commands put on the wire, in order.
    pub wire: Seq<CommandView>,
    /// The messages whose reply has come, in the order of the replies.
    pub answered: Seq<MessageView>,
}

/// The history with one step more.
pub open spec fn step(h: History, e: Event) -> History {
    match e {
        Event::Submit(m) => History {
            state: after_submit(h.state, m),
            submitted: h.submitted.push(m),
            ..h
        },
        Event::Write => History {
            state: after_write(h.state),
            wire: h.wire + written(h.state),
            ..h
        },
        Event::Value(v) => History {
            state: after_value(h.state, v),
            answered: if v is Push || h.state.in_flight.len() == 0 {
                h.answered
            } else {
                h.answered.push(h.state.in_flight[0])
            },
            ..h
        },
    }
}

/// The history of a connection that starts without messages.
pub open spec fn history(max_batch_size: usize, events: Seq<Event>) -> History
    decreases events.len(),
{
    if events.len() == 0 {
        History {
            state: MultiplexerView {
                max_batch_size,
                queued: Seq::empty(),
                in_flight: Seq::empty(),
            },
            submitted: Seq::empty(),
            wire: Seq::empty(),
            answered: Seq::empty(),
        }
    } else {
        step(history(max_batch_size, events.drop_last()), events.last())
    }
}

/// First in, first out. Whatever is submitted, written and read on one
/// connection, in whatever order: the commands on the wire are those of the
/// messages submitted, in the order of submission, and the replies go to the
/// messages written, in the order of writing. The messages answered, those
/// that wait for a reply and those that wait to be written are, one after
/// the other, the messages submitted.
pub proof fn lemma_first_in_first_out(max_batch_size: usize, events: Seq<Event>)
    ensures
        ({
            let h = history(max_batch_size, events);
            &&& h.answered + h.state.in_flight + h.state.queued == h.submitted
            &&& h.wire == commands_of(h.answered + h.state.in_flight)
            &&& h.wire == commands_of(h.submitted).take(h.wire.len() as int)
            &&& h.answered == h.submitted.take(h.answered.len() as int)
        }),
    decreases events.len(),
{
    let h = history(max_batch_size, events);
    if events.len() == 0 {
        assert(h.answered + h.state.in_flight + h.state.queued =~= h.submitted);
        assert(h.wire =~= commands_of(h.answered + h.state.in_flight));
        assert(h.wire =~= commands_of(h.submitted).take(h.wire.len() as int));
        assert(h.answered =~= h.submitted.take(h.answered.len() as int));
    } else {
        let p = history(max_batch_size, events.drop_last());
        lemma_first_in_first_out(max_batch_size, events.drop_last());
        let served = p.answered + p.state.in_flight;
        assert(served + p.state.queued == p.submitted);
        match events.last() {
            Event::Submit(m) => {
                assert(h.answered + h.state.in_flight + h.state.queued =~= h.submitted);
                assert(commands_of(h.submitted).take(h.wire.len() as int) =~= commands_of(
                    p.submitted,
                ).take(p.wire.len() as int));
                assert(h.submitted.take(h.answered.len() as int) =~= p.submitted.take(
                    p.answered.len() as int,
                ));
            },
            Event::Write => {
                let k = batch_len(p.state);
                assert(p.state.queued.take(k) + p.state.queued.skip(k) =~= p.state.queued);
                assert(h.answered + h.state.in_flight =~= served + p.state.queued.take(k));
                assert(h.answered + h.state.in_flight + h.state.queued =~= h.submitted);
                assert(commands_of(served + p.state.queued.take(k)) =~= commands_of(served)
                    + commands_of(p.state.queued.take(k)));
                assert(h.wire =~= commands_of(h.submitted).take(h.wire.len() as int));
            },
            Event::Value(v) => {
                if !(v is Push || p.state.in_flight.len() == 0) {
                    assert(h.answered + h.state.in_flight =~= served);
                    assert(h.answered =~= h.submitted.take(h.answered.len() as int));
                }
            },
        }
    }
}

} // verus!
