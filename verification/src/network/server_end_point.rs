//! The two connections to one server: one for commands and replies, one
//! for subscriptions.

use vstd::prelude::*;
use crate::error::Error;
use crate::network::multiplexer::{after_submit, Message, Multiplexer};
use crate::resp::command::Command;
use crate::resp::text::{bytes_of, text_eq};

verus! {

/// Which of the two connections a command goes over.
#[derive(Clone, Copy, Debug, PartialEq, Eq, Structural)]
pub enum ConnectionType {
    /// The connection for commands and their replies.
    Interactive,
    /// The connection for subscriptions.
    PubSub,
}

/// The connection that a command with the given name goes over: the four
/// subscription commands go over the connection for subscriptions.
pub open spec fn connection_for(name: Seq<u8>) -> ConnectionType {
    if name == bytes_of("SUBSCRIBE") || name == bytes_of("UNSUBSCRIBE") || name == bytes_of(
        "PSUBSCRIBE",
    ) || name == bytes_of("PUNSUBSCRIBE") {
        ConnectionType::PubSub
    } else {
        ConnectionType::Interactive
    }
}

/// One server and the two connections to it.
pub struct ServerEndPoint {
    pub addr: String,
    pub interactive: Multiplexer,
    pub pubsub: Multiplexer,
}

impl ServerEndPoint {
    /// The end point of the server at the given address, without messages
    /// on either connection.
    pub fn connect(addr: String, max_batch_size: usize) -> (r: ServerEndPoint)
        ensures
            r.addr@ == addr@,
            r.interactive@.queued.len() == 0,
            r.interactive@.in_flight.len() == 0,
            r.pubsub@.queued.len() == 0,
            r.pubsub@.in_flight.len() == 0,
    {
        ServerEndPoint {
            addr,
            interactive: Multiplexer::new(max_batch_size),
            pubsub: Multiplexer::new(max_batch_size),
        }
    }

    /// The address of the server.
    pub fn get_addr(&self) -> (r: &str)
        ensures
            r@ == self.addr@,
    {
        self.addr.as_str()
    }

    /// The connection that a command goes over.
    pub fn get_connection(&self, command: &Command) -> (r: ConnectionType)
        ensures
            r == connection_for(command@.name),
    {
        let name = command.name.as_slice();
        if text_eq(name, "SUBSCRIBE") || text_eq(name, "UNSUBSCRIBE") || text_eq(name, "PSUBSCRIBE")
            || text_eq(name, "PUNSUBSCRIBE") {
            ConnectionType::PubSub
        } else {
            ConnectionType::Interactive
        }
    }

    /// Submits a message on the connection that its command goes over.
    pub fn send(&mut self, message: Message) -> (r: Result<(), Error>)
        ensures
            r is Ok,
            final(self).addr == old(self).addr,
            match connection_for(message@.command.name) {
                ConnectionType::PubSub => final(self).pubsub@ == after_submit(
                    old(self).pubsub@,
                    message@,
                ) && final(self).interactive == old(self).interactive,
                ConnectionType::Interactive => final(self).interactive@ == after_submit(
                    old(self).interactive@,
                    message@,
                ) && final(self).pubsub == old(self).pubsub,
            },
    {
        match self.get_connection(&message.command) {
            ConnectionType::PubSub => self.pubsub.submit(message),
            ConnectionType::Interactive => self.interactive.submit(message),
        }
        Ok(())
    }
}

} // verus!
