//! A connection to one server: the commands that open it, the bytes that a
//! batch of commands is written as, and the states it goes through.

use vstd::prelude::*;
use crate::resp::buffer_decoder::buffer_bytes;
use crate::resp::command::{cmd, command_views, Command, CommandView};
use crate::error::{Error, ErrorView};
use crate::resp::command_encoder::{batch_wire, buffer_clear, command_wire, CommandEncoder};
use crate::resp::from_value::{into_result, result_of};
use crate::resp::value::{Value, ValueView};
use crate::resp::value_decoder::ValueDecoder;
use crate::resp::wire::{parse_value, Parsed};
use crate::resp::decimal::decimal;
use crate::resp::text::{bytes_of, copy_bytes};

verus! {

/// How a connection is opened.
#[derive(Debug, PartialEq, Eq)]
pub struct Config {
    /// The user to authenticate as; `default` where none is given.
    pub username: Option<Vec<u8>>,
    /// The password; no authentication where none is given.
    pub password: Option<Vec<u8>>,
    /// The database to select; 0 is the one selected from the start.
    pub database: usize,
    /// The name of the connection; no name where it is empty.
    pub connection_name: Vec<u8>,
    /// Whether commands are sent again after a disconnect.
    pub retry_on_error: bool,
    /// The largest number of times that a command is sent.
    pub max_command_attempts: usize,
}

impl Default for Config {
    fn default() -> (r: Config)
        ensures
            r@ == (ConfigView {
                username: None,
                password: None,
                database: 0,
                connection_name: Seq::empty(),
                retry_on_error: false,
                max_command_attempts: 3,
            }),
    {
        Config {
            username: None,
            password: None,
            database: 0,
            connection_name: Vec::new(),
            retry_on_error: false,
            max_command_attempts: 3,
        }
    }
}

/// Mathematical form of a [`Config`].
pub struct ConfigView {
    pub username: Option<Seq<u8>>,
    pub password: Option<Seq<u8>>,
    pub database: usize,
    pub connection_name: Seq<u8>,
    pub retry_on_error: bool,
    pub max_command_attempts: usize,
}

impl View for Config {
    type V = ConfigView;

    open spec fn view(&self) -> ConfigView {
        ConfigView {
            username: match self.username {
                Some(u) => Some(u@),
                None => None,
            },
            password: match self.password {
                Some(p) => Some(p@),
                None => None,
            },
            database: self.database,
            connection_name: self.connection_name@,
            retry_on_error: self.retry_on_error,
            max_command_attempts: self.max_command_attempts,
        }
    }
}

/// The arguments of `HELLO`: protocol version 3, then the user and the
/// password where a password is given, then the name of the connection
/// where it has one.
pub open spec fn hello_args(config: ConfigView) -> Seq<Seq<u8>> {
    seq![bytes_of("3")] + (match config.password {
        Some(password) => seq![
            bytes_of("AUTH"),
            match config.username {
                Some(username) => username,
                None => bytes_of("default"),
            },
            password,
        ],
        None => Seq::empty(),
    }) + (if config.connection_name.len() > 0 {
        seq![bytes_of("SETNAME"), config.connection_name]
    } else {
        Seq::empty()
    })
}

/// The commands that open a connection: `HELLO`, and `SELECT` where the
/// database is not 0.
pub open spec fn handshake(config: ConfigView) -> Seq<CommandView> {
    let hello = CommandView { name: bytes_of("HELLO"), args: hello_args(config) };
    if config.database != 0 {
        seq![
            hello,
            CommandView { name: bytes_of("SELECT"), args: seq![decimal(config.database as int)] },
        ]
    } else {
        seq![hello]
    }
}

/// The commands that open a connection, in order.
pub fn post_connect(config: &Config) -> (r: Vec<Command>)
    ensures
        command_views(r@) == handshake(config@),
{
    let mut hello = cmd("HELLO").arg("3");
    if let Some(password) = &config.password {
        hello = hello.arg("AUTH");
        hello = match &config.username {
            Some(username) => hello.arg(copy_bytes(username.as_slice())),
            None => hello.arg("default"),
        };
        hello = hello.arg(copy_bytes(password.as_slice()));
    }
    if config.connection_name.len() > 0 {
        hello = hello.arg("SETNAME").arg(copy_bytes(config.connection_name.as_slice()));
    }
    assert(hello@.args =~= hello_args(config@));
    let mut commands: Vec<Command> = Vec::new();
    commands.push(hello);
    if config.database != 0 {
        let select = cmd("SELECT").arg(config.database);
        assert(select@.args =~= seq![decimal(config.database as int)]);
        commands.push(select);
    }
    assert(command_views(commands@) =~= handshake(config@));
    commands
}

/// Puts into `buffer` the bytes that the commands are written as, one
/// command after the other; what the buffer held before is dropped.
pub fn write_batch(commands: &Vec<Command>, buffer: &mut bytes::BytesMut)
    requires
        forall|i: int| 0 <= i < commands@.len() ==> (#[trigger] commands@[i])@.args.len() < usize::MAX,
    ensures
        buffer_bytes(*final(buffer)) == batch_wire(command_views(commands@)),
{
    buffer_clear(buffer);
    let mut encoder = CommandEncoder;
    let ghost all = command_views(commands@);
    let mut i: usize = 0;
    assert(all.take(0) =~= Seq::<CommandView>::empty());
    while i < commands.len()
        invariant
            i <= commands.len(),
            all == command_views(commands@),
            forall|k: int|
                0 <= k < commands@.len() ==> (#[trigger] commands@[k])@.args.len() < usize::MAX,
            buffer_bytes(*buffer) == batch_wire(all.take(i as int)),
        decreases commands.len() - i,
    {
        proof {
            assert(all.take(i + 1).drop_last() =~= all.take(i as int));
            assert(all.take(i + 1).last() == commands@[i as int]@);
        }
        encoder.encode(&commands[i], buffer);
        i = i + 1;
    }
    assert(all.take(commands.len() as int) =~= all);
}

/// The state of a connection.
#[derive(Clone, Copy, Debug, PartialEq, Eq, Structural)]
pub enum ConnectionState {
    Connecting,
    Handshaking,
    Ready,
    Reconnecting,
    Closed,
}

/// What happens to a connection.
#[derive(Clone, Copy, Debug, PartialEq, Eq, Structural)]
pub enum ConnectionEvent {
    /// The stream to the server is open.
    Connected,
    /// The server has answered the commands that open the connection.
    HandshakeDone,
    /// Reading or writing failed, or malformed bytes were read.
    Failed,
    /// The router asks for the connection to be opened again.
    ReconnectRequested,
    /// The connection is given up.
    Close,
}

/// The state after an event. A closed connection stays closed; a failure
/// leaves the connection waiting for the router to ask for a reconnect; a
/// request to reconnect starts the opening anew, whatever the state; the
/// other events move the connection along from connecting to ready.
pub open spec fn next_state(state: ConnectionState, event: ConnectionEvent) -> ConnectionState {
    match (state, event) {
        (ConnectionState::Closed, _) => ConnectionState::Closed,
        (_, ConnectionEvent::Close) => ConnectionState::Closed,
        (_, ConnectionEvent::Failed) => ConnectionState::Reconnecting,
        (_, ConnectionEvent::ReconnectRequested) => ConnectionState::Connecting,
        (ConnectionState::Connecting, ConnectionEvent::Connected) => ConnectionState::Handshaking,
        (ConnectionState::Handshaking, ConnectionEvent::HandshakeDone) => ConnectionState::Ready,
        (state, _) => state,
    }
}

/// The state of a connection after an event.
pub fn on_event(state: ConnectionState, event: ConnectionEvent) -> (r: ConnectionState)
    ensures
        r == next_state(state, event),
{
    match (state, event) {
        (ConnectionState::Closed, _) => ConnectionState::Closed,
        (_, ConnectionEvent::Close) => ConnectionState::Closed,
        (_, ConnectionEvent::Failed) => ConnectionState::Reconnecting,
        (_, ConnectionEvent::ReconnectRequested) => ConnectionState::Connecting,
        (ConnectionState::Connecting, ConnectionEvent::Connected) => ConnectionState::Handshaking,
        (ConnectionState::Handshaking, ConnectionEvent::HandshakeDone) => ConnectionState::Ready,
        (state, _) => state,
    }
}

/// Whether commands can be written and replies read.
pub fn is_ready(state: ConnectionState) -> (r: bool)
    ensures
        r == (state == ConnectionState::Ready),
{
    match state {
        ConnectionState::Ready => true,
        _ => false,
    }
}

/// What the sender of a command is given for what was read in return: a
/// value, the error that an error reply holds, the failure of the read, or
/// `Disconnected` where the connection was closed before a reply came.
pub open spec fn answer(read: Option<Result<ValueView, ErrorView>>) -> Result<
    ValueView,
    ErrorView,
> {
    match read {
        None => Err(ErrorView::Disconnected),
        Some(reply) => result_of(reply),
    }
}

/// What the sender of a command is given for what was read in return.
pub fn to_answer(read: Option<Result<Value, Error>>) -> (r: Result<Value, Error>)
    ensures
        match read {
            None => r matches Err(e) && e@ == ErrorView::Disconnected,
            Some(Ok(value)) => match answer(Some(Ok(value@))) {
                Ok(v) => r matches Ok(found) && found@ == v,
                Err(e) => r matches Err(f) && f@ == e,
            },
            Some(Err(failure)) => r matches Err(f) && f@ == failure@,
        },
{
    match read {
        None => Err(Error::Disconnected),
        Some(reply) => into_result(reply),
    }
}

/// The part of a connection to one server that needs no stream: how it was
/// configured and the state it is in. It says what to send to open the
/// connection, puts commands into bytes and takes replies out of bytes;
/// moving the bytes is left to the owner of the stream.
#[derive(Debug, PartialEq, Eq)]
pub struct StandaloneConnection {
    pub config: Config,
    pub state: ConnectionState,
}

impl StandaloneConnection {
    /// A connection whose stream has just been opened, with the commands
    /// to send on it first.
    pub fn connect(config: Config) -> (r: (StandaloneConnection, Vec<Command>))
        ensures
            r.0.config == config,
            r.0.state == ConnectionState::Handshaking,
            command_views(r.1@) == handshake(config@),
    {
        let commands = post_connect(&config);
        (StandaloneConnection { config, state: ConnectionState::Handshaking }, commands)
    }

    /// Takes note of what happened to the connection.
    pub fn on_event(&mut self, event: ConnectionEvent)
        ensures
            final(self).state == next_state(old(self).state, event),
            final(self).config == old(self).config,
    {
        self.state = on_event(self.state, event);
    }

    /// Whether commands can be written and replies read.
    pub fn is_ready(&self) -> (r: bool)
        ensures
            r == (self.state == ConnectionState::Ready),
    {
        is_ready(self.state)
    }

    /// Appends to `buffer` the bytes that the command is written as.
    pub fn write(&self, command: &Command, buffer: &mut bytes::BytesMut)
        requires
            command@.args.len() < usize::MAX,
        ensures
            buffer_bytes(*final(buffer)) == buffer_bytes(*old(buffer)) + command_wire(command@),
    {
        let mut encoder = CommandEncoder;
        encoder.encode(command, buffer);
    }

    /// Puts into `buffer` the bytes that the commands are written as, in
    /// order, so that one write sends them all; what the buffer held before
    /// is dropped.
    pub fn write_batch(&self, commands: &Vec<Command>, buffer: &mut bytes::BytesMut)
        requires
            forall|i: int|
                0 <= i < commands@.len() ==> (#[trigger] commands@[i])@.args.len() < usize::MAX,
        ensures
            buffer_bytes(*final(buffer)) == batch_wire(command_views(commands@)),
    {
        write_batch(commands, buffer)
    }

    /// Takes the next reply off the head of the bytes received. `None`
    /// says that the bytes hold no whole reply yet; they are then left as
    /// they are. Malformed bytes are a failure of the connection.
    pub fn read(&mut self, src: &mut bytes::BytesMut) -> (r: Option<Result<Value, Error>>)
        ensures
            final(self).config == old(self).config,
            match parse_value(buffer_bytes(*old(src)), 0) {
                Parsed::Incomplete => r is None && buffer_bytes(*final(src)) == buffer_bytes(
                    *old(src),
                ) && final(self).state == old(self).state,
                Parsed::Malformed(fault) => r matches Some(Err(e)) && e@ == ErrorView::Protocol(
                    fault,
                ) && buffer_bytes(*final(src)) == buffer_bytes(*old(src)) && final(self).state
                    == next_state(old(self).state, ConnectionEvent::Failed),
                Parsed::Complete(v, end) => r matches Some(Ok(value)) && value@ == v
                    && final(self).state == old(self).state && buffer_bytes(*final(src))
                    == buffer_bytes(*old(src)).skip(end),
            },
    {
        let mut decoder = ValueDecoder;
        match decoder.decode(src) {
            Ok(Some(value)) => Some(Ok(value)),
            Ok(None) => None,
            Err(e) => {
                self.state = on_event(self.state, ConnectionEvent::Failed);
                Some(Err(e))
            },
        }
    }

    /// Starts the opening anew on a stream that has just been opened, and
    /// gives the commands to send on it first: the same as at the first
    /// opening. A closed connection stays closed and sends nothing.
    pub fn reconnect(&mut self) -> (r: Vec<Command>)
        ensures
            final(self).config == old(self).config,
            final(self).state == next_state(
                next_state(old(self).state, ConnectionEvent::ReconnectRequested),
                ConnectionEvent::Connected,
            ),
            command_views(r@) == if old(self).state == ConnectionState::Closed {
                Seq::<CommandView>::empty()
            } else {
                handshake(old(self).config@)
            },
            old(self).state != ConnectionState::Closed ==> final(self).state
                == ConnectionState::Handshaking,
    {
        match self.state {
            ConnectionState::Closed => {
                let commands: Vec<Command> = Vec::new();
                assert(command_views(commands@) =~= Seq::<CommandView>::empty());
                commands
            },
            _ => {
                self.state = ConnectionState::Handshaking;
                post_connect(&self.config)
            },
        }
    }
}

} // verus!
