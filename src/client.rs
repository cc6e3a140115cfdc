//! A client and its relation to any games.
//!
//! The connection state is a type parameter: message I/O is offered only on
//! `ClientSession<_, Connected>`, and each transition consumes the value it starts from, so a
//! released stream can never be used again.

use std::marker::PhantomData;
use vstd::prelude::*;

use crate::server::ClientStream;

verus! {

/// A connected state
#[derive(Default)]
pub struct Connected;

/// A disconnected state
#[derive(Default)]
pub struct Disconnected;

/// A connection state, and whether a session in it holds a stream.
pub trait SessionState {
    spec fn attached() -> bool;
}

impl SessionState for Connected {
    open spec fn attached() -> bool {
        true
    }
}

impl SessionState for Disconnected {
    open spec fn attached() -> bool {
        false
    }
}

/// What a client session holds, seen from outside: its name, the game it is in, and whether
/// a stream is attached.
pub ghost struct ClientView<ID> {
    pub name: Seq<char>,
    pub game: Option<ID>,
    pub attached: bool,
}

impl<ID> ClientView<ID> {
    /// The same client with a stream attached.
    pub open spec fn attach(self) -> Self {
        ClientView { name: self.name, game: self.game, attached: true }
    }

    /// The same client with its stream released.
    pub open spec fn detach(self) -> Self {
        ClientView { name: self.name, game: self.game, attached: false }
    }
}

/// A client's current socket stream and any additional positional information
pub struct ClientSession<ID: Default, STATE: SessionState> {
    /// Client name
    name: String,
    /// If client is in a game, what game are they in
    in_game: Option<ID>,
    /// If client is connected, the stream they are communicating through
    stream: Option<ClientStream>,
    /// Whether the client is connected or not
    _state: PhantomData<STATE>,
}

impl<ID: Default, STATE: SessionState> View for ClientSession<ID, STATE> {
    type V = ClientView<ID>;

    closed spec fn view(&self) -> ClientView<ID> {
        ClientView { name: self.name@, game: self.in_game, attached: self.stream is Some }
    }
}

impl<ID: Default, STATE: SessionState> ClientSession<ID, STATE> {
    /// A session holds a stream exactly when its state is `Connected`. Every constructor and
    /// transition establishes this.
    pub open spec fn wf(&self) -> bool {
        self@.attached == STATE::attached()
    }

    /// The attached stream, if any.
    pub closed spec fn stream(&self) -> Option<ClientStream> {
        self.stream
    }

    /// Returns a client's name
    pub fn get_name(&self) -> (r: &str)
        ensures
            r@ == self@.name,
    {
        self.name.as_str()
    }

    /// If client is in a game, returns a reference to that game's ID
    pub fn get_game_id(&self) -> (r: Option<&ID>)
        ensures
            match r {
                Some(g) => self@.game == Some(*g),
                None => self@.game is None,
            },
    {
        match &self.in_game {
            Some(g) => Some(g),
            None => None,
        }
    }
}

impl<ID: Default> ClientSession<ID, Disconnected> {
    /// Creates a new disconnected client with an empty name, in no game
    pub fn new() -> (r: ClientSession<ID, Disconnected>)
        ensures
            r.wf(),
            r@ == (ClientView::<ID> { name: Seq::empty(), game: None, attached: false }),
    {
        ClientSession { name: String::new(), in_game: None, stream: None, _state: PhantomData }
    }

    /// Creates a new disconnected client with a name and, optionally, the game it is in
    pub fn with_identity(name: String, in_game: Option<ID>) -> (r: ClientSession<
        ID,
        Disconnected,
    >)
        ensures
            r.wf(),
            r@ == (ClientView::<ID> { name: name@, game: in_game, attached: false }),
    {
        ClientSession { name, in_game, stream: None, _state: PhantomData }
    }

    /// Connects a client to a ClientStream
    pub fn connect(self, stream: ClientStream) -> (r: ClientSession<ID, Connected>)
        ensures
            r.wf(),
            r@ == self@.attach(),
            r.stream() == Some(stream),
    {
        ClientSession {
            name: self.name,
            in_game: self.in_game,
            stream: Some(stream),
            _state: PhantomData,
        }
    }
}

impl<ID: Default> ClientSession<ID, Connected> {
    /// The attached stream, to send messages on and receive them from. Whatever is done with
    /// it, the session stays connected with the same name and game.
    pub fn stream_mut(&mut self) -> (r: Option<&mut ClientStream>)
        requires
            old(self).wf(),
        ensures
            r is Some,
            final(self).wf(),
            final(self)@.attached,
            final(self)@ == old(self)@,
    {
        self.stream.as_mut()
    }

    /// Disconnects client from the stream, which is dropped
    pub fn disconnect(self) -> (r: ClientSession<ID, Disconnected>)
        ensures
            r.wf(),
            r@ == self@.detach(),
            r.stream() is None,
    {
        ClientSession { name: self.name, in_game: self.in_game, stream: None, _state: PhantomData }
    }
}

/// Connecting a client and disconnecting it again gives back the client it started from:
/// same name, same game, and no stream.
pub proof fn lemma_connect_disconnect_round_trip<ID>(v: ClientView<ID>)
    requires
        !v.attached,
    ensures
        v.attach().detach() == v,
        v.attach().attached,
{
}

/// How a receive loop ended.
#[derive(PartialEq, Eq, Structural, Debug, Clone, Copy)]
pub enum ReceiveEnd {
    /// The stream ended, or yielded a frame that could not be read.
    StreamEnded,
    /// The message handler asked to stop.
    Stopped,
}

/// One step of a receive loop, decided from what the stream yielded: a message is handed
/// to the handler, anything else ends the loop as the end of the stream.
pub fn on_pulled<M, E>(pulled: Option<Result<M, E>>) -> (r: Result<M, ReceiveEnd>)
    ensures
        match pulled {
            Some(Ok(m)) => r == Ok::<M, ReceiveEnd>(m),
            _ => r == Err::<M, ReceiveEnd>(ReceiveEnd::StreamEnded),
        },
{
    match pulled {
        Some(Ok(m)) => Ok(m),
        _ => Err(ReceiveEnd::StreamEnded),
    }
}

/// One step of a receive loop, decided from the handler's answer: `None` stops the loop,
/// any `Some` continues it.
pub fn on_handled(verdict: Option<bool>) -> (r: Option<ReceiveEnd>)
    ensures
        r == (if verdict is None {
            Some(ReceiveEnd::Stopped)
        } else {
            None::<ReceiveEnd>
        }),
{
    match verdict {
        Some(_) => None,
        None => Some(ReceiveEnd::Stopped),
    }
}

} // verus!
