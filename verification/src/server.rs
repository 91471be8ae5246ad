//! One session: what a connection's handler does with each thing that
//! happens to it. The handler decides; whoever drives it reads, writes,
//! applies commands to the shared store and waits.

use crate::cmd::{command, Command, CommandView};
use crate::connection::{Connection, Read};
use crate::frame::{
    decode, encode, malformed_error, Decoded, Frame, FrameError, FrameErrorView, FrameView,
};
use crate::parse::{ParseError, ParseErrorView};
use vstd::prelude::*;

verus! {

/// The shutdown signal as one handler sees it: a latch that stays set once
/// the signal was received.
#[derive(Debug)]
pub struct Shutdown {
    is_shutdown: bool,
}

impl Shutdown {
    /// Whether the signal was received.
    pub closed spec fn fired(&self) -> bool {
        self.is_shutdown
    }

    /// A latch that is not set.
    pub fn new() -> (s: Shutdown)
        ensures
            !s.fired(),
    {
        Shutdown { is_shutdown: false }
    }

    /// Whether the signal was received.
    pub fn is_shutdown(&self) -> (r: bool)
        ensures
            r == self.fired(),
    {
        self.is_shutdown
    }

    /// Takes note that the signal was received.
    pub fn recv(&mut self)
        ensures
            final(self).fired(),
    {
        self.is_shutdown = true;
    }
}

/// Where a session stands.
#[derive(Debug, Clone, Copy, PartialEq, Eq, Structural)]
pub enum State {
    /// Waiting for the bytes of the next request.
    Reading,
    /// A command was decoded and is being applied to the store.
    Dispatching,
    /// The reply is being written.
    Writing,
    /// The session is over.
    Closed,
}

/// What happened to a session.
#[derive(Debug, PartialEq, Eq)]
pub enum Event {
    /// A read from the socket has brought these bytes; none, where the peer
    /// closed the connection.
    Received(Vec<u8>),
    /// The command was applied to the store, with this reply.
    Applied(Frame),
    /// The reply was written and flushed.
    Flushed,
    /// The shutdown signal was received.
    Shutdown,
    /// Reading or writing failed.
    Failed,
}

/// The mathematical value of an [`Event`].
pub enum EventView {
    Received(Seq<u8>),
    Applied(FrameView),
    Flushed,
    Shutdown,
    Failed,
}

impl View for Event {
    type V = EventView;

    open spec fn view(&self) -> EventView {
        match self {
            Event::Received(bytes) => EventView::Received(bytes@),
            Event::Applied(reply) => EventView::Applied(reply@),
            Event::Flushed => EventView::Flushed,
            Event::Shutdown => EventView::Shutdown,
            Event::Failed => EventView::Failed,
        }
    }
}

/// Why a session ended before its peer closed it.
#[derive(Debug, PartialEq, Eq)]
pub enum Fault {
    /// The bytes received are no frame.
    Frame(FrameError),
    /// The frame received is no command.
    Command(ParseError),
    /// Reading or writing failed.
    Io,
    /// Something happened that cannot happen where the session stood.
    Unexpected,
}

/// The mathematical value of a [`Fault`].
pub enum FaultView {
    Frame(FrameErrorView),
    Command(ParseErrorView),
    Io,
    Unexpected,
}

impl View for Fault {
    type V = FaultView;

    open spec fn view(&self) -> FaultView {
        match self {
            Fault::Frame(e) => FaultView::Frame(e@),
            Fault::Command(e) => FaultView::Command(e@),
            Fault::Io => FaultView::Io,
            Fault::Unexpected => FaultView::Unexpected,
        }
    }
}

/// What the driver of a session has to do next.
#[derive(Debug, PartialEq, Eq)]
pub enum Action {
    /// Wait for bytes from the socket or for the shutdown signal, whichever
    /// comes first, and report it.
    Read,
    /// Apply the command to the store and report the reply.
    Apply(Command),
    /// Write these bytes, flush, and report it.
    Write(Vec<u8>),
    /// Go on with what was asked for before.
    Continue,
    /// Close the connection: in good order, or for the fault given.
    Close(Option<Fault>),
}

/// The mathematical value of an [`Action`].
pub enum ActionView {
    Read,
    Apply(CommandView),
    Write(Seq<u8>),
    Continue,
    Close(Option<FaultView>),
}

impl View for Action {
    type V = ActionView;

    open spec fn view(&self) -> ActionView {
        match self {
            Action::Read => ActionView::Read,
            Action::Apply(cmd) => ActionView::Apply(cmd@),
            Action::Write(bytes) => ActionView::Write(bytes@),
            Action::Continue => ActionView::Continue,
            Action::Close(None) => ActionView::Close(None),
            Action::Close(Some(fault)) => ActionView::Close(Some(fault@)),
        }
    }
}

/// The mathematical value of a [`Handler`].
pub struct HandlerView {
    /// Where the session stands.
    pub state: State,
    /// The bytes received and not yet decoded.
    pub buffered: Seq<u8>,
    /// Whether the shutdown signal was received.
    pub shutdown: bool,
}

/// A session that is over, with what closes it.
pub open spec fn closed(h: HandlerView, fault: Option<FaultView>) -> (HandlerView, ActionView) {
    (HandlerView { state: State::Closed, ..h }, ActionView::Close(fault))
}

/// What a session that is free to take up a request does with the bytes
/// it has: with a whole frame that is a command, it takes the frame out of
/// the buffer and has the command applied; with less than a frame, it
/// reads on; with anything else, it closes.
pub open spec fn next_request(h: HandlerView) -> (HandlerView, ActionView) {
    match decode(h.buffered, 0) {
        Decoded::Frame { frame, end } => {
            let taken = HandlerView { buffered: h.buffered.skip(end as int), ..h };
            match command(frame) {
                Ok(cmd) => (
                    HandlerView { state: State::Dispatching, ..taken },
                    ActionView::Apply(cmd),
                ),
                Err(e) => closed(taken, Some(FaultView::Command(e))),
            }
        },
        Decoded::Incomplete => (HandlerView { state: State::Reading, ..h }, ActionView::Read),
        Decoded::Malformed => closed(h, Some(FaultView::Frame(malformed_error()))),
    }
}

/// The session after an event, and what its driver has to do next.
///
/// A session that is over stays so. A failure of reading or writing ends
/// it. The shutdown signal ends a session that is reading; one that has a
/// command in flight takes note, finishes the command, and ends once the
/// reply is flushed. A read that brought nothing ends the session in good
/// order. Bytes that were received are decoded only while the session is
/// reading or once the reply before is flushed.
pub open spec fn step(h: HandlerView, event: EventView) -> (HandlerView, ActionView) {
    match (h.state, event) {
        (State::Closed, _) => (h, ActionView::Close(None)),
        (_, EventView::Failed) => closed(h, Some(FaultView::Io)),
        (State::Reading, EventView::Shutdown) => closed(
            HandlerView { shutdown: true, ..h },
            None,
        ),
        (_, EventView::Shutdown) => (HandlerView { shutdown: true, ..h }, ActionView::Continue),
        (State::Reading, EventView::Received(bytes)) => if bytes.len() == 0 {
            closed(h, None)
        } else {
            next_request(HandlerView { buffered: h.buffered + bytes, ..h })
        },
        (State::Dispatching, EventView::Applied(reply)) => (
            HandlerView { state: State::Writing, ..h },
            ActionView::Write(encode(reply)),
        ),
        (State::Writing, EventView::Flushed) => if h.shutdown {
            closed(h, None)
        } else {
            next_request(h)
        },
        _ => closed(h, Some(FaultView::Unexpected)),
    }
}

/// A session that is over stays as it is, whatever happens.
pub proof fn lemma_closed_is_final(h: HandlerView, event: EventView)
    requires
        h.state == State::Closed,
    ensures
        step(h, event) == (h, ActionView::Close(None)),
{
}

/// A command in flight is not interrupted: while a command is applied or
/// its reply is written, the shutdown signal leaves the session where it
/// stands, and no event has bytes of the buffer decoded.
pub proof fn lemma_in_flight(h: HandlerView, event: EventView)
    requires
        h.state == State::Dispatching || h.state == State::Writing,
    ensures
        step(h, EventView::Shutdown).0.state == h.state,
        !(h.state == State::Writing && event is Flushed) ==> step(h, event).0.buffered
            == h.buffered,
{
}

/// The shutdown signal is latched: once a session has taken note of it, no
/// event makes the session forget it; and a session that has taken note of
/// it takes up no further request.
pub proof fn lemma_shutdown_is_latched(h: HandlerView, event: EventView)
    requires
        h.shutdown,
    ensures
        step(h, event).0.shutdown,
        h.state == State::Writing && event is Flushed ==> step(h, event) == closed(h, None),
{
}

/// The handler of one session.
#[derive(Debug)]
pub struct Handler {
    connection: Connection,
    shutdown: Shutdown,
    state: State,
}

impl View for Handler {
    type V = HandlerView;

    closed spec fn view(&self) -> HandlerView {
        HandlerView {
            state: self.state,
            buffered: self.connection.buffered(),
            shutdown: self.shutdown.fired(),
        }
    }
}

impl Handler {
    /// The handler of a new session: it is reading, and its driver reads
    /// first.
    pub fn new() -> (h: Handler)
        ensures
            h@ == (HandlerView {
                state: State::Reading,
                buffered: Seq::<u8>::empty(),
                shutdown: false,
            }),
    {
        Handler { connection: Connection::new(), shutdown: Shutdown::new(), state: State::Reading }
    }

    /// Where the session stands.
    pub fn state(&self) -> (s: State)
        ensures
            s == self@.state,
    {
        self.state
    }

    /// Takes one event and says what to do next.
    pub fn run(&mut self, event: Event) -> (action: Action)
        ensures
            (final(self)@, action@) == step(old(self)@, event@),
    {
        match (self.state, event) {
            (State::Closed, _) => Action::Close(None),
            (_, Event::Failed) => self.close(Some(Fault::Io)),
            (State::Reading, Event::Shutdown) => {
                self.shutdown.recv();
                self.close(None)
            },
            (_, Event::Shutdown) => {
                self.shutdown.recv();
                Action::Continue
            },
            (State::Reading, Event::Received(bytes)) => {
                match self.connection.read_frame(bytes.as_slice()) {
                    Ok(Read::Closed) => self.close(None),
                    Ok(Read::More) => Action::Read,
                    Ok(Read::Frame(frame)) => self.dispatch(frame),
                    Err(e) => self.close(Some(Fault::Frame(e))),
                }
            },
            (State::Dispatching, Event::Applied(reply)) => {
                let bytes = Connection::write_frame(&reply);
                self.state = State::Writing;
                Action::Write(bytes)
            },
            (State::Writing, Event::Flushed) => {
                if self.shutdown.is_shutdown() {
                    self.close(None)
                } else {
                    match self.connection.parse_frame() {
                        Ok(None) => {
                            self.state = State::Reading;
                            Action::Read
                        },
                        Ok(Some(frame)) => self.dispatch(frame),
                        Err(e) => self.close(Some(Fault::Frame(e))),
                    }
                }
            },
            _ => self.close(Some(Fault::Unexpected)),
        }
    }

    /// Ends the session.
    fn close(&mut self, fault: Option<Fault>) -> (action: Action)
        ensures
            final(self)@ == (HandlerView { state: State::Closed, ..old(self)@ }),
            action@ == ActionView::Close(
                match fault {
                    Some(f) => Some(f@),
                    None => None,
                },
            ),
    {
        self.state = State::Closed;
        Action::Close(fault)
    }

    /// Reads the command that a frame holds and has it applied.
    fn dispatch(&mut self, frame: Frame) -> (action: Action)
        ensures
            match command(frame@) {
                Ok(cmd) => final(self)@ == (HandlerView { state: State::Dispatching, ..old(self)@ })
                    && action@ == ActionView::Apply(cmd),
                Err(e) => (final(self)@, action@) == closed(
                    old(self)@,
                    Some(FaultView::Command(e)),
                ),
            },
    {
        match Command::from_frame(frame) {
            Ok(cmd) => {
                self.state = State::Dispatching;
                Action::Apply(cmd)
            },
            Err(e) => self.close(Some(Fault::Command(e))),
        }
    }
}

} // verus!
