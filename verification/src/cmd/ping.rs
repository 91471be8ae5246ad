//! The command that answers, with a message of the caller's or without.

use crate::frame::{Frame, FrameView};
use crate::parse::{pull_bytes, rest, Parse, ParseError, ParseErrorView};
use vstd::prelude::*;

verus! {

/// Answers `PONG`, or hands a message back.
#[derive(Debug, PartialEq, Eq)]
pub struct Ping {
    message: Option<Vec<u8>>,
}

impl View for Ping {
    type V = Option<Seq<u8>>;

    /// The message, if there is one.
    closed spec fn view(&self) -> Option<Seq<u8>> {
        match self.message {
            Some(m) => Some(m@),
            None => None,
        }
    }
}

/// The message that the arguments of the command hold: none where no
/// argument is left.
pub open spec fn ping_arguments(args: Seq<FrameView>) -> Result<Option<Seq<u8>>, ParseErrorView> {
    match pull_bytes(args) {
        Ok(message) => Ok(Some(message)),
        Err(ParseErrorView::EndOfStreamError) => Ok(None),
        Err(e) => Err(e),
    }
}

/// The reply: the message as a bulk string, or `PONG` where there is none.
pub open spec fn ping_reply(message: Option<Seq<u8>>) -> FrameView {
    match message {
        Some(m) => FrameView::Bulk(m),
        None => FrameView::Simple("PONG"@),
    }
}

impl Default for Ping {
    /// The command without a message.
    fn default() -> (ping: Ping)
        ensures
            ping@ is None,
    {
        Ping { message: None }
    }
}

impl Ping {
    /// The command with `message`, or without one.
    pub fn new(message: Option<Vec<u8>>) -> (ping: Ping)
        ensures
            ping@ == match message {
                Some(m) => Some(m@),
                None => None,
            },
    {
        Ping { message }
    }

    /// Reads the command's arguments: a message, which may be missing.
    pub fn parse_frames(parse: &mut Parse) -> (r: Result<Ping, ParseError>)
        ensures
            final(parse).remaining() == rest(old(parse).remaining()),
            match r {
                Ok(ping) => ping_arguments(old(parse).remaining()) == Ok::<
                    Option<Seq<u8>>,
                    ParseErrorView,
                >(ping@),
                Err(e) => ping_arguments(old(parse).remaining()) == Err::<
                    Option<Seq<u8>>,
                    ParseErrorView,
                >(e@),
            },
    {
        match parse.next_bytes() {
            Ok(message) => Ok(Ping::new(Some(message))),
            Err(ParseError::EndOfStreamError) => Ok(Ping::default()),
            Err(e) => Err(e),
        }
    }

    /// Returns the reply.
    pub fn apply(self) -> (reply: Frame)
        ensures
            reply@ == ping_reply(self@),
    {
        match self.message {
            None => Frame::Simple("PONG".to_string()),
            Some(message) => Frame::Bulk(message),
        }
    }
}

} // verus!
