//! The parts of a command, pulled one by one from an array frame.

use crate::decimal::{parse_decimal, read_decimal};
use crate::frame::{lemma_views, Frame, FrameView};
use vstd::prelude::*;
use vstd::utf8::{decode_utf8, encode_utf8, encode_utf8_decode_utf8, valid_utf8};

verus! {

/// Why a part of a command could not be pulled.
#[derive(Debug, PartialEq, Eq)]
pub enum ParseError {
    /// No part is left.
    EndOfStreamError,
    /// The part is not of the kind asked for.
    ProtocolError(String),
}

/// The mathematical value of a [`ParseError`].
pub enum ParseErrorView {
    EndOfStreamError,
    ProtocolError(Seq<char>),
}

impl View for ParseError {
    type V = ParseErrorView;

    open spec fn view(&self) -> ParseErrorView {
        match self {
            ParseError::EndOfStreamError => ParseErrorView::EndOfStreamError,
            ParseError::ProtocolError(m) => ParseErrorView::ProtocolError(m@),
        }
    }
}

impl ParseError {
    /// What the error says.
    pub fn message(&self) -> (s: String)
        ensures
            self is EndOfStreamError ==> s@ == "end of stream error"@,
            self matches ParseError::ProtocolError(m) ==> s@ == "protocol error; "@ + m@,
    {
        match self {
            ParseError::EndOfStreamError => "end of stream error".to_string(),
            ParseError::ProtocolError(m) => {
                let mut s = "protocol error; ".to_string();
                s.append(m.as_str());
                s
            },
        }
    }
}

/// The error for a part of the wrong kind.
pub open spec fn protocol_error(message: &str) -> ParseErrorView {
    ParseErrorView::ProtocolError(message@)
}

/// The text of a part: a simple string as it is, a bulk string read as
/// UTF-8.
pub open spec fn text(part: FrameView) -> Result<Seq<char>, ParseErrorView> {
    match part {
        FrameView::Simple(s) => Ok(s),
        FrameView::Bulk(b) => if valid_utf8(b) {
            Ok(decode_utf8(b))
        } else {
            Err(protocol_error("invalid string"))
        },
        _ => Err(protocol_error("expected simple frame or bulk frame")),
    }
}

/// The bytes of a part: those of a bulk string, or a simple string's text
/// in UTF-8.
pub open spec fn bytes(part: FrameView) -> Result<Seq<u8>, ParseErrorView> {
    match part {
        FrameView::Simple(s) => Ok(encode_utf8(s)),
        FrameView::Bulk(b) => Ok(b),
        _ => Err(protocol_error("expected simple frame or bulk frame")),
    }
}

/// The number of a part: an integer as it is, a string read as decimal
/// digits.
pub open spec fn number(part: FrameView) -> Result<u64, ParseErrorView> {
    match part {
        FrameView::Integer(n) => Ok(n),
        FrameView::Simple(s) => match parse_decimal(encode_utf8(s)) {
            Some(n) => Ok(n),
            None => Err(protocol_error("invalid number")),
        },
        FrameView::Bulk(b) => match parse_decimal(b) {
            Some(n) => Ok(n),
            None => Err(protocol_error("invalid number")),
        },
        _ => Err(protocol_error("expected int frame")),
    }
}

/// What pulling the first of `parts` as text yields: the end of the
/// stream where no part is left.
pub open spec fn pull_text(parts: Seq<FrameView>) -> Result<Seq<char>, ParseErrorView> {
    if parts.len() == 0 {
        Err(ParseErrorView::EndOfStreamError)
    } else {
        text(parts[0])
    }
}

/// What pulling the first of `parts` as bytes yields.
pub open spec fn pull_bytes(parts: Seq<FrameView>) -> Result<Seq<u8>, ParseErrorView> {
    if parts.len() == 0 {
        Err(ParseErrorView::EndOfStreamError)
    } else {
        bytes(parts[0])
    }
}

/// What pulling the first of `parts` as a number yields.
pub open spec fn pull_number(parts: Seq<FrameView>) -> Result<u64, ParseErrorView> {
    if parts.len() == 0 {
        Err(ParseErrorView::EndOfStreamError)
    } else {
        number(parts[0])
    }
}

/// The parts that are left once the first was pulled.
pub open spec fn rest(parts: Seq<FrameView>) -> Seq<FrameView> {
    if parts.len() == 0 {
        parts
    } else {
        parts.skip(1)
    }
}

/// Reads bytes as text with `core::str::from_utf8`.
///
/// Trusted: `from_utf8` accepts `bytes` exactly where they are well-formed
/// UTF-8, and the text it returns is the one whose UTF-8 encoding is
/// `bytes`.
#[verifier::external_body]
fn from_utf8(bytes: &[u8]) -> (r: Option<String>)
    ensures
        r is Some <==> valid_utf8(bytes@),
        r matches Some(s) ==> encode_utf8(s@) == bytes@,
{
    match core::str::from_utf8(bytes) {
        Ok(s) => Some(s.to_string()),
        Err(_) => None,
    }
}

fn mismatch(message: &str) -> (e: ParseError)
    ensures
        e@ == protocol_error(message),
{
    ParseError::ProtocolError(message.to_string())
}

/// The parts of an array frame that are yet to be pulled.
#[derive(Debug)]
pub struct Parse {
    /// The parts, last first, so that the next one is at the end.
    parts: Vec<Frame>,
}

impl Parse {
    /// The parts that are left, in the order in which they will be pulled.
    pub closed spec fn remaining(&self) -> Seq<FrameView> {
        Seq::new(self.parts@.len(), |i: int| self.parts@[self.parts@.len() - 1 - i]@)
    }

    /// The parts of an array frame. Any other frame is no command.
    pub fn new(frame: Frame) -> (r: Result<Parse, ParseError>)
        ensures
            match frame@ {
                FrameView::Array(items) => r is Ok && r.unwrap().remaining() == items,
                _ => r is Err && r.unwrap_err()@ == protocol_error("expected array"),
            },
    {
        match frame {
            Frame::Array(items) => {
                let ghost all = items@;
                let mut items = items;
                let mut parts: Vec<Frame> = Vec::new();
                while items.len() > 0
                    invariant
                        items@.len() + parts@.len() == all.len(),
                        forall|i: int| 0 <= i < items@.len() ==> items@[i] == all[i],
                        forall|i: int|
                            0 <= i < parts@.len() ==> parts@[i] == all[all.len() - 1 - i],
                    decreases items@.len(),
                {
                    match items.pop() {
                        Some(part) => parts.push(part),
                        None => {},
                    }
                }
                let parse = Parse { parts };
                proof {
                    lemma_views(all);
                }
                Ok(parse)
            },
            _ => Err(mismatch("expected array")),
        }
    }

    /// Pulls the next part.
    fn next(&mut self) -> (r: Result<Frame, ParseError>)
        ensures
            final(self).remaining() == rest(old(self).remaining()),
            old(self).remaining().len() == 0 ==> r is Err && r.unwrap_err()
                is EndOfStreamError,
            old(self).remaining().len() > 0 ==> r is Ok && r.unwrap()@ == old(self).remaining()[0],
    {
        match self.parts.pop() {
            Some(part) => {
                Ok(part)
            },
            None => Err(ParseError::EndOfStreamError),
        }
    }

    /// Pulls the next part as text.
    pub fn next_string(&mut self) -> (r: Result<String, ParseError>)
        ensures
            final(self).remaining() == rest(old(self).remaining()),
            match r {
                Ok(s) => pull_text(old(self).remaining()) == Ok::<Seq<char>, ParseErrorView>(s@),
                Err(e) => pull_text(old(self).remaining()) == Err::<Seq<char>, ParseErrorView>(
                    e@,
                ),
            },
    {
        match self.next()? {
            Frame::Simple(s) => Ok(s),
            Frame::Bulk(b) => match from_utf8(b.as_slice()) {
                Some(s) => {
                    proof {
                        encode_utf8_decode_utf8(s@);
                    }
                    Ok(s)
                },
                None => Err(mismatch("invalid string")),
            },
            _ => Err(mismatch("expected simple frame or bulk frame")),
        }
    }

    /// Pulls the next part as bytes.
    pub fn next_bytes(&mut self) -> (r: Result<Vec<u8>, ParseError>)
        ensures
            final(self).remaining() == rest(old(self).remaining()),
            match r {
                Ok(b) => pull_bytes(old(self).remaining()) == Ok::<Seq<u8>, ParseErrorView>(b@),
                Err(e) => pull_bytes(old(self).remaining()) == Err::<Seq<u8>, ParseErrorView>(
                    e@,
                ),
            },
    {
        match self.next()? {
            Frame::Simple(s) => Ok(s.as_str().as_bytes_vec()),
            Frame::Bulk(b) => Ok(b),
            _ => Err(mismatch("expected simple frame or bulk frame")),
        }
    }

    /// Pulls the next part as a number.
    pub fn next_int(&mut self) -> (r: Result<u64, ParseError>)
        ensures
            final(self).remaining() == rest(old(self).remaining()),
            match r {
                Ok(n) => pull_number(old(self).remaining()) == Ok::<u64, ParseErrorView>(n),
                Err(e) => pull_number(old(self).remaining()) == Err::<u64, ParseErrorView>(e@),
            },
    {
        match self.next()? {
            Frame::Integer(n) => Ok(n),
            Frame::Simple(s) => match read_decimal(s.as_str().as_bytes()) {
                Some(n) => Ok(n),
                None => Err(mismatch("invalid number")),
            },
            Frame::Bulk(b) => match read_decimal(b.as_slice()) {
                Some(n) => Ok(n),
                None => Err(mismatch("invalid number")),
            },
            _ => Err(mismatch("expected int frame")),
        }
    }
}

} // verus!
