//! One connection's bytes: those read and not yet decoded, and the
//! encoding of what is written.

use crate::decimal::{decimal, push_decimal};
use crate::frame::{
    crlf, decode, encode, encode_all, is_malformed, lemma_views, views, Cursor, Decoded, Frame,
    FrameError, CR, LF, TAG_ARRAY, TAG_BULK, TAG_ERROR, TAG_INTEGER, TAG_SIMPLE,
};
use vstd::prelude::*;

verus! {

/// What reading from a connection has come to.
#[derive(Debug, PartialEq, Eq)]
pub enum Read {
    /// A whole frame was received.
    Frame(Frame),
    /// More bytes are needed.
    More,
    /// The peer has closed the connection.
    Closed,
}

/// The buffered state of one connection.
#[derive(Debug)]
pub struct Connection {
    buffer: Vec<u8>,
}

impl Connection {
    /// The bytes received and not yet decoded.
    pub closed spec fn buffered(&self) -> Seq<u8> {
        self.buffer@
    }

    /// A connection on which nothing was received or written yet.
    pub fn new() -> (c: Connection)
        ensures
            c.buffered() == Seq::<u8>::empty(),
    {
        Connection { buffer: Vec::new() }
    }

    /// Takes what one read from the socket has brought, and decodes a frame
    /// if the bytes received so far hold one.
    ///
    /// A read that brought nothing means that the peer has closed the
    /// connection. Else the bytes go behind those that are buffered, and
    /// the buffer is decoded from its start: a whole frame leaves the
    /// buffer and is returned; an incomplete one stays, and more is asked
    /// for; bytes that are no frame are a protocol error.
    pub fn read_frame(&mut self, received: &[u8]) -> (r: Result<Read, FrameError>)
        ensures
            received@.len() == 0 ==> r is Ok && r.unwrap() is Closed && final(self).buffered()
                == old(self).buffered(),
            received@.len() > 0 ==> match decode(old(self).buffered() + received@, 0) {
                Decoded::Frame { frame, end } => r is Ok && (r.unwrap() matches Read::Frame(f)
                    && f@ == frame) && final(self).buffered() == (old(self).buffered()
                    + received@).skip(end as int),
                Decoded::Incomplete => r is Ok && r.unwrap() is More && final(self).buffered()
                    == old(self).buffered() + received@,
                Decoded::Malformed => r is Err && is_malformed(r.unwrap_err()) && final(
                    self).buffered() == old(self).buffered() + received@,
            },
    {
        if received.len() == 0 {
            return Ok(Read::Closed);
        }
        self.buffer.extend_from_slice(received);
        assert(self.buffer@ =~= old(self).buffer@ + received@);
        match self.parse_frame() {
            Ok(Some(frame)) => Ok(Read::Frame(frame)),
            Ok(None) => Ok(Read::More),
            Err(e) => Err(e),
        }
    }

    /// Decodes a frame from the start of the buffer, if the buffer holds a
    /// whole one, and takes it out of the buffer. An incomplete frame stays
    /// and nothing is returned; bytes that are no frame stay and are a
    /// protocol error.
    pub fn parse_frame(&mut self) -> (r: Result<Option<Frame>, FrameError>)
        ensures
            match decode(old(self).buffered(), 0) {
                Decoded::Frame { frame, end } => r is Ok && (r.unwrap() matches Some(f) && f@
                    == frame) && final(self).buffered() == old(self).buffered().skip(end as int),
                Decoded::Incomplete => r is Ok && r.unwrap() is None && final(self).buffered()
                    == old(self).buffered(),
                Decoded::Malformed => r is Err && is_malformed(r.unwrap_err()) && final(
                    self).buffered() == old(self).buffered(),
            },
    {
        let mut cursor = Cursor::new(self.buffer.as_slice());
        match Frame::parse(&mut cursor) {
            Ok(frame) => {
                let end = cursor.position();
                let rest = self.buffer.split_off(end);
                self.buffer = rest;
                Ok(Some(frame))
            },
            Err(FrameError::IncompleteError) => Ok(None),
            Err(e) => Err(e),
        }
    }

    /// The bytes to send for `frame`.
    pub fn write_frame(frame: &Frame) -> (bytes: Vec<u8>)
        ensures
            bytes@ == encode(frame@),
    {
        let mut bytes: Vec<u8> = Vec::new();
        Connection::write_value(&mut bytes, frame);
        bytes
    }

    /// Writes `frame` behind what `dst` holds.
    fn write_value(dst: &mut Vec<u8>, frame: &Frame)
        ensures
            final(dst)@ == old(dst)@ + encode(frame@),
        decreases frame,
    {
        match frame {
            Frame::Simple(s) => {
                dst.push(TAG_SIMPLE);
                dst.extend_from_slice(s.as_str().as_bytes());
                Connection::write_crlf(dst);
            },
            Frame::Error(s) => {
                dst.push(TAG_ERROR);
                dst.extend_from_slice(s.as_str().as_bytes());
                Connection::write_crlf(dst);
            },
            Frame::Integer(n) => {
                dst.push(TAG_INTEGER);
                Connection::write_decimal(dst, *n);
            },
            Frame::Bulk(bytes) => {
                dst.push(TAG_BULK);
                Connection::write_decimal(dst, bytes.len() as u64);
                dst.extend_from_slice(bytes.as_slice());
                Connection::write_crlf(dst);
            },
            Frame::Null => {
                dst.push(TAG_BULK);
                dst.push(45u8);
                dst.push(49u8);
                Connection::write_crlf(dst);
            },
            Frame::Array(items) => {
                dst.push(TAG_ARRAY);
                Connection::write_decimal(dst, items.len() as u64);
                let mut i: usize = 0;
                proof {
                    lemma_views(items@);
                }
                while i < items.len()
                    invariant
                        i <= items@.len(),
                        frame == Frame::Array(*items),
                        views(items@).len() == items@.len(),
                        forall|k: int|
                            0 <= k < items@.len() ==> #[trigger] views(items@)[k] == items@[k]@,
                        dst@ == old(dst)@ + seq![TAG_ARRAY] + decimal(items@.len() as nat) + crlf()
                            + encode_all(views(items@).subrange(0, i as int)),
                    decreases items@.len() - i,
                {
                    assert(decreases_to!(frame => items[i as int])) by {
                        assert(*items == frame->Array_0);
                        assert(decreases_to!(frame => frame->Array_0));
                        assert(decreases_to!(frame->Array_0 => (frame->Array_0)[i as int]));
                    }
                    Connection::write_value(dst, &items[i]);
                    proof {
                        let done = views(items@).subrange(0, i as int);
                        let more = views(items@).subrange(0, i + 1);
                        assert(more.drop_last() =~= done);
                    }
                    i += 1;
                }
                proof {
                    assert(views(items@).subrange(0, i as int) =~= views(items@));
                }
            },
        }
    }

    /// Writes `val` in decimal, and a line terminator, behind what `dst`
    /// holds.
    fn write_decimal(dst: &mut Vec<u8>, val: u64)
        ensures
            final(dst)@ == old(dst)@ + decimal(val as nat) + crlf(),
    {
        push_decimal(dst, val);
        Connection::write_crlf(dst);
    }

    /// Writes a line terminator behind what `dst` holds.
    fn write_crlf(dst: &mut Vec<u8>)
        ensures
            final(dst)@ == old(dst)@ + crlf(),
    {
        dst.push(CR);
        dst.push(LF);
    }
}

} // verus!
