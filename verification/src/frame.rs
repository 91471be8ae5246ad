//! Frames: the units of the wire protocol, and their mathematical model.

use crate::decimal::{decimal, parse_decimal, read_decimal};
use vstd::prelude::*;
use vstd::slice::{slice_subrange, slice_to_vec};
use vstd::utf8::encode_utf8;

verus! {

/// One unit of the wire protocol.
#[derive(Debug, PartialEq, Eq)]
pub enum Frame {
    Simple(String),
    Error(String),
    Integer(u64),
    Bulk(Vec<u8>),
    Null,
    Array(Vec<Frame>),
}

/// The mathematical value of a [`Frame`]: text as a sequence of characters,
/// payloads as sequences of bytes, arrays as sequences of values.
pub enum FrameView {
    Simple(Seq<char>),
    Error(Seq<char>),
    Integer(u64),
    Bulk(Seq<u8>),
    Null,
    Array(Seq<FrameView>),
}

impl View for Frame {
    type V = FrameView;

    open spec fn view(&self) -> FrameView
        decreases self,
    {
        match self {
            Frame::Simple(s) => FrameView::Simple(s@),
            Frame::Error(s) => FrameView::Error(s@),
            Frame::Integer(n) => FrameView::Integer(*n),
            Frame::Bulk(b) => FrameView::Bulk(b@),
            Frame::Null => FrameView::Null,
            Frame::Array(items) => FrameView::Array(views(items@)),
        }
    }
}

/// The values of a sequence of frames, in order.
pub open spec fn views(items: Seq<Frame>) -> Seq<FrameView>
    decreases items,
{
    if items.len() == 0 {
        Seq::empty()
    } else {
        views(items.drop_last()).push(items.last()@)
    }
}

/// `views` keeps the length and maps each frame to its value.
pub proof fn lemma_views(items: Seq<Frame>)
    ensures
        views(items).len() == items.len(),
        forall|i: int| 0 <= i < items.len() ==> #[trigger] views(items)[i] == items[i]@,
    decreases items.len(),
{
    if items.len() > 0 {
        lemma_views(items.drop_last());
        assert(views(items) == views(items.drop_last()).push(items.last()@));
    }
}

/// ASCII carriage return.
pub const CR: u8 = 13;

/// ASCII line feed.
pub const LF: u8 = 10;

/// The tag of a simple string, `+`.
pub const TAG_SIMPLE: u8 = 43;

/// The tag of an error, `-`.
pub const TAG_ERROR: u8 = 45;

/// The tag of an integer, `:`.
pub const TAG_INTEGER: u8 = 58;

/// The tag of a bulk string, `$`.
pub const TAG_BULK: u8 = 36;

/// The tag of an array, `*`.
pub const TAG_ARRAY: u8 = 42;

/// The line terminator.
pub open spec fn crlf() -> Seq<u8> {
    seq![CR, LF]
}

/// The bytes that stand for the absent value, `$-1` and a line terminator.
pub open spec fn null_bytes() -> Seq<u8> {
    seq![TAG_BULK, 45u8, 49u8, CR, LF]
}

/// The bytes that a frame is written as.
pub open spec fn encode(f: FrameView) -> Seq<u8>
    decreases f,
{
    match f {
        FrameView::Simple(s) => seq![TAG_SIMPLE] + encode_utf8(s) + crlf(),
        FrameView::Error(s) => seq![TAG_ERROR] + encode_utf8(s) + crlf(),
        FrameView::Integer(n) => seq![TAG_INTEGER] + decimal(n as nat) + crlf(),
        FrameView::Bulk(b) => seq![TAG_BULK] + decimal(b.len()) + crlf() + b + crlf(),
        FrameView::Null => null_bytes(),
        FrameView::Array(items) => seq![TAG_ARRAY] + decimal(items.len()) + crlf() + encode_all(
            items,
        ),
    }
}

/// The bytes that a sequence of frames is written as: one frame after the
/// other.
pub open spec fn encode_all(items: Seq<FrameView>) -> Seq<u8>
    decreases items,
{
    if items.len() == 0 {
        Seq::empty()
    } else {
        encode_all(items.drop_last()) + encode(items.last())
    }
}

/// What decoding at a position of a buffer comes to.
pub enum Decoded {
    /// A whole frame stands at the position and ends before `end`.
    Frame { frame: FrameView, end: nat },
    /// The bytes so far may begin a frame, and more are needed.
    Incomplete,
    /// No frame begins with these bytes.
    Malformed,
}

/// What decoding a run of frames comes to.
pub enum DecodedItems {
    /// All the frames are there, the last ending before `end`.
    Items { items: Seq<FrameView>, end: nat },
    /// More bytes are needed.
    Incomplete,
    /// One of them is no frame.
    Malformed,
}

/// The position of the first line terminator that begins at or after
/// `pos` and lies wholly inside `src`.
pub open spec fn find_crlf(src: Seq<u8>, pos: nat) -> Option<nat>
    decreases src.len() - pos,
{
    if pos + 1 >= src.len() {
        None
    } else if src[pos as int] == CR && src[pos as int + 1] == LF {
        Some(pos)
    } else {
        find_crlf(src, pos + 1)
    }
}

/// `find_crlf` finds the first terminator: it stands where the result says,
/// inside the buffer, and none begins between `pos` and there; without a
/// result, none begins at or after `pos`.
pub proof fn lemma_find_crlf(src: Seq<u8>, pos: nat)
    ensures
        match find_crlf(src, pos) {
            Some(at) => {
                &&& pos <= at
                &&& at + 1 < src.len()
                &&& src[at as int] == CR
                &&& src[at as int + 1] == LF
                &&& forall|i: int| pos <= i < at ==> !(#[trigger] src[i] == CR && src[i + 1] == LF)
            },
            None => forall|i: int|
                pos <= i && i + 1 < src.len() ==> !(#[trigger] src[i] == CR && src[i + 1] == LF),
        },
    decreases src.len() - pos,
{
    if pos + 1 < src.len() && !(src[pos as int] == CR && src[pos as int + 1] == LF) {
        lemma_find_crlf(src, pos + 1);
    }
}

/// What reading the line at a position as a number comes to.
pub enum DecodedNumber {
    /// The line is a number, and what follows it begins at `next`.
    Number { value: u64, next: nat },
    /// The line has no terminator yet.
    Incomplete,
    /// The line is no number.
    Malformed,
}

/// What reading the line at `pos` as a number comes to: the line reaches
/// to the first terminator, and is a number where it is a non-empty string
/// of digits whose value fits in 64 bits.
pub open spec fn decode_number(src: Seq<u8>, pos: nat) -> DecodedNumber {
    match find_crlf(src, pos) {
        None => DecodedNumber::Incomplete,
        Some(at) => match parse_decimal(src.subrange(pos as int, at as int)) {
            None => DecodedNumber::Malformed,
            Some(value) => DecodedNumber::Number { value, next: at + 2 },
        },
    }
}

/// What decoding one frame at `pos` comes to. A bulk string is its tag, its
/// length in decimal on a line, that many bytes, and a line terminator; an
/// array is its tag, its count in decimal on a line, and that many frames;
/// no other tag begins a frame.
pub open spec fn decode(src: Seq<u8>, pos: nat) -> Decoded
    decreases src.len() - pos, 0nat,
{
    if pos >= src.len() {
        Decoded::Incomplete
    } else if src[pos as int] == TAG_BULK {
        match decode_number(src, pos + 1) {
            DecodedNumber::Number { value: len, next: start } => {
                if src.len() - start < len + 2 {
                    Decoded::Incomplete
                } else if src[start + len] == CR && src[start + len + 1] == LF {
                    Decoded::Frame {
                        frame: FrameView::Bulk(src.subrange(start as int, start + len)),
                        end: (start + len + 2) as nat,
                    }
                } else {
                    Decoded::Malformed
                }
            },
            DecodedNumber::Incomplete => Decoded::Incomplete,
            DecodedNumber::Malformed => Decoded::Malformed,
        }
    } else if src[pos as int] == TAG_ARRAY {
        match decode_number(src, pos + 1) {
            DecodedNumber::Number { value: count, next: start } => {
                proof {
                    lemma_find_crlf(src, pos + 1);
                }
                match decode_items(src, start, count as nat) {
                    DecodedItems::Items { items, end } => Decoded::Frame {
                        frame: FrameView::Array(items),
                        end,
                    },
                    DecodedItems::Incomplete => Decoded::Incomplete,
                    DecodedItems::Malformed => Decoded::Malformed,
                }
            },
            DecodedNumber::Incomplete => Decoded::Incomplete,
            DecodedNumber::Malformed => Decoded::Malformed,
        }
    } else {
        Decoded::Malformed
    }
}

/// What decoding `count` frames, one after the other from `pos`, comes to.
/// The first failure is the failure of the whole.
pub open spec fn decode_items(src: Seq<u8>, pos: nat, count: nat) -> DecodedItems
    decreases src.len() - pos, count,
{
    if count == 0 {
        DecodedItems::Items { items: Seq::empty(), end: pos }
    } else {
        match decode_items(src, pos, (count - 1) as nat) {
            DecodedItems::Items { items, end } => {
                if end < pos {
                    // No run of frames ends before it begins, as
                    // `lemma_decode_bounds` shows; the test lets the
                    // definition be seen to end.
                    DecodedItems::Malformed
                } else if end >= src.len() {
                    DecodedItems::Incomplete
                } else {
                    match decode(src, end) {
                        Decoded::Frame { frame, end: next } => DecodedItems::Items {
                            items: items.push(frame),
                            end: next,
                        },
                        Decoded::Incomplete => DecodedItems::Incomplete,
                        Decoded::Malformed => DecodedItems::Malformed,
                    }
                }
            },
            DecodedItems::Incomplete => DecodedItems::Incomplete,
            DecodedItems::Malformed => DecodedItems::Malformed,
        }
    }
}

/// A frame ends after it begins and inside the buffer; a run of frames ends
/// inside the buffer, not before it begins, and has as many frames as were
/// asked for.
pub proof fn lemma_decode_bounds(src: Seq<u8>, pos: nat, count: nat)
    requires
        pos <= src.len(),
    ensures
        decode(src, pos) matches Decoded::Frame { end, .. } ==> pos < end <= src.len(),
        decode_items(src, pos, count) matches DecodedItems::Items { items, end } ==> (pos <= end
            <= src.len() && items.len() == count),
    decreases src.len() - pos, count,
{
    if pos < src.len() {
        lemma_find_crlf(src, pos + 1);
        if src[pos as int] == TAG_ARRAY {
            if let Some(at) = find_crlf(src, pos + 1) {
                if let Some(n) = parse_decimal(src.subrange(pos as int + 1, at as int)) {
                    lemma_decode_bounds(src, at + 2, n as nat);
                }
            }
        }
    }
    if count > 0 {
        lemma_decode_bounds(src, pos, (count - 1) as nat);
        if let DecodedItems::Items { items, end } = decode_items(src, pos, (count - 1) as nat) {
            lemma_decode_bounds(src, end, 0);
        }
    }
}

/// Once a run of frames has failed, asking for more frames fails the same
/// way.
pub proof fn lemma_decode_items_failed(src: Seq<u8>, pos: nat, count: nat, more: nat)
    requires
        count <= more,
        !(decode_items(src, pos, count) is Items),
    ensures
        decode_items(src, pos, more) == decode_items(src, pos, count),
    decreases more,
{
    if count < more {
        lemma_decode_items_failed(src, pos, count, (more - 1) as nat);
    }
}

/// Why a frame could not be decoded.
#[derive(Debug, PartialEq, Eq)]
pub enum FrameError {
    /// More bytes are needed before a frame can be decoded.
    IncompleteError,
    /// The bytes are no frame.
    ProtocolError(String),
}

/// The mathematical value of a [`FrameError`].
pub enum FrameErrorView {
    IncompleteError,
    ProtocolError(Seq<char>),
}

impl View for FrameError {
    type V = FrameErrorView;

    open spec fn view(&self) -> FrameErrorView {
        match self {
            FrameError::IncompleteError => FrameErrorView::IncompleteError,
            FrameError::ProtocolError(m) => FrameErrorView::ProtocolError(m@),
        }
    }
}

impl FrameError {
    /// What the error says.
    pub fn message(&self) -> (s: String)
        ensures
            self is IncompleteError ==> s@ == "frame is incomplete"@,
            self matches FrameError::ProtocolError(m) ==> s@ == "protocol error; "@ + m@,
    {
        match self {
            FrameError::IncompleteError => "frame is incomplete".to_string(),
            FrameError::ProtocolError(m) => {
                let mut s = "protocol error; ".to_string();
                s.append(m.as_str());
                s
            },
        }
    }
}

/// A position in a buffer of received bytes.
pub struct Cursor<'a> {
    data: &'a [u8],
    position: usize,
}

impl<'a> Cursor<'a> {
    #[verifier::type_invariant]
    spec fn inside(&self) -> bool {
        self.position <= self.data@.len()
    }

    /// The buffer.
    pub closed spec fn bytes(&self) -> Seq<u8> {
        self.data@
    }

    /// The position: how many bytes of the buffer are consumed.
    pub closed spec fn index(&self) -> nat {
        self.position as nat
    }

    /// A cursor at the start of `data`.
    pub fn new(data: &'a [u8]) -> (c: Cursor<'a>)
        ensures
            c.bytes() == data@,
            c.index() == 0,
    {
        Cursor { data, position: 0 }
    }

    /// The position; it never lies beyond the end of the buffer.
    pub fn position(&self) -> (p: usize)
        ensures
            p == self.index(),
            p <= self.bytes().len(),
    {
        proof {
            use_type_invariant(self);
        }
        self.position
    }

    /// How many bytes lie at or after the position.
    pub fn remaining(&self) -> (n: usize)
        ensures
            n == self.bytes().len() - self.index(),
    {
        proof {
            use_type_invariant(self);
        }
        self.data.len() - self.position
    }
}

/// The error for bytes that are no frame.
pub open spec fn malformed_error() -> FrameErrorView {
    FrameErrorView::ProtocolError("invalid frame format"@)
}

/// Whether `e` is the error for bytes that are no frame.
pub open spec fn is_malformed(e: FrameError) -> bool {
    e@ == malformed_error()
}

fn malformed() -> (e: FrameError)
    ensures
        is_malformed(e),
{
    FrameError::ProtocolError("invalid frame format".to_string())
}

/// Moves the cursor over `n` bytes, if that many remain.
pub fn skip(src: &mut Cursor, n: usize) -> (r: Result<(), FrameError>)
    ensures
        final(src).bytes() == old(src).bytes(),
        old(src).index() + n <= old(src).bytes().len() ==> r is Ok && final(src).index() == old(
            src).index() + n,
        old(src).index() + n > old(src).bytes().len() ==> r == Err::<(), FrameError>(
            FrameError::IncompleteError,
        ) && final(src).index() == old(src).index(),
{
    proof {
        use_type_invariant(&*src);
    }
    if src.data.len() - src.position < n {
        return Err(FrameError::IncompleteError);
    }
    src.position = src.position + n;
    Ok(())
}

/// Takes the byte at the cursor, if there is one.
pub fn get_u8(src: &mut Cursor) -> (r: Result<u8, FrameError>)
    ensures
        final(src).bytes() == old(src).bytes(),
        old(src).index() < old(src).bytes().len() ==> r == Ok::<u8, FrameError>(
            old(src).bytes()[old(src).index() as int],
        ) && final(src).index() == old(src).index() + 1,
        old(src).index() >= old(src).bytes().len() ==> r == Err::<u8, FrameError>(
            FrameError::IncompleteError,
        ) && final(src).index() == old(src).index(),
{
    if src.remaining() == 0 {
        return Err(FrameError::IncompleteError);
    }
    let b = src.data[src.position];
    src.position = src.position + 1;
    Ok(b)
}

/// Takes the line at the cursor, without its terminator, and moves the
/// cursor behind the terminator. Without a terminator in the buffer the
/// line is incomplete and the cursor stays.
pub fn get_line<'a>(src: &mut Cursor<'a>) -> (r: Result<&'a [u8], FrameError>)
    ensures
        final(src).bytes() == old(src).bytes(),
        match find_crlf(old(src).bytes(), old(src).index()) {
            Some(at) => r is Ok && r.unwrap()@ == old(src).bytes().subrange(
                old(src).index() as int,
                at as int,
            ) && final(src).index() == at + 2,
            None => r == Err::<&[u8], FrameError>(FrameError::IncompleteError) && final(
                src).index() == old(src).index(),
        },
{
    let start = src.position;
    let data = src.data;
    if data.len() < 2 || start > data.len() - 2 {
        return Err(FrameError::IncompleteError);
    }
    let mut i = start;
    while i < data.len() - 1
        invariant
            *src == *old(src),
            data == src.data,
            start == src.position,
            start <= i,
            i + 1 <= data@.len(),
            find_crlf(data@, start as nat) == find_crlf(data@, i as nat),
        decreases data@.len() - i,
    {
        if data[i] == CR && data[i + 1] == LF {
            src.position = i + 2;
            return Ok(slice_subrange(data, start, i));
        }
        i += 1;
    }
    Err(FrameError::IncompleteError)
}

/// Takes the line at the cursor and reads it as a number. Without a
/// terminator in the buffer the line is incomplete; a line that is not a
/// non-empty string of digits with a value below 2^64 is no number. The
/// cursor moves only when a number comes back.
pub fn get_decimal(src: &mut Cursor) -> (r: Result<u64, FrameError>)
    ensures
        final(src).bytes() == old(src).bytes(),
        match decode_number(old(src).bytes(), old(src).index()) {
            DecodedNumber::Number { value, next } => r == Ok::<u64, FrameError>(value) && final(
                src).index() == next,
            DecodedNumber::Incomplete => r == Err::<u64, FrameError>(FrameError::IncompleteError)
                && final(src).index() == old(src).index(),
            DecodedNumber::Malformed => r is Err && is_malformed(r.unwrap_err()) && final(
                src).index() == old(src).index(),
        },
{
    let start = src.position;
    let line = get_line(src)?;
    match read_decimal(line) {
        Some(n) => Ok(n),
        None => {
            src.position = start;
            Err(malformed())
        },
    }
}

impl Frame {
    /// Decodes one frame at the cursor.
    ///
    /// With a whole frame in the buffer, returns it and moves the cursor
    /// behind it. Fails as incomplete where the buffer ends before the frame
    /// does, and with a protocol error where the bytes are no frame; on
    /// either failure the cursor stays where it was, so that the caller can
    /// try again once more bytes have arrived.
    ///
    /// Arrays nest without a bound, and the decoder descends as deep as
    /// they do: a caller that reads from strangers has to bound what it
    /// buffers.
    #[verifier::loop_isolation(false)]
    pub fn parse(src: &mut Cursor) -> (r: Result<Frame, FrameError>)
        ensures
            final(src).bytes() == old(src).bytes(),
            match decode(old(src).bytes(), old(src).index()) {
                Decoded::Frame { frame, end } => r is Ok && r.unwrap()@ == frame && final(
                    src).index() == end,
                Decoded::Incomplete => r == Err::<Frame, FrameError>(FrameError::IncompleteError)
                    && final(src).index() == old(src).index(),
                Decoded::Malformed => r is Err && is_malformed(r.unwrap_err()) && final(
                    src).index() == old(src).index(),
            },
        decreases old(src).bytes().len() - old(src).index(),
    {
        proof {
            use_type_invariant(&*src);
        }
        let start = src.position;
        let tag = get_u8(src)?;
        if tag == TAG_BULK {
            let len = match get_decimal(src) {
                Ok(len) => len,
                Err(e) => {
                    src.position = start;
                    return Err(e);
                },
            };
            proof {
                lemma_find_crlf(src.data@, start as nat + 1);
            }
            let at = src.position;
            let remaining = src.remaining();
            if len > remaining as u64 || remaining as u64 - len < 2 {
                src.position = start;
                return Err(FrameError::IncompleteError);
            }
            let len = len as usize;
            let chunk = slice_subrange(src.data, at, src.data.len());
            if chunk[len] != CR || chunk[len + 1] != LF {
                src.position = start;
                return Err(malformed());
            }
            let data = slice_to_vec(slice_subrange(chunk, 0, len));
            skip(src, len + 2)?;
            proof {
                assert(data@ =~= src.data@.subrange(at as int, at + len));
            }
            Ok(Frame::Bulk(data))
        } else if tag == TAG_ARRAY {
            let count = match get_decimal(src) {
                Ok(count) => count,
                Err(e) => {
                    src.position = start;
                    return Err(e);
                },
            };
            proof {
                lemma_find_crlf(src.data@, start as nat + 1);
            }
            let ghost first = src.index();
            let mut out: Vec<Frame> = Vec::new();
            let mut i: u64 = 0;
            while i < count
                invariant
                    src.data == old(src).data,
                    start == old(src).position,
                    start < first <= src.position <= src.data@.len(),
                    i <= count,
                    decode_items(src.data@, first, i as nat) == (DecodedItems::Items {
                        items: views(out@),
                        end: src.position as nat,
                    }),
                decreases count - i,
            {
                let ghost before = src.index();
                match Frame::parse(src) {
                    Ok(frame) => {
                        proof {
                            lemma_decode_bounds(src.data@, before, 0);
                            assert(out@.push(frame).drop_last() =~= out@);
                        }
                        out.push(frame);
                    },
                    Err(e) => {
                        proof {
                            lemma_decode_items_failed(
                                src.data@,
                                first,
                                (i + 1) as nat,
                                count as nat,
                            );
                        }
                        src.position = start;
                        return Err(e);
                    },
                }
                i += 1;
            }
            Ok(Frame::Array(out))
        } else {
            src.position = start;
            Err(malformed())
        }
    }
}

} // verus!
