//! What holds between encoding and decoding.

use crate::decimal::{all_digits, decimal, lemma_decimal_value, lemma_parse_decimal, parse_decimal};
use crate::frame::{
    crlf, decode, decode_items, encode, encode_all, find_crlf, lemma_decode_bounds,
    lemma_find_crlf, Decoded, DecodedItems, FrameView, CR, LF, TAG_ARRAY, TAG_BULK,
};
use vstd::prelude::*;

verus! {

/// The frames that decoding yields: bulk strings, and arrays of such
/// frames, of a length that can be written in 64 bits.
pub open spec fn decodable(f: FrameView) -> bool
    decreases f,
{
    match f {
        FrameView::Bulk(b) => b.len() <= u64::MAX,
        FrameView::Array(items) => items.len() <= u64::MAX && forall|i: int|
            0 <= i < items.len() ==> decodable(#[trigger] items[i]),
        _ => false,
    }
}

/// Whether `src` holds the bytes `e` from `pos` on, as far as `src` goes.
pub open spec fn agrees(src: Seq<u8>, pos: nat, e: Seq<u8>) -> bool {
    forall|j: int| 0 <= j < e.len() && pos + j < src.len() ==> src[pos + j] == #[trigger] e[j]
}

proof fn lemma_agrees_split(src: Seq<u8>, pos: nat, a: Seq<u8>, b: Seq<u8>)
    requires
        agrees(src, pos, a + b),
    ensures
        agrees(src, pos, a),
        agrees(src, pos + a.len(), b),
{
    assert forall|j: int| 0 <= j < a.len() && pos + j < src.len() implies src[pos + j]
        == #[trigger] a[j] by {
        assert((a + b)[j] == a[j]);
    }
    assert forall|j: int| 0 <= j < b.len() && pos + a.len() + j < src.len() implies src[pos
        + a.len() + j] == #[trigger] b[j] by {
        assert((a + b)[a.len() + j] == b[j]);
    }
}

/// A line of digits: where `src` holds the digits and a terminator at
/// `pos`, the first terminator from `pos` on is the one behind the digits.
proof fn lemma_line(src: Seq<u8>, pos: nat, digits: Seq<u8>)
    requires
        all_digits(digits),
        agrees(src, pos, digits + crlf()),
        pos + digits.len() + 2 <= src.len(),
    ensures
        find_crlf(src, pos) == Some(pos + digits.len()),
        src.subrange(pos as int, pos as int + digits.len()) == digits,
{
    let line = digits + crlf();
    let d = digits.len() as int;
    lemma_find_crlf(src, pos);
    assert forall|i: int| pos <= i < pos + d implies src[i] != CR by {
        assert(line[i - pos] == digits[i - pos]);
        assert(src[pos + (i - pos)] == line[i - pos]);
    }
    assert(line[d] == CR && line[d + 1] == LF);
    assert forall|j: int| 0 <= j < d implies src.subrange(pos as int, pos + d)[j] == digits[j] by {
        assert(line[j] == digits[j]);
        assert(src[pos + j] == line[j]);
    }
}

/// Decoding what was encoded. Where `src` holds the encoding of a
/// decodable frame at `pos`, decoding there yields the frame and ends
/// behind the encoding.
pub proof fn lemma_decode_encoded(src: Seq<u8>, pos: nat, f: FrameView)
    requires
        decodable(f),
        agrees(src, pos, encode(f)),
        pos + encode(f).len() <= src.len(),
    ensures
        decode(src, pos) == (Decoded::Frame { frame: f, end: pos + encode(f).len() }),
    decreases f,
{
    match f {
        FrameView::Bulk(b) => {
            let n = b.len();
            let digits = decimal(n);
            let d = digits.len();
            let tag = seq![TAG_BULK];
            lemma_decimal_value(n);
            lemma_parse_decimal(n as u64);
            assert(encode(f) =~= tag + ((digits + crlf()) + (b + crlf())));
            lemma_agrees_split(src, pos, tag, (digits + crlf()) + (b + crlf()));
            lemma_agrees_split(src, pos + 1, digits + crlf(), b + crlf());
            lemma_agrees_split(src, pos + 1 + d + 2, b, crlf());
            lemma_line(src, pos + 1, digits);
            assert(src[pos as int + 0] == tag[0]);
            let start = pos as int + 1 + d + 2;
            assert(src.subrange(start, start + n) =~= b);
        },
        FrameView::Array(items) => {
            let n = items.len();
            let digits = decimal(n);
            let d = digits.len();
            let tag = seq![TAG_ARRAY];
            lemma_decimal_value(n);
            lemma_parse_decimal(n as u64);
            assert(encode(f) =~= tag + ((digits + crlf()) + encode_all(items)));
            lemma_agrees_split(src, pos, tag, (digits + crlf()) + encode_all(items));
            lemma_agrees_split(src, pos + 1, digits + crlf(), encode_all(items));
            lemma_line(src, pos + 1, digits);
            assert(src[pos as int + 0] == tag[0]);
            lemma_decode_all_encoded(src, pos + 1 + d + 2, items);
        },
        _ => {},
    }
}

/// Decoding a run of encoded frames: as `lemma_decode_encoded`, for one
/// frame after the other.
pub proof fn lemma_decode_all_encoded(src: Seq<u8>, pos: nat, items: Seq<FrameView>)
    requires
        forall|i: int| 0 <= i < items.len() ==> decodable(#[trigger] items[i]),
        agrees(src, pos, encode_all(items)),
        pos + encode_all(items).len() <= src.len(),
    ensures
        decode_items(src, pos, items.len()) == (DecodedItems::Items {
            items,
            end: pos + encode_all(items).len(),
        }),
    decreases items,
{
    if items.len() == 0 {
        assert(items =~= Seq::<FrameView>::empty());
    } else {
        let init = items.drop_last();
        let last = items.last();
        let size = encode_all(init).len();
        lemma_agrees_split(src, pos, encode_all(init), encode(last));
        lemma_decode_all_encoded(src, pos, init);
        lemma_decode_encoded(src, pos + size, last);
        assert(init.push(last) =~= items);
    }
}

/// Decoding a beginning of a buffer. Where decoding `src` at `pos` yields
/// a frame, decoding the first `len` bytes of `src` yields the same, once
/// they reach to the end of the frame, and is incomplete before. The same
/// holds of a run of frames.
pub proof fn lemma_decode_take(src: Seq<u8>, pos: nat, count: nat, len: nat)
    requires
        pos <= len <= src.len(),
    ensures
        decode(src, pos) matches Decoded::Frame { end, .. } ==> decode(src.take(len as int), pos)
            == (if end <= len {
            decode(src, pos)
        } else {
            Decoded::Incomplete
        }),
        decode_items(src, pos, count) matches DecodedItems::Items { end, .. } ==> decode_items(
            src.take(len as int),
            pos,
            count,
        ) == (if end <= len {
            decode_items(src, pos, count)
        } else {
            DecodedItems::Incomplete
        }),
    decreases src.len() - pos, count,
{
    let cut = src.take(len as int);
    lemma_decode_bounds(src, pos, count);
    if decode(src, pos) is Frame && pos < len {
        let at = find_crlf(src, pos + 1)->0;
        lemma_find_crlf(src, pos + 1);
        lemma_find_crlf(cut, pos + 1);
        if at + 2 <= len {
            assert(find_crlf(cut, pos + 1) == Some(at)) by {
                assert(cut[at as int] == src[at as int]);
                assert(cut[at as int + 1] == src[at as int + 1]);
                if let Some(x) = find_crlf(cut, pos + 1) {
                    assert(cut[x as int] == src[x as int]);
                    assert(cut[x as int + 1] == src[x as int + 1]);
                }
            }
            assert(cut.subrange(pos as int + 1, at as int) =~= src.subrange(
                pos as int + 1,
                at as int,
            ));
            let n = parse_decimal(src.subrange(pos as int + 1, at as int))->0;
            if src[pos as int] == TAG_BULK {
                let start = at as int + 2;
                if start + n + 2 <= len {
                    assert(cut.subrange(start, start + n) =~= src.subrange(start, start + n));
                }
            } else {
                lemma_decode_take(src, at + 2, n as nat, len);
            }
        } else if src[pos as int] == TAG_ARRAY {
            let n = parse_decimal(src.subrange(pos as int + 1, at as int))->0;
            lemma_decode_bounds(src, at + 2, n as nat);
        }
    }
    if count > 0 {
        if let DecodedItems::Items { end, .. } = decode_items(src, pos, (count - 1) as nat) {
            lemma_decode_bounds(src, pos, (count - 1) as nat);
            lemma_decode_bounds(src, end, 0);
            lemma_decode_take(src, pos, (count - 1) as nat, len);
            if end <= len {
                lemma_decode_take(src, end, 0, len);
            }
        }
    }
}

/// Decoding a longer buffer. Where decoding the first `len` bytes of
/// `src` at `pos` yields a frame, decoding `src` yields the same: bytes
/// behind a frame do not change what decoding yields. The same holds of a
/// run of frames.
pub proof fn lemma_decode_more(src: Seq<u8>, pos: nat, count: nat, len: nat)
    requires
        pos <= len <= src.len(),
    ensures
        decode(src.take(len as int), pos) is Frame ==> decode(src, pos) == decode(
            src.take(len as int),
            pos,
        ),
        decode_items(src.take(len as int), pos, count) is Items ==> decode_items(src, pos, count)
            == decode_items(src.take(len as int), pos, count),
    decreases len - pos, count,
{
    let cut = src.take(len as int);
    if let Decoded::Frame { frame, end } = decode(cut, pos) {
        let at = find_crlf(cut, pos + 1)->0;
        lemma_find_crlf(src, pos + 1);
        lemma_find_crlf(cut, pos + 1);
        assert(find_crlf(src, pos + 1) == Some(at)) by {
            assert(cut[at as int] == src[at as int]);
            assert(cut[at as int + 1] == src[at as int + 1]);
            if let Some(x) = find_crlf(src, pos + 1) {
                if x < at {
                    assert(cut[x as int] == src[x as int]);
                    assert(cut[x as int + 1] == src[x as int + 1]);
                }
            }
        }
        assert(cut.subrange(pos as int + 1, at as int) =~= src.subrange(pos as int + 1, at as int));
        let n = parse_decimal(src.subrange(pos as int + 1, at as int))->0;
        if src[pos as int] == TAG_BULK {
            let start = at as int + 2;
            assert(cut.subrange(start, start + n) =~= src.subrange(start, start + n));
        } else {
            lemma_decode_more(src, at + 2, n as nat, len);
        }
    }
    if count > 0 {
        if let DecodedItems::Items { end, .. } = decode_items(cut, pos, (count - 1) as nat) {
            lemma_decode_more(src, pos, (count - 1) as nat, len);
            if pos <= end <= len {
                lemma_decode_more(src, end, 0, len);
            }
        }
    }
}

/// Round trip: a decodable frame, encoded and then decoded, is the frame
/// again, and decoding consumes exactly its encoding.
pub proof fn lemma_round_trip(f: FrameView)
    requires
        decodable(f),
    ensures
        decode(encode(f), 0) == (Decoded::Frame { frame: f, end: encode(f).len() }),
{
    lemma_decode_encoded(encode(f), 0, f);
}

/// Decoding a strict, non-empty prefix of bytes that decode to a frame is
/// incomplete: never a frame, never an error.
pub proof fn lemma_prefix_incomplete(src: Seq<u8>, len: nat)
    requires
        decode(src, 0) matches Decoded::Frame { end, .. } && 0 < len < end,
    ensures
        decode(src.take(len as int), 0) == Decoded::Incomplete,
{
    lemma_decode_bounds(src, 0, 0);
    lemma_decode_take(src, 0, 0, len);
}

/// Bytes that follow a frame do not change what decoding yields.
pub proof fn lemma_rest_ignored(src: Seq<u8>, rest: Seq<u8>)
    requires
        decode(src, 0) is Frame,
    ensures
        decode(src + rest, 0) == decode(src, 0),
{
    assert((src + rest).take(src.len() as int) =~= src);
    lemma_decode_more(src + rest, 0, 0, src.len());
}

/// Decoding a strict, non-empty prefix of the encoding of a decodable frame
/// is incomplete.
pub proof fn lemma_encoded_prefix_incomplete(f: FrameView, len: nat)
    requires
        decodable(f),
        0 < len < encode(f).len(),
    ensures
        decode(encode(f).take(len as int), 0) == Decoded::Incomplete,
{
    lemma_round_trip(f);
    lemma_prefix_incomplete(encode(f), len);
}

} // verus!
