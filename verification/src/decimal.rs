//! Decimal numbers on the wire: ASCII digits, most significant first.

use vstd::prelude::*;

verus! {

/// ASCII `0`.
pub const ZERO: u8 = 48;

/// ASCII `9`.
pub const NINE: u8 = 57;

/// Whether `b` is an ASCII digit.
pub open spec fn is_digit(b: u8) -> bool {
    ZERO <= b <= NINE
}

/// Whether every byte of `s` is an ASCII digit.
pub open spec fn all_digits(s: Seq<u8>) -> bool {
    forall|i: int| 0 <= i < s.len() ==> is_digit(#[trigger] s[i])
}

/// The ASCII digit that stands for `d`, for `d < 10`.
pub open spec fn digit(d: nat) -> u8 {
    (ZERO + d) as u8
}

/// The decimal form of `n`: its digits, most significant first, with no
/// leading zero except in `0` itself.
pub open spec fn decimal(n: nat) -> Seq<u8>
    decreases n,
{
    if n < 10 {
        seq![digit(n)]
    } else {
        decimal(n / 10).push(digit(n % 10))
    }
}

/// The number that a string of digits denotes; leading zeros count for
/// nothing, and the empty string denotes zero.
pub open spec fn decimal_value(s: Seq<u8>) -> nat
    decreases s.len(),
{
    if s.len() == 0 {
        0
    } else {
        decimal_value(s.drop_last()) * 10 + (s.last() - ZERO) as nat
    }
}

/// What a length or count token denotes: a number when the token is a
/// non-empty string of digits whose value fits in 64 bits, nothing otherwise.
pub open spec fn parse_decimal(s: Seq<u8>) -> Option<u64> {
    if s.len() > 0 && all_digits(s) && decimal_value(s) <= u64::MAX {
        Some(decimal_value(s) as u64)
    } else {
        None
    }
}

/// The decimal form of a number is a non-empty string of digits that
/// denotes that number.
pub proof fn lemma_decimal_value(n: nat)
    ensures
        decimal(n).len() > 0,
        all_digits(decimal(n)),
        decimal_value(decimal(n)) == n,
    decreases n,
{
    if n < 10 {
        assert(decimal_value(decimal(n).drop_last()) == 0);
    } else {
        lemma_decimal_value(n / 10);
        assert(decimal(n).drop_last() =~= decimal(n / 10));
    }
}

/// A number that fits in 64 bits is read back from its decimal form.
pub proof fn lemma_parse_decimal(n: u64)
    ensures
        parse_decimal(decimal(n as nat)) == Some(n),
{
    lemma_decimal_value(n as nat);
}

/// Whether `s` is a non-empty string of digits.
pub fn is_number(s: &[u8]) -> (r: bool)
    ensures
        r == (s@.len() > 0 && all_digits(s@)),
{
    if s.len() == 0 {
        return false;
    }
    let mut i: usize = 0;
    while i < s.len()
        invariant
            i <= s@.len(),
            forall|k: int| 0 <= k < i ==> is_digit(#[trigger] s@[k]),
        decreases s@.len() - i,
    {
        if s[i] < ZERO || s[i] > NINE {
            return false;
        }
        i += 1;
    }
    true
}

/// Reads a string of digits as a 64-bit number with `atoi::atoi`.
///
/// Trusted: on a non-empty slice that holds only ASCII digits, `atoi`
/// consumes every byte, takes no sign, and returns the value the digits
/// denote, or `None` when that value does not fit in a `u64`.
#[verifier::external_body]
fn atoi_digits(s: &[u8]) -> (r: Option<u64>)
    requires
        s@.len() > 0,
        all_digits(s@),
    ensures
        r == parse_decimal(s@),
{
    atoi::atoi::<u64>(s)
}

/// Reads a length or count token.
pub fn read_decimal(s: &[u8]) -> (r: Option<u64>)
    ensures
        r == parse_decimal(s@),
{
    if is_number(s) {
        atoi_digits(s)
    } else {
        None
    }
}

/// Appends the decimal form of `val` to `dst`.
pub fn push_decimal(dst: &mut Vec<u8>, val: u64)
    ensures
        final(dst)@ == old(dst)@ + decimal(val as nat),
{
    let mut low: Vec<u8> = Vec::new();
    let mut rest: u64 = val / 10;
    low.push(ZERO + (val % 10) as u8);
    let ghost mut tail: Seq<u8> = seq![digit((val % 10) as nat)];
    while rest > 0
        invariant
            low@.len() == tail.len(),
            forall|k: int| 0 <= k < tail.len() ==> #[trigger] tail[k] == low@[tail.len() - 1 - k],
            decimal(val as nat) == (if rest == 0 {
                Seq::<u8>::empty()
            } else {
                decimal(rest as nat)
            }) + tail,
        decreases rest,
    {
        let d: u8 = (rest % 10) as u8;
        low.push(ZERO + d);
        proof {
            tail = seq![digit(d as nat)] + tail;
        }
        rest = rest / 10;
    }
    let mut i: usize = low.len();
    while i > 0
        invariant
            i <= low@.len(),
            low@.len() == tail.len(),
            forall|k: int| 0 <= k < tail.len() ==> #[trigger] tail[k] == low@[tail.len() - 1 - k],
            dst@ == old(dst)@ + tail.subrange(0, tail.len() - i),
        decreases i,
    {
        i -= 1;
        dst.push(low[i]);
    }
}

} // verus!
