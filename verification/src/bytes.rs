//! Byte encodings.

use vstd::prelude::*;
use vstd::string::is_ascii_spec_bytes;

verus! {

/// A number as some bytes, the least significant first.
pub open spec fn le_bytes(value: nat, width: nat) -> Seq<u8>
    decreases width,
{
    if width == 0 {
        Seq::empty()
    } else {
        seq![(value % 256) as u8] + le_bytes(value / 256, (width - 1) as nat)
    }
}

/// 256 to a power.
pub open spec fn bytes_range(width: nat) -> nat
    decreases width,
{
    if width == 0 {
        1
    } else {
        256 * bytes_range((width - 1) as nat)
    }
}

/// The bytes of an ASCII text.
pub open spec fn ascii_bytes(text: Seq<char>) -> Seq<u8> {
    Seq::new(text.len(), |i: int| text[i] as u8)
}

pub proof fn le_bytes_length(value: nat, width: nat)
    ensures
        le_bytes(value, width).len() == width,
    decreases width,
{
    if width > 0 {
        le_bytes_length(value / 256, (width - 1) as nat);
    }
}

/// Numbers that fit are told apart by their bytes.
pub proof fn le_bytes_are_injective(a: nat, b: nat, width: nat)
    requires
        le_bytes(a, width) == le_bytes(b, width),
        a < bytes_range(width),
        b < bytes_range(width),
    ensures
        a == b,
    decreases width,
{
    if width > 0 {
        let rest = (width - 1) as nat;
        let x = le_bytes(a, width);
        let y = le_bytes(b, width);
        le_bytes_length(a / 256, rest);
        le_bytes_length(b / 256, rest);
        assert(x[0] == (a % 256) as u8);
        assert(y[0] == (b % 256) as u8);
        assert(le_bytes(a / 256, rest) =~= x.subrange(1, width as int));
        assert(le_bytes(b / 256, rest) =~= y.subrange(1, width as int));
        le_bytes_are_injective(a / 256, b / 256, rest);
    }
}

/// Appends a number's low bytes, the least significant first.
pub fn push_le(out: &mut Vec<u8>, value: u128, width: usize)
    ensures
        final(out)@ == old(out)@ + le_bytes(value as nat, width as nat),
{
    let mut rest: u128 = value;
    let mut left: usize = width;
    assert(out@ + le_bytes(rest as nat, left as nat) =~= old(out)@ + le_bytes(
        value as nat,
        width as nat,
    ));
    while left > 0
        invariant
            out@ + le_bytes(rest as nat, left as nat) == old(out)@ + le_bytes(
                value as nat,
                width as nat,
            ),
        decreases left,
    {
        let ghost before = out@;
        out.push((rest % 256) as u8);
        proof {
            assert(before + le_bytes(rest as nat, left as nat) =~= out@ + le_bytes(
                (rest / 256) as nat,
                (left - 1) as nat,
            ));
        }
        rest = rest / 256;
        left = left - 1;
    }
    assert(out@ + le_bytes(rest as nat, 0) =~= out@);
}

/// Appends some bytes.
pub fn push_bytes(out: &mut Vec<u8>, bytes: &[u8])
    ensures
        final(out)@ == old(out)@ + bytes@,
{
    let mut at: usize = 0;
    assert(out@ =~= old(out)@ + bytes@.subrange(0, 0));
    while at < bytes.len()
        invariant
            at <= bytes@.len(),
            out@ == old(out)@ + bytes@.subrange(0, at as int),
        decreases bytes@.len() - at,
    {
        out.push(bytes[at]);
        at = at + 1;
        assert(out@ =~= old(out)@ + bytes@.subrange(0, at as int));
    }
    assert(bytes@.subrange(0, at as int) =~= bytes@);
}

/// Appends the bytes of an ASCII text.
pub fn push_ascii(out: &mut Vec<u8>, text: &str)
    requires
        text.is_ascii(),
    ensures
        final(out)@ == old(out)@ + ascii_bytes(text@),
{
    proof {
        is_ascii_spec_bytes(text);
    }
    let bytes = text.as_bytes();
    assert(bytes@ =~= ascii_bytes(text@));
    push_bytes(out, bytes);
}

/// The bytes of a number are its digits to the base of 256, the least significant first.
pub proof fn bytes_are_digits(value: nat, width: nat, i: int)
    requires
        0 <= i < width,
    ensures
        le_bytes(value, width).len() == width,
        le_bytes(value, width)[i] == (value / bytes_range(i as nat)) % 256,
        bytes_range(0) == 1,
        bytes_range((i + 1) as nat) == 256 * bytes_range(i as nat),
    decreases width,
{
    le_bytes_length(value, width);
    le_bytes_length(value / 256, (width - 1) as nat);
    reveal_with_fuel(bytes_range, 2);
    if i > 0 {
        bytes_are_digits(value / 256, (width - 1) as nat, i - 1);
        let low = bytes_range((i - 1) as nat);
        assert(bytes_range(i as nat) == 256 * low);
        range_is_positive((i - 1) as nat);
        assert((value / 256) / low == value / (256 * low)) by (nonlinear_arith)
            requires
                low > 0,
        {
            vstd::arithmetic::div_mod::lemma_div_denominator(value as int, 256, low as int);
        }
    }
}

proof fn range_is_positive(width: nat)
    ensures
        bytes_range(width) > 0,
    decreases width,
{
    if width > 0 {
        range_is_positive((width - 1) as nat);
    }
}

} // verus!
