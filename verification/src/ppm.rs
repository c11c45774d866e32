//! The text of a plain pixmap: a header, then one line for each pixel.

use vstd::prelude::*;
use vstd::arithmetic::power2::{lemma2_to64_rest, lemma_pow2_adds, lemma_pow2_pos, pow2};
use crate::scalar::Scalar;

verus! {

/// The factor that takes a channel between zero and one to its value in the
/// image: just below 256, so that a channel of one still comes to 255 once
/// the fraction is dropped. The number is the binary64 nearest to 255.999: a
/// thousand times it misses 255999 by 168 units of 2^-45.
pub fn channel_scale() -> (r: Scalar)
    ensures
        r.bits == 0x406f_fff7_ced9_1687,
        1000 * r.value() == 255999 * pow2(1074) - 168 * pow2(1029),
        255 * pow2(1074) < r.value() < 256 * pow2(1074),
{
    let r = Scalar { bits: 0x406f_fff7_ced9_1687 };
    proof {
        assert(r.exponent() == 1030 && r.fraction() == 0xf_fff7_ced9_1687);
        let unit: int = pow2(1029) as int;
        lemma_pow2_pos(1029);
        lemma2_to64_rest();
        lemma_pow2_adds(45, 1029);
        assert(1000 * (0x1f_fff7_ced9_1687 * unit) == 255999 * (0x2000_0000_0000 * unit) - 168
            * unit) by (nonlinear_arith);
        assert(255 * (0x2000_0000_0000 * unit) < 0x1f_fff7_ced9_1687 * unit < 256 * (
        0x2000_0000_0000 * unit)) by (nonlinear_arith)
            requires
                unit > 0,
        ;
    }
    r
}

/// The digit `0`.
pub const ZERO: u8 = 48;

/// The minus sign.
pub const MINUS: u8 = 45;

/// The space between two numbers of a line.
pub const SPACE: u8 = 32;

/// The end of a line.
pub const NEWLINE: u8 = 10;

/// The largest value of a colour channel.
pub const MAX_CHANNEL: u32 = 255;

/// The decimal digits of `n`, the most significant first, without leading
/// zeros.
pub open spec fn digits(n: nat) -> Seq<u8>
    decreases n,
{
    if n < 10 {
        seq![(ZERO + n) as u8]
    } else {
        digits(n / 10).push((ZERO + n % 10) as u8)
    }
}

/// The number that a string of decimal digits spells.
pub open spec fn number(text: Seq<u8>) -> nat
    decreases text.len(),
{
    if text.len() == 0 {
        0
    } else {
        (number(text.drop_last()) * 10 + (text.last() - ZERO)) as nat
    }
}

/// The decimal text of an integer, with a minus sign where it is negative.
pub open spec fn decimal(i: int) -> Seq<u8> {
    if i < 0 {
        seq![MINUS] + digits((-i) as nat)
    } else {
        digits(i as nat)
    }
}

/// The header of an image: the magic number `P3`, the width and the height,
/// and the largest channel value, each on a line of its own.
pub open spec fn header_text(width: nat, height: nat) -> Seq<u8> {
    seq![80u8, 51u8, NEWLINE] + digits(width) + seq![SPACE] + digits(height) + seq![NEWLINE]
        + digits(MAX_CHANNEL as nat) + seq![NEWLINE]
}

/// The line of one pixel: its red, green and blue channel.
pub open spec fn pixel_text(r: int, g: int, b: int) -> Seq<u8> {
    decimal(r) + seq![SPACE] + decimal(g) + seq![SPACE] + decimal(b) + seq![NEWLINE]
}

/// The digits of a number are digits, the first of them is no zero unless
/// the number is zero, and they spell the number.
pub proof fn lemma_digits_spell(n: nat)
    ensures
        digits(n).len() >= 1,
        forall|k: int| 0 <= k < digits(n).len() ==> ZERO <= #[trigger] digits(n)[k] <= ZERO + 9,
        digits(n)[0] == ZERO <==> n == 0,
        number(digits(n)) == n,
    decreases n,
{
    if n < 10 {
        let text = digits(n);
        assert(text.drop_last().len() == 0);
        assert(number(text.drop_last()) == 0);
    } else {
        lemma_digits_spell(n / 10);
        let text = digits(n);
        assert(text.drop_last() =~= digits(n / 10));
        assert(text[0] == digits(n / 10)[0]);
    }
}

fn push_digits(out: &mut Vec<u8>, n: u64)
    ensures
        final(out)@ == old(out)@ + digits(n as nat),
    decreases n,
{
    if n >= 10 {
        push_digits(out, n / 10);
    }
    let digit: u64 = n % 10;
    out.push(ZERO + digit as u8);
    proof {
        assert(out@ =~= old(out)@ + digits(n as nat));
    }
}

fn push_decimal(out: &mut Vec<u8>, i: i32)
    ensures
        final(out)@ == old(out)@ + decimal(i as int),
{
    if i < 0 {
        out.push(MINUS);
        let magnitude: u64 = (-(i as i64)) as u64;
        push_digits(out, magnitude);
        proof {
            assert(out@ =~= old(out)@ + decimal(i as int));
        }
    } else {
        push_digits(out, i as u64);
    }
}

/// The header of an image of the given size.
pub fn header(width: u32, height: u32) -> (text: Vec<u8>)
    ensures
        text@ == header_text(width as nat, height as nat),
{
    let mut text: Vec<u8> = Vec::new();
    text.push(80u8);
    text.push(51u8);
    text.push(NEWLINE);
    push_digits(&mut text, width as u64);
    text.push(SPACE);
    push_digits(&mut text, height as u64);
    text.push(NEWLINE);
    push_digits(&mut text, MAX_CHANNEL as u64);
    text.push(NEWLINE);
    proof {
        assert(text@ =~= header_text(width as nat, height as nat));
    }
    text
}

/// The line of a pixel with the given channels.
pub fn pixel_line(r: i32, g: i32, b: i32) -> (text: Vec<u8>)
    ensures
        text@ == pixel_text(r as int, g as int, b as int),
{
    let mut text: Vec<u8> = Vec::new();
    push_decimal(&mut text, r);
    text.push(SPACE);
    push_decimal(&mut text, g);
    text.push(SPACE);
    push_decimal(&mut text, b);
    text.push(NEWLINE);
    proof {
        assert(text@ =~= pixel_text(r as int, g as int, b as int));
    }
    text
}

} // verus!
