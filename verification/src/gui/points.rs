//! How a font size reads: as a whole number of points.
//!
//! A size is kept as the bits of an IEEE 754 single: a sign bit, eight bits of exponent
//! and 23 bits of fraction. A finite single stands for `significand * 2^(exponent - 150)`.

use vstd::arithmetic::power2::*;
use vstd::prelude::*;
use vstd::string::*;

use crate::config::schema::FontSize;
use crate::text::{decimal, hex_digit};

verus! {

pub open spec fn is_negative(bits: u32) -> bool {
    bits >= 0x8000_0000
}

/// The exponent, as the bits hold it.
pub open spec fn exponent_of(bits: u32) -> nat {
    (bits / 0x80_0000 % 256) as nat
}

pub open spec fn fraction_of(bits: u32) -> nat {
    (bits % 0x80_0000) as nat
}

/// `m / d` as a whole number: the nearest one, and the even one of two that are.
pub open spec fn nearest_even(m: nat, d: nat) -> nat {
    let whole = m / d;
    let rest = m % d;
    if 2 * rest > d || (2 * rest == d && whole % 2 == 1) {
        whole + 1
    } else {
        whole
    }
}

/// The magnitude of a finite single, as a whole number. Below the exponent 1 there is no
/// leading bit before the fraction.
pub open spec fn whole_points(bits: u32) -> nat {
    let exponent = exponent_of(bits);
    if exponent >= 150 {
        (fraction_of(bits) + 0x80_0000) * pow2((exponent - 150) as nat)
    } else if exponent >= 1 {
        nearest_even(fraction_of(bits) + 0x80_0000, pow2((150 - exponent) as nat))
    } else {
        nearest_even(fraction_of(bits), pow2(149))
    }
}

/// How a size reads, rounded to whole points.
pub open spec fn points_text(size: FontSize) -> Seq<char> {
    let sign = if is_negative(size.bits) {
        seq!['-']
    } else {
        Seq::empty()
    };
    if exponent_of(size.bits) < 255 {
        sign + decimal(whole_points(size.bits))
    } else if fraction_of(size.bits) == 0 {
        sign + "inf"@
    } else {
        "NaN"@
    }
}

/// Sizes of whole points below 2^23 read as that number of points.
pub proof fn law_whole_points_read_exactly(bits: u32, points: nat)
    requires
        127 <= exponent_of(bits) < 150,
        fraction_of(bits) + 0x80_0000 == points * pow2((150 - exponent_of(bits)) as nat),
        !is_negative(bits),
    ensures
        points_text((FontSize { bits })) == decimal(points),
{
    let d = pow2((150 - exponent_of(bits)) as nat);
    lemma_pow2_pos((150 - exponent_of(bits)) as nat);
    vstd::arithmetic::div_mod::lemma_fundamental_div_mod_converse(
        (points * d) as int,
        d as int,
        points as int,
        0,
    );
    assert(points_text((FontSize { bits })) =~= decimal(points));
}

/// Where the divisor is more than twice the dividend, nothing is left.
proof fn lemma_vanishes(m: nat, k: nat)
    requires
        m < 0x100_0000,
        k > 25,
    ensures
        nearest_even(m, pow2(k)) == 0,
{
    lemma2_to64();
    lemma_pow2_strictly_increases(25, k);
    let d = pow2(k);
    vstd::arithmetic::div_mod::lemma_fundamental_div_mod_converse(m as int, d as int, 0, m as int);
}

/// The magnitude of a finite single, as a whole number.
fn whole_points_of(bits: u32) -> (r: u128)
    requires
        exponent_of(bits) < 255,
    ensures
        r == whole_points(bits),
{
    let exponent: u32 = bits / 0x80_0000 % 256;
    let fraction: u32 = bits % 0x80_0000;
    if exponent >= 150 {
        let ghost m = fraction_of(bits) + 0x80_0000;
        let mut n: u128 = (fraction + 0x80_0000) as u128;
        let mut at: u32 = 150;
        proof {
            lemma2_to64();
            assert(m * 1 == m);
        }
        while at < exponent
            invariant
                150 <= at <= exponent < 255,
                m < 0x100_0000,
                n == m * pow2((at - 150) as nat),
            decreases exponent - at,
        {
            proof {
                let k = (at - 150) as nat;
                lemma_pow2_unfold(k + 1);
                assert(m * pow2(k) * 2 == m * pow2(k + 1)) by (nonlinear_arith)
                    requires
                        pow2(k + 1) == 2 * pow2(k),
                ;
                lemma2_to64();
                lemma2_to64_rest();
                lemma_pow2_adds(64, 40);
                if k + 1 < 104 {
                    lemma_pow2_strictly_increases(k + 1, 104);
                }
                assert(m * pow2(k + 1) <= 0xFF_FFFF * pow2(104)) by (nonlinear_arith)
                    requires
                        m <= 0xFF_FFFF,
                        pow2(k + 1) <= pow2(104),
                ;
            }
            n = n * 2;
            at = at + 1;
        }
        return n;
    }
    if exponent < 125 {
        proof {
            if exponent >= 1 {
                lemma_vanishes(fraction_of(bits) + 0x80_0000, (150 - exponent) as nat);
            } else {
                lemma_vanishes(fraction_of(bits), 149);
            }
        }
        return 0;
    }
    let m: u32 = fraction + 0x80_0000;
    let mut d: u32 = 1;
    let mut at: u32 = 150;
    proof {
        lemma2_to64();
    }
    while at > exponent
        invariant
            125 <= exponent <= at <= 150,
            d == pow2((150 - at) as nat),
        decreases at,
    {
        proof {
            let k = (150 - at) as nat;
            lemma_pow2_unfold(k + 1);
            lemma2_to64();
            if k < 24 {
                lemma_pow2_strictly_increases(k, 24);
            }
        }
        d = d * 2;
        at = at - 1;
    }
    proof {
        lemma_pow2_pos((150 - exponent) as nat);
        lemma2_to64();
        if exponent > 125 {
            lemma_pow2_strictly_increases((150 - exponent) as nat, 25);
        }
    }
    let whole: u32 = m / d;
    let rest: u32 = m % d;
    if 2 * rest > d || (2 * rest == d && whole % 2 == 1) {
        (whole + 1) as u128
    } else {
        whole as u128
    }
}

/// Appends the decimal digits of `n`.
fn push_digits(out: &mut String, n: u128)
    ensures
        final(out)@ == old(out)@ + decimal(n as nat),
    decreases n,
{
    if n >= 10 {
        push_digits(out, n / 10);
    } else {
        assert(old(out)@ + Seq::<char>::empty() =~= old(out)@);
    }
    out.push(hex_digit((n % 10) as u8));
    assert(out@ =~= old(out)@ + decimal(n as nat));
}

/// How a size reads, rounded to whole points.
pub fn size_text(size: FontSize) -> (r: String)
    ensures
        r@ == points_text(size),
{
    let exponent: u32 = size.bits / 0x80_0000 % 256;
    if exponent == 255 && size.bits % 0x80_0000 != 0 {
        return "NaN".to_owned();
    }
    let mut out: String = String::new();
    if size.bits >= 0x8000_0000 {
        out.push('-');
    }
    if exponent < 255 {
        push_digits(&mut out, whole_points_of(size.bits));
    } else {
        out.append("inf");
    }
    assert(out@ =~= points_text(size));
    out
}

} // verus!
