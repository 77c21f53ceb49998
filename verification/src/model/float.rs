//! Floating-point numbers kept by their bits, and when two of them are equal.

use vstd::prelude::*;

verus! {

/// The bits of an IEEE 754 single that is no number.
pub open spec fn single_is_nan(bits: u32) -> bool {
    bits % 0x8000_0000 > 0x7F80_0000
}

/// Two IEEE 754 singles are equal. What is no number equals nothing, and both zeros are
/// equal.
pub open spec fn same_single(a: u32, b: u32) -> bool {
    &&& !single_is_nan(a)
    &&& a == b || (a % 0x8000_0000 == 0 && b % 0x8000_0000 == 0)
}

/// The bits of an IEEE 754 double that is no number.
pub open spec fn double_is_nan(bits: u64) -> bool {
    bits % 0x8000_0000_0000_0000 > 0x7FF0_0000_0000_0000
}

/// Two IEEE 754 doubles are equal. What is no number equals nothing, and both zeros are
/// equal.
pub open spec fn same_double(a: u64, b: u64) -> bool {
    &&& !double_is_nan(a)
    &&& a == b || (a % 0x8000_0000_0000_0000 == 0 && b % 0x8000_0000_0000_0000 == 0)
}

/// Whether two singles are equal.
pub fn singles_equal(a: u32, b: u32) -> (r: bool)
    ensures
        r == same_single(a, b),
{
    a % 0x8000_0000 <= 0x7F80_0000 && (a == b || (a % 0x8000_0000 == 0 && b % 0x8000_0000 == 0))
}

/// Whether two doubles are equal.
pub fn doubles_equal(a: u64, b: u64) -> (r: bool)
    ensures
        r == same_double(a, b),
{
    a % 0x8000_0000_0000_0000 <= 0x7FF0_0000_0000_0000 && (a == b || (a % 0x8000_0000_0000_0000
        == 0 && b % 0x8000_0000_0000_0000 == 0))
}

} // verus!
