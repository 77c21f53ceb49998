//! The NMEA checksum: the exclusive or of all bytes between the start delimiter and `*`.

use vstd::prelude::*;

verus! {

/// The exclusive or of all bytes.
pub open spec fn xor_of(bytes: Seq<u8>) -> u8
    decreases bytes.len(),
{
    if bytes.len() == 0 {
        0
    } else {
        xor_of(bytes.drop_last()) ^ bytes.last()
    }
}

/// The value of a hexadecimal digit in either case.
pub open spec fn digit_value(b: u8) -> Option<int> {
    if 48 <= b <= 57 {
        Some(b - 48)
    } else if 65 <= b <= 70 {
        Some(b - 55)
    } else if 97 <= b <= 102 {
        Some(b - 87)
    } else {
        None
    }
}

/// The value of a checksum field: `*` and two hexadecimal digits, and nothing else.
pub open spec fn declared(suffix: Seq<u8>) -> Option<u8> {
    if suffix.len() == 3 && suffix[0] == 42 && digit_value(suffix[1]) is Some && digit_value(
        suffix[2],
    ) is Some {
        Some((digit_value(suffix[1])->0 * 16 + digit_value(suffix[2])->0) as u8)
    } else {
        None
    }
}

/// The checksum of `bytes[from..to]`.
pub fn xor(bytes: &[u8], from: usize, to: usize) -> (r: u8)
    requires
        from <= to <= bytes.len(),
    ensures
        r == xor_of(bytes@.subrange(from as int, to as int)),
{
    let mut sum: u8 = 0;
    let mut i: usize = from;
    while i < to
        invariant
            from <= i <= to <= bytes.len(),
            sum == xor_of(bytes@.subrange(from as int, i as int)),
        decreases to - i,
    {
        sum = sum ^ bytes[i];
        i = i + 1;
        assert(bytes@.subrange(from as int, i as int).drop_last() =~= bytes@.subrange(
            from as int,
            i - 1,
        ));
    }
    sum
}

/// The value of the hexadecimal digit `b`.
pub fn hex_value(b: u8) -> (r: Option<u8>)
    ensures
        r is Some <==> digit_value(b) is Some,
        r matches Some(v) ==> v == digit_value(b)->0 && v < 16,
{
    if 48 <= b && b <= 57 {
        Some(b - 48)
    } else if 65 <= b && b <= 70 {
        Some(b - 55)
    } else if 97 <= b && b <= 102 {
        Some(b - 87)
    } else {
        None
    }
}

/// The value that the checksum field `bytes[from..to]` declares.
pub fn from_hex(bytes: &[u8], from: usize, to: usize) -> (r: Option<u8>)
    requires
        from <= to <= bytes.len(),
    ensures
        r == declared(bytes@.subrange(from as int, to as int)),
{
    let ghost suffix = bytes@.subrange(from as int, to as int);
    if to - from != 3 || bytes[from] != 42 {
        return None;
    }
    assert(suffix[1] == bytes@[from + 1] && suffix[2] == bytes@[from + 2]);
    match (hex_value(bytes[from + 1]), hex_value(bytes[from + 2])) {
        (Some(hi), Some(lo)) => Some(hi * 16 + lo),
        _ => None,
    }
}

} // verus!
