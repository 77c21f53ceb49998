//! What an NMEA 0183 sentence is read as.

use vstd::prelude::*;
use vstd::string::*;
use vstd::utf8::*;

use crate::decode::checksum::{declared, digit_value, xor_of};
use crate::decode::nmea::{
    address_of, body_of, checksum_verdict, first_index, is_proprietary, last_index,
    lemma_first_index, lemma_last_index, nmea_reading, splits_character, without_line_end,
    NmeaValidationMode,
};
use crate::laws::text::hex_alphabet;
use crate::model::error::Fault;
use crate::model::metadata::{IntegrityScope, IntegrityStatus, ProtocolId};
use crate::unicode::{first_utf8, lossy_text};

verus! {

/// The exclusive or of all bytes, the first with that of the rest.
pub open spec fn xor_all(bytes: Seq<u8>) -> u8
    decreases bytes.len(),
{
    if bytes.len() == 0 {
        0
    } else {
        bytes[0] ^ xor_all(bytes.skip(1))
    }
}

proof fn lemma_xor_push(bytes: Seq<u8>, b: u8)
    ensures
        xor_all(bytes.push(b)) == xor_all(bytes) ^ b,
    decreases bytes.len(),
{
    let all = bytes.push(b);
    if bytes.len() == 0 {
        assert(all.skip(1) =~= Seq::empty());
        assert(xor_all(all.skip(1)) == 0);
        assert(b ^ 0 == 0 ^ b) by (bit_vector);
    } else {
        assert(all.skip(1) =~= bytes.skip(1).push(b));
        lemma_xor_push(bytes.skip(1), b);
        let x = bytes[0];
        let y = xor_all(bytes.skip(1));
        assert(x ^ (y ^ b) == (x ^ y) ^ b) by (bit_vector);
    }
}

proof fn lemma_xor(bytes: Seq<u8>)
    ensures
        xor_of(bytes) == xor_all(bytes),
    decreases bytes.len(),
{
    if bytes.len() > 0 {
        lemma_xor(bytes.drop_last());
        lemma_xor_push(bytes.drop_last(), bytes.last());
        assert(bytes.drop_last().push(bytes.last()) =~= bytes);
    }
}

/// A hexadecimal digit, in either case, and its value.
pub open spec fn says(b: u8, value: int) -> bool {
    &&& 0 <= value < 16
    &&& b == hex_alphabet()[value] as u8 || (value >= 10 && b == hex_alphabet()[value] as u8 + 32)
}

pub proof fn lemma_says(b: u8, value: int)
    requires
        says(b, value),
    ensures
        digit_value(b) == Some(value),
        b != 42 && b != 13 && b != 10,
{
    let a = hex_alphabet();
    if value == 0 {
        assert(a[0] == '0');
    } else if value == 1 {
        assert(a[1] == '1');
    } else if value == 2 {
        assert(a[2] == '2');
    } else if value == 3 {
        assert(a[3] == '3');
    } else if value == 4 {
        assert(a[4] == '4');
    } else if value == 5 {
        assert(a[5] == '5');
    } else if value == 6 {
        assert(a[6] == '6');
    } else if value == 7 {
        assert(a[7] == '7');
    } else if value == 8 {
        assert(a[8] == '8');
    } else if value == 9 {
        assert(a[9] == '9');
    } else if value == 10 {
        assert(a[10] == 'A');
    } else if value == 11 {
        assert(a[11] == 'B');
    } else if value == 12 {
        assert(a[12] == 'C');
    } else if value == 13 {
        assert(a[13] == 'D');
    } else if value == 14 {
        assert(a[14] == 'E');
    } else {
        assert(a[15] == 'F');
    }
}

pub proof fn lemma_digit_says(b: u8)
    ensures
        digit_value(b) matches Some(v) ==> says(b, v),
{
    if let Some(v) = digit_value(b) {
        let a = hex_alphabet();
        if v == 0 {
            assert(a[0] == '0');
        } else if v == 1 {
            assert(a[1] == '1');
        } else if v == 2 {
            assert(a[2] == '2');
        } else if v == 3 {
            assert(a[3] == '3');
        } else if v == 4 {
            assert(a[4] == '4');
        } else if v == 5 {
            assert(a[5] == '5');
        } else if v == 6 {
            assert(a[6] == '6');
        } else if v == 7 {
            assert(a[7] == '7');
        } else if v == 8 {
            assert(a[8] == '8');
        } else if v == 9 {
            assert(a[9] == '9');
        } else if v == 10 {
            assert(a[10] == 'A');
        } else if v == 11 {
            assert(a[11] == 'B');
        } else if v == 12 {
            assert(a[12] == 'C');
        } else if v == 13 {
            assert(a[13] == 'D');
        } else if v == 14 {
            assert(a[14] == 'E');
        } else {
            assert(a[15] == 'F');
        }
    }
}

/// Every ASCII message that begins with `$` or `!` is read as a sentence.
pub proof fn law_ascii_sentences_are_read(bytes: Seq<u8>, mode: NmeaValidationMode)
    requires
        bytes.len() > 0,
        bytes[0] == 36 || bytes[0] == 33,
        forall|i: int| 0 <= i < bytes.len() ==> #[trigger] bytes[i] < 128,
    ensures
        nmea_reading(bytes, mode).identity is Some,
{
    crate::decode::nmea::lemma_ascii_valid(bytes);
    lemma_start_kept(bytes);
    crate::decode::nmea::lemma_ascii_address(bytes);
    let address = address_of(without_line_end(bytes));
    if address.len() >= 5 {
        assert(address[address.len() - 3] < 128);
    }
}

proof fn lemma_start_kept(bytes: Seq<u8>)
    requires
        bytes.len() > 0,
        bytes[0] != 13 && bytes[0] != 10,
    ensures
        without_line_end(bytes).len() > 0,
        without_line_end(bytes)[0] == bytes[0],
    decreases bytes.len(),
{
    if bytes.last() == 13 || bytes.last() == 10 {
        lemma_start_kept(bytes.drop_last());
    }
}

/// A sentence with a checksum field: a delimiter, a body, `*` and two digits.
pub open spec fn with_checksum(delimiter: u8, body: Seq<u8>, high: u8, low: u8) -> Seq<u8> {
    seq![delimiter] + body + seq![42u8, high, low]
}

proof fn lemma_with_checksum(delimiter: u8, body: Seq<u8>, high: u8, low: u8, h: int, l: int)
    requires
        says(high, h),
        says(low, l),
    ensures
        ({
            let line = with_checksum(delimiter, body, high, low);
            &&& without_line_end(line) == line
            &&& body_of(line) == body
            &&& last_index(line.skip(1), 42) == body.len()
            &&& declared(line.skip(1).skip(body.len() as int)) == Some((16 * h + l) as u8)
        }),
{
    lemma_says(high, h);
    lemma_says(low, l);
    let line = with_checksum(delimiter, body, high, low);
    let n = body.len() as int;
    assert(line.last() == low);
    let after = line.skip(1);
    assert(after =~= body + seq![42u8, high, low]);
    lemma_last_index(after, 42);
    assert(after[n] == 42 && after[n + 1] == high && after[n + 2] == low);
    assert(last_index(after, 42) == n);
    assert(after.take(n) =~= body);
    let suffix = after.skip(n);
    assert(suffix.len() == 3 && suffix[0] == 42 && suffix[1] == high && suffix[2] == low);
}

/// The checksum of a sentence holds exactly where its two digits, in either case, say the
/// exclusive or of the bytes between the start delimiter and the last `*`. Where they say
/// anything else, that is the error, and it tells what they said.
pub proof fn law_checksum_is_the_xor_of_the_body(
    delimiter: u8,
    body: Seq<u8>,
    high: u8,
    low: u8,
    h: int,
    l: int,
    mode: NmeaValidationMode,
)
    requires
        delimiter == 36 || delimiter == 33,
        says(high, h),
        says(low, l),
        valid_utf8(with_checksum(delimiter, body, high, low)),
        nmea_reading(with_checksum(delimiter, body, high, low), mode).identity is Some,
    ensures
        ({
            let r = nmea_reading(with_checksum(delimiter, body, high, low), mode);
            let holds = xor_all(body) == 16 * h + l;
            &&& r.identity->0.integrity.len() == 1
            &&& r.identity->0.integrity[0].status == if holds {
                IntegrityStatus::Valid
            } else {
                IntegrityStatus::Invalid
            }
            &&& !holds ==> r.faults.len() > 0 && r.faults[0] == Fault::Integrity(
                "checksum mismatch (declared 0x"@ + seq![
                    hex_alphabet()[h],
                    hex_alphabet()[l],
                    ')',
                ],
            )
            &&& holds ==> forall|i: int|
                0 <= i < r.faults.len() ==> !(#[trigger] r.faults[i] is Integrity)
        }),
{
    let line = with_checksum(delimiter, body, high, low);
    lemma_with_checksum(delimiter, body, high, low, h, l);
    lemma_xor(body);
    assert(line[0] == delimiter);
    let v = (16 * h + l) as u8;
    assert(v as int / 16 == h && v as int % 16 == l);
    crate::laws::text::law_hex_pair_says_the_byte(v);
    assert("checksum mismatch (declared 0x"@ + crate::text::hex_pair(v) + seq![')']
        =~= "checksum mismatch (declared 0x"@ + seq![hex_alphabet()[h], hex_alphabet()[l], ')']);
    let r = nmea_reading(line, mode);
    let (status, wrong) = checksum_verdict(line, mode);
    assert(r.faults == wrong + crate::decode::nmea::address_faults(line));
}

/// Of two sentences with the same body and different digits at most one has a valid
/// checksum.
pub proof fn law_one_checksum_fits_a_body(
    delimiter: u8,
    body: Seq<u8>,
    a: (u8, u8, int, int),
    b: (u8, u8, int, int),
    mode: NmeaValidationMode,
)
    requires
        delimiter == 36 || delimiter == 33,
        says(a.0, a.2),
        says(a.1, a.3),
        says(b.0, b.2),
        says(b.1, b.3),
        a.2 != b.2 || a.3 != b.3,
        valid_utf8(with_checksum(delimiter, body, a.0, a.1)),
        valid_utf8(with_checksum(delimiter, body, b.0, b.1)),
    ensures
        ({
            let p = nmea_reading(with_checksum(delimiter, body, a.0, a.1), mode);
            let q = nmea_reading(with_checksum(delimiter, body, b.0, b.1), mode);
            p.identity is Some && q.identity is Some ==> p.identity->0.integrity[0].status
                != IntegrityStatus::Valid || q.identity->0.integrity[0].status
                != IntegrityStatus::Valid
        }),
{
    let p = nmea_reading(with_checksum(delimiter, body, a.0, a.1), mode);
    let q = nmea_reading(with_checksum(delimiter, body, b.0, b.1), mode);
    if p.identity is Some && q.identity is Some {
        law_checksum_is_the_xor_of_the_body(delimiter, body, a.0, a.1, a.2, a.3, mode);
        law_checksum_is_the_xor_of_the_body(delimiter, body, b.0, b.1, b.2, b.3, mode);
    }
}

/// Without a `*` there is no checksum: nothing is wrong in Standard mode, and one is
/// missed in Strict mode.
pub proof fn law_missing_checksum(line: Seq<u8>, mode: NmeaValidationMode)
    requires
        valid_utf8(line),
        !line.contains(42),
        line.len() > 0,
        line.last() != 13 && line.last() != 10,
        nmea_reading(line, mode).identity is Some,
    ensures
        ({
            let r = nmea_reading(line, mode);
            let status = r.identity->0.integrity[0].status;
            &&& mode is Standard ==> status == IntegrityStatus::NotPresent && forall|i: int|
                0 <= i < r.faults.len() ==> !(#[trigger] r.faults[i] is Integrity)
            &&& mode is Strict ==> status == IntegrityStatus::Invalid && r.faults.len() > 0
                && r.faults[0] is Integrity
        }),
{
    let after = line.skip(1);
    lemma_last_index(after, 42);
    if last_index(after, 42) >= 0 {
        assert(line.contains(after[last_index(after, 42)]));
    }
    let (status, wrong) = checksum_verdict(line, mode);
    assert(nmea_reading(line, mode).faults == wrong + crate::decode::nmea::address_faults(line));
}

/// Behind the last `*` stand two hexadecimal digits and nothing else, or the checksum is
/// invalid.
pub proof fn law_malformed_checksum_is_invalid(
    delimiter: u8,
    body: Seq<u8>,
    tail: Seq<u8>,
    mode: NmeaValidationMode,
)
    requires
        delimiter == 36 || delimiter == 33,
        !tail.contains(42),
        tail.len() > 0 ==> tail.last() != 13 && tail.last() != 10,
        tail.len() != 2 || (forall|v: int| !says(tail[0], v)) || (forall|v: int| !says(tail[1], v)),
        valid_utf8(seq![delimiter] + body + seq![42u8] + tail),
        nmea_reading(seq![delimiter] + body + seq![42u8] + tail, mode).identity is Some,
    ensures
        ({
            let r = nmea_reading(seq![delimiter] + body + seq![42u8] + tail, mode);
            &&& r.identity->0.integrity[0].status == IntegrityStatus::Invalid
            &&& r.faults.len() > 0
            &&& r.faults[0] is Integrity
        }),
{
    let line = seq![delimiter] + body + seq![42u8] + tail;
    let after = line.skip(1);
    let n = body.len() as int;
    assert(after =~= body + seq![42u8] + tail);
    assert(line.last() == if tail.len() > 0 {
        tail.last()
    } else {
        42
    });
    lemma_last_index(after, 42);
    assert(after[n] == 42);
    assert forall|j: int| n < j < after.len() implies after[j] != 42 by {
        assert(tail.contains(tail[j - n - 1]));
    }
    assert(last_index(after, 42) == n);
    let suffix = after.skip(n);
    assert(suffix.len() == tail.len() + 1);
    if tail.len() == 2 {
        assert(suffix[1] == tail[0] && suffix[2] == tail[1]);
        lemma_digit_says(tail[0]);
        lemma_digit_says(tail[1]);
    }
    assert(line[0] == delimiter);
    let (status, wrong) = checksum_verdict(line, mode);
    assert(nmea_reading(line, mode).faults == wrong + crate::decode::nmea::address_faults(line));
}

/// The characters of ASCII bytes.
pub open spec fn ascii_text(bytes: Seq<u8>) -> Seq<char> {
    Seq::new(bytes.len(), |i: int| bytes[i] as char)
}

proof fn lemma_ascii_text(bytes: Seq<u8>)
    requires
        forall|i: int| 0 <= i < bytes.len() ==> #[trigger] bytes[i] < 128,
    ensures
        lossy_text(bytes) == ascii_text(bytes),
    decreases bytes.len(),
{
    if bytes.len() > 0 {
        let b = bytes[0];
        assert(b < 128);
        assert(b < 128 ==> (b & 0x7F) == b) by (bit_vector);
        assert(first_utf8(bytes) == (b as char, 1int));
        let rest = bytes.skip(1);
        assert forall|i: int| 0 <= i < rest.len() implies #[trigger] rest[i] < 128 by {
            assert(rest[i] == bytes[i + 1]);
        }
        lemma_ascii_text(rest);
        assert(lossy_text(bytes) =~= ascii_text(bytes));
    } else {
        assert(lossy_text(bytes) =~= ascii_text(bytes));
    }
}

/// A sentence: a delimiter, an address, a comma and fields.
pub open spec fn with_address(delimiter: u8, address: Seq<u8>, fields: Seq<u8>) -> Seq<u8> {
    seq![delimiter] + address + seq![44u8] + fields
}

proof fn lemma_address(delimiter: u8, address: Seq<u8>, fields: Seq<u8>)
    requires
        forall|i: int|
            0 <= i < address.len() ==> #[trigger] address[i] != 44 && address[i] != 42,
    ensures
        address_of(with_address(delimiter, address, fields)) == address,
{
    let line = with_address(delimiter, address, fields);
    let after = line.skip(1);
    let n = address.len() as int;
    assert(after =~= address + seq![44u8] + fields);
    lemma_last_index(after, 42);
    let star = last_index(after, 42);
    if star >= 0 {
        assert(star > n) by {
            if star < n {
                assert(after[star] == address[star]);
            } else if star == n {
                assert(after[star] == 44);
            }
        }
    }
    let body = body_of(line);
    assert(body.len() > n);
    assert forall|i: int| 0 <= i < n implies body[i] == address[i] by {}
    assert(body[n] == 44);
    lemma_first_index(body, 44);
    let k = first_index(body, 44);
    if k < n {
        assert(body[k] == address[k]);
    }
    assert(k == n);
    assert(body.take(n) =~= address);
}

/// The address of a sentence identifies it. Behind `$` an address that begins with `P` is
/// proprietary: what follows is its identifier. Any other of at least five bytes ends in
/// the three letters of the sentence type, and the talker stands before them. A shorter
/// one identifies nothing, and that is an error.
pub proof fn law_address_identifies(
    delimiter: u8,
    address: Seq<u8>,
    fields: Seq<u8>,
    mode: NmeaValidationMode,
)
    requires
        delimiter == 36 || delimiter == 33,
        forall|i: int|
            0 <= i < address.len() ==> #[trigger] address[i] != 44 && address[i] != 42
                && address[i] < 128,
        fields.len() > 0 ==> fields.last() != 13 && fields.last() != 10,
        valid_utf8(with_address(delimiter, address, fields)),
    ensures
        ({
            let r = nmea_reading(with_address(delimiter, address, fields), mode);
            let n = address.len() as int;
            let proprietary = delimiter == 36 && n > 0 && address[0] == 80;
            let empty = Map::<Seq<char>, Seq<char>>::empty();
            &&& r.identity is Some
            &&& r.identity->0.protocol == ProtocolId::Nmea0183
            &&& r.identity->0.integrity.len() == 1
            &&& r.identity->0.integrity[0].scope == IntegrityScope::Protocol
            &&& r.identity->0.integrity[0].algorithm == Some("NMEA XOR"@)
            &&& proprietary ==> r.identity->0.message_type is None && r.identity->0.attributes
                == empty.insert("proprietary_id"@, ascii_text(address.subrange(1, n)))
            &&& !proprietary && n >= 5 ==> r.identity->0.message_type == Some(
                ascii_text(address.subrange(n - 3, n)),
            ) && r.identity->0.attributes == empty.insert(
                "talker_id"@,
                ascii_text(address.subrange(0, n - 3)),
            )
            &&& !proprietary && n < 5 ==> r.identity->0.message_type is None
                && r.identity->0.attributes == empty
            &&& (exists|i: int| 0 <= i < r.faults.len() && (#[trigger] r.faults[i] is Malformed))
                <==> (!proprietary && n < 5)
        }),
{
    let line = with_address(delimiter, address, fields);
    let n = address.len() as int;
    lemma_address(delimiter, address, fields);
    assert(line.last() == if fields.len() > 0 {
        fields.last()
    } else {
        44
    });
    assert(without_line_end(line) == line);
    assert(line[0] == delimiter);
    let r = nmea_reading(line, mode);
    assert(!splits_character(line)) by {
        if n >= 5 {
            assert(address[n - 3] < 128);
        }
    }
    if n > 0 {
        assert(address.skip(1) =~= address.subrange(1, n));
        lemma_ascii_part(address, 1, n);
    }
    if n >= 5 {
        assert(address.skip(n - 3) =~= address.subrange(n - 3, n));
        assert(address.take(n - 3) =~= address.subrange(0, n - 3));
        lemma_ascii_part(address, n - 3, n);
        lemma_ascii_part(address, 0, n - 3);
    }
    let (status, wrong) = checksum_verdict(line, mode);
    let more = crate::decode::nmea::address_faults(line);
    assert(r.faults == wrong + more);
    let proprietary = delimiter == 36 && n > 0 && address[0] == 80;
    assert(is_proprietary(line) == proprietary);
    if !proprietary && n < 5 {
        assert(r.faults[wrong.len() as int] == more[0]);
        assert(r.faults[wrong.len() as int] is Malformed);
    }
}

proof fn lemma_ascii_part(bytes: Seq<u8>, from: int, to: int)
    requires
        0 <= from <= to <= bytes.len(),
        forall|i: int| 0 <= i < bytes.len() ==> #[trigger] bytes[i] < 128,
    ensures
        lossy_text(bytes.subrange(from, to)) == ascii_text(bytes.subrange(from, to)),
{
    let part = bytes.subrange(from, to);
    assert forall|i: int| 0 <= i < part.len() implies #[trigger] part[i] < 128 by {
        assert(part[i] == bytes[from + i]);
    }
    lemma_ascii_text(part);
}

/// A text that begins with `$` or `!` is read as a sentence, unless the three bytes at the
/// end of an address of five or more, which is not proprietary, begin within a character.
pub proof fn law_sentence_types_begin_with_a_character(
    delimiter: u8,
    address: Seq<u8>,
    fields: Seq<u8>,
    mode: NmeaValidationMode,
)
    requires
        delimiter == 36 || delimiter == 33,
        forall|i: int|
            0 <= i < address.len() ==> #[trigger] address[i] != 44 && address[i] != 42,
        fields.len() > 0 ==> fields.last() != 13 && fields.last() != 10,
        valid_utf8(with_address(delimiter, address, fields)),
    ensures
        ({
            let r = nmea_reading(with_address(delimiter, address, fields), mode);
            let n = address.len() as int;
            let proprietary = delimiter == 36 && n > 0 && address[0] == 80;
            let split = !proprietary && n >= 5 && 0x80 <= address[n - 3] <= 0xBF;
            &&& r.identity is None <==> split
            &&& split ==> r.faults.len() == 1 && r.faults[0] is Malformed
        }),
{
    let line = with_address(delimiter, address, fields);
    lemma_address(delimiter, address, fields);
    assert(line.last() == if fields.len() > 0 {
        fields.last()
    } else {
        44
    });
    assert(without_line_end(line) == line);
    assert(line[0] == delimiter);
}

/// A message is no sentence, and says only why, where it is no text, holds nothing but
/// line ends, or does not begin with `$` or `!`.
pub proof fn law_other_messages_are_no_sentences(bytes: Seq<u8>, mode: NmeaValidationMode)
    requires
        !valid_utf8(bytes) || bytes.len() == 0 || (bytes[0] != 36 && bytes[0] != 33),
    ensures
        nmea_reading(bytes, mode).identity is None,
        nmea_reading(bytes, mode).faults.len() == 1,
        nmea_reading(bytes, mode).faults[0] is Malformed,
{
    lemma_first_kept(bytes);
}

proof fn lemma_first_kept(bytes: Seq<u8>)
    ensures
        without_line_end(bytes).len() > 0 ==> bytes.len() > 0 && without_line_end(bytes)[0]
            == bytes[0],
    decreases bytes.len(),
{
    if bytes.len() > 0 && (bytes.last() == 13 || bytes.last() == 10) {
        lemma_first_kept(bytes.drop_last());
    }
}

/// A CR or an LF at the end of a message makes no difference.
pub proof fn law_a_line_end_more_makes_no_difference(
    bytes: Seq<u8>,
    end: u8,
    mode: NmeaValidationMode,
)
    requires
        end == 13 || end == 10,
    ensures
        nmea_reading(bytes.push(end), mode) == nmea_reading(bytes, mode),
{
    crate::decode::nmea::law_line_end_is_ignored(bytes, mode);
    crate::decode::nmea::law_line_end_is_ignored(bytes.push(end), mode);
    assert(bytes.push(end).drop_last() =~= bytes);
}

} // verus!
