//! NMEA 0183: sentences are validated and identified, their fields are not interpreted.
//!
//! Identity is extracted apart from the checksum, so that a sentence with a bad or
//! missing checksum is still reported with its talker and type.

use vstd::prelude::*;
use vstd::string::*;
use vstd::utf8::*;

use crate::decode::checksum::{declared, from_hex, xor, xor_of};
use crate::decode::{DecodeResult, Decoder, Reading};
use crate::model::error::{faults, DecodeError, Fault};
use crate::model::message::Message;
use crate::model::metadata::{
    Attributes, Check, Identity, IntegrityMetadata, IntegrityScope, IntegrityStatus, ProtocolId,
    ProtocolMetadata,
};
use crate::text::{debug_text, hex_pair, push_hex_pair, quoted_text};
use crate::unicode::{is_utf8, lossy_text, text_of};

verus! {

/// How a missing checksum is taken. The mode affects the integrity status and the errors
/// only, never whether a sentence is identified.
#[derive(Clone, Copy, Debug, PartialEq, Eq, Structural)]
pub enum NmeaValidationMode {
    /// A missing checksum is accepted; a present one is validated.
    Standard,
    /// A checksum is required.
    Strict,
}

/// Bytes without the CR and LF bytes at their end.
pub open spec fn without_line_end(bytes: Seq<u8>) -> Seq<u8>
    decreases bytes.len(),
{
    if bytes.len() > 0 && (bytes.last() == 13 || bytes.last() == 10) {
        without_line_end(bytes.drop_last())
    } else {
        bytes
    }
}

/// The index of the first `b`, the length where there is none.
pub open spec fn first_index(bytes: Seq<u8>, b: u8) -> int
    decreases bytes.len(),
{
    if bytes.len() == 0 || bytes[0] == b {
        0
    } else {
        1 + first_index(bytes.skip(1), b)
    }
}

/// The index of the last `b`, -1 where there is none.
pub open spec fn last_index(bytes: Seq<u8>, b: u8) -> int
    decreases bytes.len(),
{
    if bytes.len() == 0 {
        -1
    } else if bytes.last() == b {
        bytes.len() - 1
    } else {
        last_index(bytes.drop_last(), b)
    }
}

/// A sentence begins with `$` or `!`.
pub open spec fn starts_sentence(line: Seq<u8>) -> bool {
    line.len() > 0 && (line[0] == 36 || line[0] == 33)
}

/// What the checksum covers: from the start delimiter to the last `*`, both excluded.
pub open spec fn body_of(line: Seq<u8>) -> Seq<u8> {
    let after = line.skip(1);
    let star = last_index(after, 42);
    if star >= 0 {
        after.take(star)
    } else {
        after
    }
}

/// What stands before the first comma.
pub open spec fn address_of(line: Seq<u8>) -> Seq<u8> {
    let body = body_of(line);
    body.take(first_index(body, 44))
}

/// A `$` sentence whose address begins with `P`.
pub open spec fn is_proprietary(line: Seq<u8>) -> bool {
    line[0] == 36 && address_of(line).len() > 0 && address_of(line)[0] == 80
}

/// The integrity status of a sentence, and what is wrong with its checksum.
pub open spec fn checksum_verdict(line: Seq<u8>, mode: NmeaValidationMode) -> (
    IntegrityStatus,
    Seq<Fault>,
) {
    let after = line.skip(1);
    let star = last_index(after, 42);
    if star >= 0 {
        match declared(after.skip(star)) {
            Some(expected) => if xor_of(body_of(line)) == expected {
                (IntegrityStatus::Valid, Seq::empty())
            } else {
                (
                    IntegrityStatus::Invalid,
                    seq![
                        Fault::Integrity(
                            "checksum mismatch (declared 0x"@ + hex_pair(expected) + seq![')'],
                        ),
                    ],
                )
            },
            None => (
                IntegrityStatus::Invalid,
                seq![
                    Fault::Integrity(
                        "malformed checksum field "@ + quoted_text(lossy_text(after.skip(star))),
                    ),
                ],
            ),
        }
    } else {
        match mode {
            NmeaValidationMode::Standard => (IntegrityStatus::NotPresent, Seq::empty()),
            NmeaValidationMode::Strict => (
                IntegrityStatus::Invalid,
                seq![Fault::Integrity("missing checksum (strict mode requires one)"@)],
            ),
        }
    }
}

/// The sentence type: the last three bytes of an address of at least five.
pub open spec fn sentence_type(line: Seq<u8>) -> Option<Seq<char>> {
    let address = address_of(line);
    if !is_proprietary(line) && address.len() >= 5 {
        Some(lossy_text(address.skip(address.len() - 3)))
    } else {
        None
    }
}

/// The talker, or the identifier of a proprietary sentence.
pub open spec fn sentence_attributes(line: Seq<u8>) -> Map<Seq<char>, Seq<char>> {
    let address = address_of(line);
    if is_proprietary(line) {
        Map::empty().insert("proprietary_id"@, lossy_text(address.skip(1)))
    } else if address.len() >= 5 {
        Map::empty().insert("talker_id"@, lossy_text(address.take(address.len() - 3)))
    } else {
        Map::empty()
    }
}

/// What is wrong with the address.
pub open spec fn address_faults(line: Seq<u8>) -> Seq<Fault> {
    let address = address_of(line);
    if !is_proprietary(line) && address.len() < 5 {
        seq![
            Fault::Malformed(
                "address field "@ + quoted_text(lossy_text(address))
                    + " too short to identify talker/sentence"@,
            ),
        ]
    } else {
        Seq::empty()
    }
}

/// A message that is no sentence.
pub open spec fn unrecognized(reason: Seq<char>) -> Reading {
    Reading { identity: None, faults: seq![Fault::Malformed(reason)] }
}

/// The address cannot be parted three bytes before its end: a character reaches over that
/// place. No ASCII address is such a one.
pub open spec fn splits_character(line: Seq<u8>) -> bool {
    let address = address_of(line);
    !is_proprietary(line) && address.len() >= 5 && is_continuation_byte(
        address[address.len() - 3],
    )
}

/// What the decoder finds in a message. NMEA is ASCII: a sentence whose talker would end
/// inside a character is none.
pub open spec fn nmea_reading(bytes: Seq<u8>, mode: NmeaValidationMode) -> Reading {
    let line = without_line_end(bytes);
    if !valid_utf8(bytes) {
        unrecognized("message is not valid UTF-8/ASCII text"@)
    } else if line.len() == 0 {
        unrecognized("empty message"@)
    } else if !starts_sentence(line) {
        unrecognized("missing '$' or '!' start delimiter"@)
    } else if splits_character(line) {
        unrecognized("message is not valid UTF-8/ASCII text"@)
    } else {
        let (status, wrong) = checksum_verdict(line, mode);
        Reading {
            identity: Some(
                Identity {
                    protocol: ProtocolId::Nmea0183,
                    message_type: sentence_type(line),
                    integrity: seq![
                        Check {
                            scope: IntegrityScope::Protocol,
                            status,
                            algorithm: Some("NMEA XOR"@),
                        },
                    ],
                    attributes: sentence_attributes(line),
                },
            ),
            faults: wrong + address_faults(line),
        }
    }
}

/// How a message was identified does not depend on the validation mode.
pub proof fn law_mode_keeps_identity(bytes: Seq<u8>, a: NmeaValidationMode, b: NmeaValidationMode)
    ensures
        nmea_reading(bytes, a).identity is Some <==> nmea_reading(bytes, b).identity is Some,
        nmea_reading(bytes, a).identity is Some ==> {
            let p = nmea_reading(bytes, a).identity->0;
            let q = nmea_reading(bytes, b).identity->0;
            &&& p.protocol == q.protocol
            &&& p.message_type == q.message_type
            &&& p.attributes == q.attributes
        },
{
}

/// The mode matters only where there is no checksum at all.
pub proof fn law_mode_matters_without_checksum(
    bytes: Seq<u8>,
    a: NmeaValidationMode,
    b: NmeaValidationMode,
)
    requires
        last_index(without_line_end(bytes).skip(1), 42) >= 0,
    ensures
        nmea_reading(bytes, a) == nmea_reading(bytes, b),
{
}

proof fn lemma_line_end(bytes: Seq<u8>, n: int)
    requires
        0 <= n <= bytes.len(),
        forall|j: int| n <= j < bytes.len() ==> #[trigger] bytes[j] == 13 || bytes[j] == 10,
        n > 0 ==> bytes[n - 1] != 13 && bytes[n - 1] != 10,
    ensures
        without_line_end(bytes) == bytes.take(n),
    decreases bytes.len(),
{
    if n < bytes.len() {
        assert(bytes[bytes.len() - 1] == 13 || bytes[bytes.len() - 1] == 10);
        lemma_line_end(bytes.drop_last(), n);
        assert(bytes.drop_last().take(n) =~= bytes.take(n));
    } else {
        assert(bytes.take(n) =~= bytes);
    }
}

/// An ASCII byte behind bytes makes well-formed UTF-8 neither ill-formed nor the other way
/// round.
proof fn lemma_ascii_behind(bytes: Seq<u8>, b: u8)
    requires
        b < 0x80,
    ensures
        valid_utf8(bytes.push(b)) == valid_utf8(bytes),
    decreases bytes.len(),
{
    let longer = bytes.push(b);
    if bytes.len() == 0 {
        assert(longer =~= seq![b]);
        assert forall|i: int| 0 <= i < longer.len() implies #[trigger] longer[i] < 0x80 by {}
        lemma_ascii_valid(longer);
    } else {
        assert forall|i: int| 0 <= i < bytes.len() implies longer[i] == bytes[i] by {}
        assert(longer[bytes.len() as int] == b);
        assert(!is_continuation_byte(b));
        assert(valid_first_scalar(longer) == valid_first_scalar(bytes));
        if valid_first_scalar(bytes) {
            let rest = pop_first_scalar(bytes);
            assert(pop_first_scalar(longer) =~= rest.push(b));
            lemma_ascii_behind(rest, b);
        }
    }
}

/// Line ends at the end of a message make no difference.
pub proof fn law_line_end_is_ignored(bytes: Seq<u8>, mode: NmeaValidationMode)
    ensures
        nmea_reading(bytes, mode) == nmea_reading(without_line_end(bytes), mode),
    decreases bytes.len(),
{
    if bytes.len() > 0 && (bytes.last() == 13 || bytes.last() == 10) {
        let front = bytes.drop_last();
        law_line_end_is_ignored(front, mode);
        lemma_ascii_behind(front, bytes.last());
        assert(front.push(bytes.last()) =~= bytes);
    }
}

/// All bytes are ASCII.
pub open spec fn is_ascii_bytes(bytes: Seq<u8>) -> bool {
    forall|i: int| 0 <= i < bytes.len() ==> #[trigger] bytes[i] < 0x80
}

/// ASCII is well-formed UTF-8.
pub proof fn lemma_ascii_valid(bytes: Seq<u8>)
    requires
        is_ascii_bytes(bytes),
    ensures
        valid_utf8(bytes),
    decreases bytes.len(),
{
    if bytes.len() > 0 {
        assert(bytes[0] < 0x80);
        let b = bytes[0];
        assert(b < 0x80 ==> (b & 0x7F) as u32 <= 0x7F) by (bit_vector);
        let rest = pop_first_scalar(bytes);
        assert forall|i: int| 0 <= i < rest.len() implies #[trigger] rest[i] < 0x80 by {
            assert(rest[i] == bytes[i + 1]);
        }
        lemma_ascii_valid(rest);
    }
}

/// The address of an ASCII sentence is ASCII.
pub proof fn lemma_ascii_address(bytes: Seq<u8>)
    requires
        is_ascii_bytes(bytes),
        without_line_end(bytes).len() > 0,
    ensures
        is_ascii_bytes(address_of(without_line_end(bytes))),
{
    let line = without_line_end(bytes);
    lemma_line_prefix(bytes);
    let address = address_of(line);
    lemma_first_index(body_of(line), 44);
    lemma_last_index(line.skip(1), 42);
    assert forall|i: int| 0 <= i < address.len() implies #[trigger] address[i] < 0x80 by {
        assert(address[i] == line[i + 1]);
        assert(bytes[i + 1] < 0x80);
    }
}

proof fn lemma_line_prefix(bytes: Seq<u8>)
    ensures
        without_line_end(bytes).len() <= bytes.len(),
        without_line_end(bytes) == bytes.take(without_line_end(bytes).len() as int),
    decreases bytes.len(),
{
    if bytes.len() > 0 && (bytes.last() == 13 || bytes.last() == 10) {
        lemma_line_prefix(bytes.drop_last());
        let n = without_line_end(bytes).len() as int;
        assert(bytes.drop_last().take(n) =~= bytes.take(n));
    } else {
        assert(bytes.take(bytes.len() as int) =~= bytes);
    }
}

pub proof fn lemma_first_index(bytes: Seq<u8>, b: u8)
    ensures
        0 <= first_index(bytes, b) <= bytes.len(),
        first_index(bytes, b) < bytes.len() ==> bytes[first_index(bytes, b)] == b,
        forall|j: int| 0 <= j < first_index(bytes, b) ==> #[trigger] bytes[j] != b,
    decreases bytes.len(),
{
    if bytes.len() > 0 && bytes[0] != b {
        let rest = bytes.skip(1);
        lemma_first_index(rest, b);
        assert forall|j: int| 0 <= j < first_index(bytes, b) implies #[trigger] bytes[j] != b by {
            if j > 0 {
                assert(rest[j - 1] == bytes[j]);
            }
        }
    }
}

pub proof fn lemma_last_index(bytes: Seq<u8>, b: u8)
    ensures
        -1 <= last_index(bytes, b) < bytes.len(),
        last_index(bytes, b) >= 0 ==> bytes[last_index(bytes, b)] == b,
        forall|j: int| last_index(bytes, b) < j < bytes.len() ==> #[trigger] bytes[j] != b,
    decreases bytes.len(),
{
    if bytes.len() > 0 && bytes.last() != b {
        let front = bytes.drop_last();
        lemma_last_index(front, b);
        assert forall|j: int| last_index(bytes, b) < j < bytes.len() implies #[trigger] bytes[j]
            != b by {
            if j < front.len() {
                assert(front[j] == bytes[j]);
            }
        }
    }
}

/// A message that is no sentence: no metadata, one error.
fn not_recognized(reason: &str) -> (r: DecodeResult)
    ensures
        r@ == unrecognized(reason@),
{
    let mut errors: Vec<DecodeError> = Vec::new();
    errors.push(DecodeError::Malformed(reason.to_owned()));
    assert(faults(errors@) =~= seq![Fault::Malformed(reason@)]);
    DecodeResult { metadata: None, errors }
}

/// Where the parts of a sentence stand in a message.
struct Layout {
    /// The end of the line.
    end: usize,
    /// The index of the last `*`, or the end of the line.
    body_end: usize,
    has_star: bool,
    address_end: usize,
}

fn layout_of(bytes: &[u8], end: usize) -> (r: Layout)
    requires
        0 < end <= bytes.len(),
    ensures
        r.end == end,
        1 <= r.address_end <= r.body_end <= end,
        ({
            let line = bytes@.take(end as int);
            let after = line.skip(1);
            &&& r.has_star == (last_index(after, 42) >= 0)
            &&& r.has_star ==> r.body_end == last_index(after, 42) + 1
            &&& !r.has_star ==> r.body_end == end
            &&& body_of(line) == bytes@.subrange(1, r.body_end as int)
            &&& address_of(line) == bytes@.subrange(1, r.address_end as int)
        }),
{
    let ghost line = bytes@.take(end as int);
    let ghost after = line.skip(1);
    let mut star: usize = end;
    while star > 1 && bytes[star - 1] != 42
        invariant
            1 <= star <= end <= bytes.len(),
            line == bytes@.take(end as int),
            after == line.skip(1),
            forall|j: int| star - 1 <= j < after.len() ==> #[trigger] after[j] != 42,
        decreases star,
    {
        star = star - 1;
        assert(after[star - 1] == bytes@[star as int]);
    }
    let has_star: bool = star > 1;
    let body_end: usize = if has_star {
        star - 1
    } else {
        end
    };
    proof {
        lemma_last_index(after, 42);
        if has_star {
            assert(after[star - 2] == 42);
        }
        assert(body_of(line) =~= bytes@.subrange(1, body_end as int));
    }
    let ghost body = bytes@.subrange(1, body_end as int);
    let mut comma: usize = 1;
    while comma < body_end && bytes[comma] != 44
        invariant
            1 <= comma <= body_end <= bytes.len(),
            body == bytes@.subrange(1, body_end as int),
            forall|j: int| 0 <= j < comma - 1 ==> #[trigger] body[j] != 44,
        decreases body_end - comma,
    {
        assert(body[comma - 1] == bytes@[comma as int]);
        comma = comma + 1;
    }
    proof {
        lemma_first_index(body, 44);
        if comma < body_end {
            assert(body[comma - 1] == 44);
        }
        assert(address_of(line) =~= bytes@.subrange(1, comma as int));
    }
    Layout { end, body_end, has_star, address_end: comma }
}

/// The end of a message without the CR and LF bytes at its end.
fn line_end(bytes: &[u8]) -> (r: usize)
    ensures
        r <= bytes.len(),
        without_line_end(bytes@) == bytes@.take(r as int),
{
    let mut n: usize = bytes.len();
    while n > 0 && (bytes[n - 1] == 13 || bytes[n - 1] == 10)
        invariant
            n <= bytes.len(),
            forall|j: int| n <= j < bytes.len() ==> #[trigger] bytes@[j] == 13 || bytes@[j] == 10,
        decreases n,
    {
        n = n - 1;
    }
    proof {
        lemma_line_end(bytes@, n as int);
    }
    n
}

/// Checks the checksum of a sentence, and says in `errors` what is wrong with it.
fn check_integrity(
    bytes: &[u8],
    at: &Layout,
    mode: NmeaValidationMode,
    errors: &mut Vec<DecodeError>,
) -> (r: IntegrityStatus)
    requires
        at.end <= bytes.len(),
        1 <= at.body_end <= at.end,
        ({
            let line = bytes@.take(at.end as int);
            let after = line.skip(1);
            &&& at.has_star == (last_index(after, 42) >= 0)
            &&& at.has_star ==> at.body_end == last_index(after, 42) + 1
            &&& body_of(line) == bytes@.subrange(1, at.body_end as int)
        }),
    ensures
        (r, faults(final(errors)@)) == ({
            let (status, wrong) = checksum_verdict(bytes@.take(at.end as int), mode);
            (status, faults(old(errors)@) + wrong)
        }),
{
    let ghost line = bytes@.take(at.end as int);
    let ghost after = line.skip(1);
    let ghost star = last_index(after, 42);
    assert(faults(old(errors)@) + Seq::<Fault>::empty() =~= faults(old(errors)@));
    if at.has_star {
        let ghost suffix = bytes@.subrange(at.body_end as int, at.end as int);
        assert(after.skip(star) =~= suffix);
        match from_hex(bytes, at.body_end, at.end) {
            Some(expected) => {
                if xor(bytes, 1, at.body_end) == expected {
                    IntegrityStatus::Valid
                } else {
                    let mut text: String = "checksum mismatch (declared 0x".to_owned();
                    push_hex_pair(&mut text, expected);
                    text.push(')');
                    assert(text@ =~= "checksum mismatch (declared 0x"@ + hex_pair(expected)
                        + seq![')']);
                    let ghost before = errors@;
                    errors.push(DecodeError::Integrity(text));
                    assert(faults(errors@) =~= faults(before) + seq![Fault::Integrity(text@)]);
                    IntegrityStatus::Invalid
                }
            },
            None => {
                let mut text: String = "malformed checksum field ".to_owned();
                let field: String = text_of(bytes, at.body_end, at.end);
                let quoted: String = debug_text(field.as_str());
                text.append(quoted.as_str());
                let ghost before = errors@;
                errors.push(DecodeError::Integrity(text));
                assert(faults(errors@) =~= faults(before) + seq![Fault::Integrity(text@)]);
                IntegrityStatus::Invalid
            },
        }
    } else {
        match mode {
            NmeaValidationMode::Standard => IntegrityStatus::NotPresent,
            NmeaValidationMode::Strict => {
                let ghost before = errors@;
                let text: String = "missing checksum (strict mode requires one)".to_owned();
                errors.push(DecodeError::Integrity(text));
                assert(faults(errors@) =~= faults(before) + seq![Fault::Integrity(text@)]);
                IntegrityStatus::Invalid
            },
        }
    }
}

/// Validates and identifies the sentence that `bytes` hold.
pub fn decode_nmea(bytes: &[u8], mode: NmeaValidationMode) -> (r: DecodeResult)
    ensures
        r@ == nmea_reading(bytes@, mode),
{
    if !is_utf8(bytes) {
        return not_recognized("message is not valid UTF-8/ASCII text");
    }
    let end: usize = line_end(bytes);
    let ghost line = bytes@.take(end as int);
    if end == 0 {
        return not_recognized("empty message");
    }
    let delimiter: u8 = bytes[0];
    assert(line[0] == delimiter);
    if delimiter != 36 && delimiter != 33 {
        return not_recognized("missing '$' or '!' start delimiter");
    }
    let at: Layout = layout_of(bytes, end);
    let ghost address = address_of(line);
    let last: usize = at.address_end;
    let length: usize = last - 1;
    assert(address.len() == length);
    let proprietary: bool = delimiter == 36 && length > 0 && bytes[1] == 80;
    assert(length > 0 ==> address[0] == bytes@[1]);
    if !proprietary && length >= 5 {
        let b: u8 = bytes[last - 3];
        assert(address[address.len() - 3] == b);
        if 0x80 <= b && b <= 0xBF {
            return not_recognized("message is not valid UTF-8/ASCII text");
        }
    }
    let mut errors: Vec<DecodeError> = Vec::new();
    assert(faults(errors@) =~= Seq::empty());
    let status: IntegrityStatus = check_integrity(bytes, &at, mode, &mut errors);
    let ghost wrong = checksum_verdict(line, mode).1;
    assert(Seq::<Fault>::empty() + wrong =~= wrong);
    let mut attributes: Attributes = Attributes::new();
    let mut message_type: Option<String> = None;
    if proprietary {
        let id: String = text_of(bytes, 2, last);
        assert(bytes@.subrange(2, last as int) =~= address.skip(1));
        attributes.insert("proprietary_id".to_owned(), id);
    } else if length >= 5 {
        let cut: usize = last - 3;
        let talker: String = text_of(bytes, 1, cut);
        assert(bytes@.subrange(1, cut as int) =~= address.take(address.len() - 3));
        attributes.insert("talker_id".to_owned(), talker);
        assert(bytes@.subrange(cut as int, last as int) =~= address.skip(address.len() - 3));
        message_type = Some(text_of(bytes, cut, last));
    } else {
        let mut text: String = "address field ".to_owned();
        let shown: String = text_of(bytes, 1, last);
        let quoted: String = debug_text(shown.as_str());
        text.append(quoted.as_str());
        text.append(" too short to identify talker/sentence");
        let ghost before = errors@;
        errors.push(DecodeError::Malformed(text));
        assert(faults(errors@) =~= faults(before) + seq![Fault::Malformed(text@)]);
    }
    let mut integrity: Vec<IntegrityMetadata> = Vec::new();
    integrity.push(
        IntegrityMetadata {
            scope: IntegrityScope::Protocol,
            status,
            algorithm: Some("NMEA XOR".to_owned()),
        },
    );
    let r = DecodeResult {
        metadata: Some(
            ProtocolMetadata {
                protocol: ProtocolId::Nmea0183,
                message_type,
                integrity,
                attributes,
            },
        ),
        errors,
    };
    proof {
        let found = r@.identity->0;
        let meant = nmea_reading(bytes@, mode).identity->0;
        assert(found.integrity =~= meant.integrity);
        assert(found.attributes =~= meant.attributes);
        assert(r@.faults =~= nmea_reading(bytes@, mode).faults);
    }
    r
}

/// Validates and identifies NMEA 0183 sentences.
#[derive(Clone, Copy, Debug, PartialEq, Eq, Structural)]
pub struct NmeaDecoder {
    mode: NmeaValidationMode,
}

impl NmeaDecoder {
    pub closed spec fn mode_spec(self) -> NmeaValidationMode {
        self.mode
    }

    pub fn new(mode: NmeaValidationMode) -> (r: NmeaDecoder)
        ensures
            r.mode_spec() == mode,
    {
        NmeaDecoder { mode }
    }

    pub fn standard() -> (r: NmeaDecoder)
        ensures
            r.mode_spec() == NmeaValidationMode::Standard,
    {
        NmeaDecoder::new(NmeaValidationMode::Standard)
    }

    pub fn strict() -> (r: NmeaDecoder)
        ensures
            r.mode_spec() == NmeaValidationMode::Strict,
    {
        NmeaDecoder::new(NmeaValidationMode::Strict)
    }
}

impl Decoder for NmeaDecoder {
    fn decode(&self, message: &Message) -> (r: DecodeResult)
        ensures
            r@ == nmea_reading(message.bytes@, self.mode_spec()),
    {
        decode_nmea(message.bytes.as_slice(), self.mode)
    }
}

} // verus!
