//! What errors say.

use vstd::prelude::*;
use vstd::string::*;

use crate::config::validate::{ChannelConfigError, ConfigError};
use crate::laws::telling::{lemma_nothing, lemma_number, tells, Part};
use crate::laws::text::is_digit;
use crate::model::error::RecordError;
use crate::model::zda::ZdaTalkerIdError;
use crate::text::decimal;

verus! {

/// A text ends with another one.
pub open spec fn ends_in(t: Seq<char>, end: Seq<char>) -> bool {
    end.len() <= t.len() && t.skip(t.len() - end.len()) == end
}

/// An error of a profile tells its reason at the end, or the version that was found and
/// then the one that is supported.
pub proof fn law_profile_errors_tell_their_cause(e: ConfigError)
    ensures
        e matches ConfigError::Io(reason) ==> ends_in(e.message_spec(), reason@),
        e matches ConfigError::Parse(reason) ==> ends_in(e.message_spec(), reason@),
        e matches ConfigError::Serialize(reason) ==> ends_in(e.message_spec(), reason@),
        e matches ConfigError::SchemaTooNew { found, supported } ==> tells(
            e.message_spec(),
            seq![Part::Number(found as nat), Part::Number(supported as nat)],
        ),
        e matches ConfigError::SchemaTooOld { found, supported } ==> tells(
            e.message_spec(),
            seq![Part::Number(found as nat), Part::Number(supported as nat)],
        ),
{
    reveal_strlit("profile schema version ");
    reveal_strlit(" is newer than this build supports (");
    reveal_strlit(")");
    reveal_strlit(" is older than ");
    reveal_strlit(" and has no migration");
    let t = e.message_spec();
    match e {
        ConfigError::Io(reason) => {
            assert(t.skip(t.len() - reason@.len()) =~= reason@);
        },
        ConfigError::Parse(reason) => {
            assert(t.skip(t.len() - reason@.len()) =~= reason@);
        },
        ConfigError::Serialize(reason) => {
            assert(t.skip(t.len() - reason@.len()) =~= reason@);
        },
        ConfigError::SchemaTooNew { found, supported } => {
            lemma_versions(
                "profile schema version "@,
                found as nat,
                " is newer than this build supports ("@,
                supported as nat,
                ")"@,
            );
        },
        ConfigError::SchemaTooOld { found, supported } => {
            lemma_versions(
                "profile schema version "@,
                found as nat,
                " is older than "@,
                supported as nat,
                " and has no migration"@,
            );
        },
    }
}

proof fn lemma_versions(a: Seq<char>, found: nat, b: Seq<char>, supported: nat, c: Seq<char>)
    requires
        a.len() > 0 && !is_digit(a.last()),
        b.len() > 0 && !is_digit(b[0]) && !is_digit(b.last()),
        c.len() > 0 && !is_digit(c[0]),
    ensures
        tells(
            a + decimal(found) + b + decimal(supported) + c,
            seq![Part::Number(found), Part::Number(supported)],
        ),
{
    lemma_nothing(c);
    lemma_number(b, supported, c, Seq::empty());
    let rest = b + decimal(supported) + c;
    assert(rest[0] == b[0]);
    lemma_number(a, found, rest, seq![Part::Number(supported)] + Seq::empty());
    assert(a + decimal(found) + rest =~= a + decimal(found) + b + decimal(supported) + c);
    assert(seq![Part::Number(found)] + (seq![Part::Number(supported)] + Seq::empty()) =~= seq![
        Part::Number(found),
        Part::Number(supported),
    ]);
}

/// Too new and too old read differently.
pub proof fn law_new_and_old_profiles_read_differently(found: u32, supported: u32)
    ensures
        (ConfigError::SchemaTooNew { found, supported }).message_spec() != (
        ConfigError::SchemaTooOld { found, supported }).message_spec(),
{
    reveal_strlit(" is newer than this build supports (");
    reveal_strlit(" is older than ");
    let a = (ConfigError::SchemaTooNew { found, supported }).message_spec();
    let b = (ConfigError::SchemaTooOld { found, supported }).message_spec();
    let n = ("profile schema version "@.len() + decimal(found as nat).len()) as int;
    assert(a[n + 4] == " is newer than this build supports ("@[4]);
    assert(b[n + 4] == " is older than "@[4]);
}

/// No two faults of a channel read alike.
#[verifier::rlimit(40)]
pub proof fn law_channel_faults_read_differently(a: ChannelConfigError, b: ChannelConfigError)
    requires
        a != b,
    ensures
        a.message_spec() != b.message_spec(),
{
    reveal_strlit("channel kind does not match its interface configuration");
    reveal_strlit("TCP Connection channels are runtime-only and cannot be persisted");
    reveal_strlit("multicast UDP requires a multicast group address");
    reveal_strlit("retention is unbounded: set a limit on the channel or in defaults");
    reveal_strlit(
        "channel name is not filesystem-safe but recording file rotation uses it in filenames",
    );
    reveal_strlit("channel name duplicates another channel's — names must be unique");
    reveal_strlit("a match rule's byte pattern is empty (it would match at every byte offset)");
    let kind = "channel kind does not match its interface configuration"@;
    let tcp = "TCP Connection channels are runtime-only and cannot be persisted"@;
    let group = "multicast UDP requires a multicast group address"@;
    let retention = "retention is unbounded: set a limit on the channel or in defaults"@;
    let name =
        "channel name is not filesystem-safe but recording file rotation uses it in filenames"@;
    let duplicate = "channel name duplicates another channel's — names must be unique"@;
    let pattern = "a match rule's byte pattern is empty (it would match at every byte offset)"@;
    assert(tcp[0] == 'T' && group[0] == 'm' && retention[0] == 'r' && pattern[0] == 'a');
    assert(kind[0] == 'c' && name[0] == 'c' && duplicate[0] == 'c');
    assert(kind[8] == 'k' && name[8] == 'n' && duplicate[8] == 'n');
    assert(name[13] == 'i' && duplicate[13] == 'd');
}

/// A failed recording tells its reason at the end, and an overflow is told apart from it.
pub proof fn law_recording_errors_tell_their_reason(reason: String)
    ensures
        ends_in(RecordError::Io(reason).message_spec(), reason@),
        RecordError::Io(reason).message_spec() != RecordError::QueueOverflow.message_spec(),
{
    reveal_strlit("recording I/O failed: ");
    reveal_strlit("recorder queue overflow; recording faulted");
    let t = RecordError::Io(reason).message_spec();
    assert(t.skip(t.len() - reason@.len()) =~= reason@);
    assert(t[6] == "recording I/O failed: "@[6]);
    assert("recorder queue overflow; recording faulted"@[6] == 'e');
    assert("recording I/O failed: "@[6] == 'i');
}

/// The faults of a talker read differently.
pub proof fn law_talker_faults_read_differently(c: char)
    ensures
        ZdaTalkerIdError::Empty.message_spec() != ZdaTalkerIdError::TooLong.message_spec(),
        ZdaTalkerIdError::Empty.message_spec() != ZdaTalkerIdError::InvalidCharacter(
            c,
        ).message_spec(),
        ZdaTalkerIdError::TooLong.message_spec() != ZdaTalkerIdError::InvalidCharacter(
            c,
        ).message_spec(),
{
    reveal_strlit("the ID is empty");
    reveal_strlit("the ID is longer than 32 bytes");
    reveal_strlit("the ID contains ");
    let t = ZdaTalkerIdError::InvalidCharacter(c).message_spec();
    assert(t[7] == "the ID contains "@[7]);
    assert("the ID contains "@[7] == 'c');
    assert("the ID is empty"@[7] == 'i' && "the ID is empty"@.len() == 15);
    assert("the ID is longer than 32 bytes"@[7] == 'i' && "the ID is longer than 32 bytes"@.len()
        == 30);
}

} // verus!
