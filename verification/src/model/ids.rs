//! Channel, display-view, rule and configuration identifiers.
//!
//! Runtime identifiers are minted while the program runs and never persisted. A
//! `StableConfigId` is the identity that a profile stores.

use vstd::arithmetic::power::pow;
use vstd::prelude::*;

verus! {

/// The lowercase hexadecimal digit of a value below 16.
pub open spec fn lower_digit(d: int) -> char {
    if d < 10 {
        (('0' as u32) + d) as u32 as char
    } else {
        (('a' as u32) + d - 10) as u32 as char
    }
}

/// The `k`-th of the 32 hexadecimal digits of `id`, from the most significant on.
pub open spec fn id_digit(id: u128, k: int) -> char {
    lower_digit((id as int / pow(16, (31 - k) as nat)) % 16)
}

/// `id` as 32 lowercase hexadecimal digits in groups of 8, 4, 4, 4 and 12, with a
/// hyphen between each two.
pub open spec fn hyphenated(id: u128) -> Seq<char> {
    Seq::new(
        36,
        |i: int|
            if i == 8 || i == 13 || i == 18 || i == 23 {
                '-'
            } else if i < 8 {
                id_digit(id, i)
            } else if i < 13 {
                id_digit(id, i - 1)
            } else if i < 18 {
                id_digit(id, i - 2)
            } else if i < 23 {
                id_digit(id, i - 3)
            } else {
                id_digit(id, i - 4)
            },
    )
}

/// A random UUID, that is one of version 4 in the RFC variant: its 13th digit is the
/// version, and its 17th digit begins with the bits of the variant.
pub open spec fn is_random_uuid(id: u128) -> bool {
    &&& id_digit(id, 12) == '4'
    &&& id_digit(id, 16) == '8' || id_digit(id, 16) == '9' || id_digit(id, 16) == 'a' || id_digit(
        id,
        16,
    ) == 'b'
}

/// `uuid::Uuid::new_v4`, as a number (`Uuid::as_u128`). The value has the version and the
/// variant of a random UUID. Its other digits are random: nothing is claimed of them, not
/// even that two values differ.
#[verifier::external_body]
fn fresh_uuid() -> (r: u128)
    ensures
        is_random_uuid(r),
{
    uuid::Uuid::new_v4().as_u128()
}

/// The `Display` form of the `uuid::Uuid` with the value `id` (`Uuid::from_u128`): its
/// digits in lower case, hyphenated.
#[verifier::external_body]
fn uuid_text(id: u128) -> (r: String)
    ensures
        r@ == hyphenated(id),
{
    uuid::Uuid::from_u128(id).to_string()
}

/// Unique internal identifier for a Channel.
#[derive(Clone, Copy, Debug, PartialEq, Eq, Hash, Structural)]
pub struct ChannelId(pub u128);

impl ChannelId {
    /// Mints a fresh, random identifier.
    pub fn new() -> (r: ChannelId)
        ensures
            is_random_uuid(r.0),
    {
        ChannelId(fresh_uuid())
    }

    /// The identifier as text.
    pub fn to_string(&self) -> (r: String)
        ensures
            r@ == hyphenated(self.0),
    {
        uuid_text(self.0)
    }
}

impl Default for ChannelId {
    fn default() -> (r: ChannelId)
        ensures
            is_random_uuid(r.0),
    {
        ChannelId::new()
    }
}

/// Runtime identity of a single Display View. A Channel may own several; pausing one
/// does not pause the others.
#[derive(Clone, Copy, Debug, PartialEq, Eq, Hash, Structural)]
pub struct DisplayViewId(pub u128);

impl DisplayViewId {
    /// Mints a fresh, random identifier.
    pub fn new() -> (r: DisplayViewId)
        ensures
            is_random_uuid(r.0),
    {
        DisplayViewId(fresh_uuid())
    }

    /// The identifier as text.
    pub fn to_string(&self) -> (r: String)
        ensures
            r@ == hyphenated(self.0),
    {
        uuid_text(self.0)
    }
}

impl Default for DisplayViewId {
    fn default() -> (r: DisplayViewId)
        ensures
            is_random_uuid(r.0),
    {
        DisplayViewId::new()
    }
}

/// Runtime identity of a match rule.
#[derive(Clone, Copy, Debug, PartialEq, Eq, Hash, Structural)]
pub struct MatchRuleId(pub u128);

impl MatchRuleId {
    /// Mints a fresh, random identifier.
    pub fn new() -> (r: MatchRuleId)
        ensures
            is_random_uuid(r.0),
    {
        MatchRuleId(fresh_uuid())
    }

    /// The identifier as text.
    pub fn to_string(&self) -> (r: String)
        ensures
            r@ == hyphenated(self.0),
    {
        uuid_text(self.0)
    }
}

impl Default for MatchRuleId {
    fn default() -> (r: MatchRuleId)
        ensures
            is_random_uuid(r.0),
    {
        MatchRuleId::new()
    }
}

/// Stable identity of a configured Channel, persisted in a profile so that a saved
/// workspace comes back as the same logical channel.
#[derive(Clone, Copy, Debug, PartialEq, Eq, Hash, Structural)]
pub struct StableConfigId(pub u128);

impl StableConfigId {
    /// Mints a fresh, random identifier.
    pub fn new() -> (r: StableConfigId)
        ensures
            is_random_uuid(r.0),
    {
        StableConfigId(fresh_uuid())
    }

    /// The identifier as text.
    pub fn to_string(&self) -> (r: String)
        ensures
            r@ == hyphenated(self.0),
    {
        uuid_text(self.0)
    }
}

impl Default for StableConfigId {
    fn default() -> (r: StableConfigId)
        ensures
            is_random_uuid(r.0),
    {
        StableConfigId::new()
    }
}

/// User-visible Channel name.
#[derive(Debug, PartialEq, Eq)]
pub struct ChannelName(pub String);

impl View for ChannelName {
    type V = Seq<char>;

    open spec fn view(&self) -> Seq<char> {
        self.0@
    }
}

impl Clone for ChannelName {
    fn clone(&self) -> (r: ChannelName)
        ensures
            r == *self,
    {
        ChannelName(self.0.clone())
    }
}

impl ChannelName {
    pub fn new(name: &str) -> (r: ChannelName)
        ensures
            r@ == name@,
    {
        ChannelName(name.to_owned())
    }

    pub fn as_str(&self) -> (r: &str)
        ensures
            r@ == self@,
    {
        self.0.as_str()
    }

    /// The name as an owned text.
    pub fn to_string(&self) -> (r: String)
        ensures
            r@ == self@,
    {
        self.0.clone()
    }
}

} // verus!
