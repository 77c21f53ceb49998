//! Rules for recordings: which names can be part of a file name, and what happens when
//! a destination already exists.

use vstd::prelude::*;

use crate::config::schema::{FileRotationPolicy, OverwritePolicy};
use crate::text::chars_of;

verus! {

/// Characters that some filesystem does not take in a file name.
pub open spec fn is_reserved_char(c: char) -> bool {
    ||| c < ' '
    ||| c == '\u{7F}'
    ||| c == '<' || c == '>' || c == ':' || c == '"'
    ||| c == '/' || c == '\\' || c == '|' || c == '?' || c == '*'
}

/// Whether a name can be part of a file name on every common filesystem: it is not
/// empty, holds no reserved character, and ends neither in a space nor in a dot.
pub open spec fn safe_name(t: Seq<char>) -> bool {
    &&& t.len() > 0
    &&& forall|i: int| 0 <= i < t.len() ==> !is_reserved_char(#[trigger] t[i])
    &&& t.last() != ' ' && t.last() != '.'
}

/// Whether `name` can be part of a file name.
pub fn is_filesystem_safe(name: &str) -> (r: bool)
    ensures
        r == safe_name(name@),
{
    let chars: Vec<char> = chars_of(name);
    if chars.len() == 0 {
        return false;
    }
    let mut i: usize = 0;
    while i < chars.len()
        invariant
            i <= chars.len(),
            chars@ == name@,
            forall|j: int| 0 <= j < i ==> !is_reserved_char(#[trigger] chars@[j]),
        decreases chars.len() - i,
    {
        let c: char = chars[i];
        if c < ' ' || c == '\u{7F}' || c == '<' || c == '>' || c == ':' || c == '"' || c == '/' || c
            == '\\' || c == '|' || c == '?' || c == '*' {
            assert(is_reserved_char(name@[i as int]));
            return false;
        }
        i = i + 1;
    }
    let last: char = chars[chars.len() - 1];
    last != ' ' && last != '.'
}

/// The policy that applies under a rotation: each period starts a fresh file, so a
/// refusal becomes an append.
pub open spec fn overwrite_under(policy: OverwritePolicy, rotation: FileRotationPolicy) -> OverwritePolicy {
    if !(rotation is NoRotation) && policy is Refuse {
        OverwritePolicy::AppendIfExists
    } else {
        policy
    }
}

/// The policy that applies under a rotation.
pub fn effective_overwrite(policy: OverwritePolicy, rotation: FileRotationPolicy) -> (r:
    OverwritePolicy)
    ensures
        r == overwrite_under(policy, rotation),
{
    if rotation != FileRotationPolicy::NoRotation && policy == OverwritePolicy::Refuse {
        OverwritePolicy::AppendIfExists
    } else {
        policy
    }
}

/// Applying a rotation's rule twice is applying it once, and under a rotation nothing
/// refuses.
pub proof fn law_overwrite_settles(policy: OverwritePolicy, rotation: FileRotationPolicy)
    ensures
        overwrite_under(overwrite_under(policy, rotation), rotation) == overwrite_under(
            policy,
            rotation,
        ),
        !(rotation is NoRotation) ==> !(overwrite_under(policy, rotation) is Refuse),
{
}

} // verus!
