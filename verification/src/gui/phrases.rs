//! Texts cut down to one line: the headline of a diagnostic, a path, a recording setup.

use vstd::prelude::*;
use vstd::string::*;

use crate::config::schema::{FileRotationPolicy, InterfaceConfig, InterfaceConfigModel, OverwritePolicy, UdpMode};
use crate::text::{
    before, chars_of, decimal, drop_white, find_in, first_in, push_decimal, string_of, text_before,
    trim, trimmed, trimmed_end,
};

verus! {

/// Where the detail of a headline begins: at a dash with spaces around it, or at the
/// second colon with a space behind it, whichever comes first.
pub open spec fn detail_start(head: Seq<char>) -> nat {
    let dash = match first_in(head, " \u{2014} "@) {
        Some(n) => n,
        None => head.len(),
    };
    let colon = match first_in(head, ": "@) {
        Some(first) => match first_in(head.skip(first as int + 2), ": "@) {
            Some(n) => first + 2 + n,
            None => head.len(),
        },
        None => head.len(),
    };
    if dash < colon {
        dash
    } else {
        colon
    }
}

/// The headline of a message: what stands before an arrow, without white space around it
/// and without its detail.
pub open spec fn headline_of(message: Seq<char>) -> Seq<char> {
    let head = trimmed(before(message, '\u{2192}'));
    trimmed_end(head.take(detail_start(head) as int))
}

/// The headline of a message.
pub fn headline_phrase(message: &str) -> (r: String)
    ensures
        r@ == headline_of(message@),
{
    let subject: String = text_before(message, '\u{2192}');
    let head: String = trim(subject.as_str());
    let chars: Vec<char> = chars_of(head.as_str());
    let dash_mark: Vec<char> = chars_of(" \u{2014} ");
    let colon_mark: Vec<char> = chars_of(": ");
    proof {
        reveal_strlit(" \u{2014} ");
        reveal_strlit(": ");
    }
    let mut cut: usize = chars.len();
    assert(chars@.skip(0) =~= chars@);
    if let Some(dash) = find_in(&chars, 0, &dash_mark) {
        cut = dash;
    }
    if let Some(first) = find_in(&chars, 0, &colon_mark) {
        assert(first + 2 <= chars.len());
        if let Some(rel) = find_in(&chars, first + 2, &colon_mark) {
            if first + 2 + rel < cut {
                cut = first + 2 + rel;
            }
        }
    }
    assert(cut == detail_start(head@));
    let end: usize = drop_white(&chars, 0, cut);
    let out: String = string_of(&chars, 0, end);
    assert(chars@.subrange(0, cut as int) =~= head@.take(cut as int));
    out
}

/// Where `c` last occurs in a text.
pub open spec fn last_of(t: Seq<char>, c: char) -> Option<nat>
    decreases t.len(),
{
    if t.len() == 0 {
        None
    } else if t.last() == c {
        Some((t.len() - 1) as nat)
    } else {
        last_of(t.drop_last(), c)
    }
}

/// Where `c` last occurs.
fn find_last(chars: &Vec<char>, c: char) -> (r: Option<usize>)
    ensures
        match (r, last_of(chars@, c)) {
            (Some(n), Some(m)) => n == m && n < chars.len(),
            (None, None) => true,
            _ => false,
        },
{
    let mut end: usize = chars.len();
    assert(chars@.take(end as int) =~= chars@);
    while end > 0
        invariant
            end <= chars.len(),
            last_of(chars@, c) == last_of(chars@.take(end as int), c),
        decreases end,
    {
        assert(chars@.take(end as int).last() == chars@[end - 1]);
        assert(chars@.take(end as int).drop_last() =~= chars@.take(end - 1));
        if chars[end - 1] == c {
            return Some(end - 1);
        }
        end = end - 1;
    }
    None
}

/// How many characters of a path are shown.
pub const SHOWN_PATH: usize = 28;

/// A path cut down to one line: the file name stays whole, and of what stands before it
/// only the start is kept.
pub open spec fn short_path(path: Seq<char>, separator: char) -> Seq<char> {
    if path.len() <= SHOWN_PATH {
        path
    } else {
        match last_of(path, separator) {
            None => path,
            Some(i) => {
                let dir = path.take(i as int);
                let file = path.skip(i as int + 1);
                let room = if file.len() + 3 < SHOWN_PATH {
                    SHOWN_PATH - (file.len() + 3)
                } else {
                    0
                };
                let kept = if room < dir.len() {
                    room
                } else {
                    dir.len() as int
                };
                dir.take(kept) + seq!['\u{2026}', separator] + file
            },
        }
    }
}

/// A path as it is shown: relative to `~` where it lies under the home directory.
pub open spec fn home_path(path: Seq<char>, under_home: Option<Seq<char>>, separator: char) -> Seq<char> {
    match under_home {
        Some(rest) => seq!['~', separator] + rest,
        None => path,
    }
}

/// A path cut down to one line. `under_home` is the path below the home directory, where
/// it lies there.
pub fn shorten_path(path: &str, under_home: Option<&str>, separator: char) -> (r: String)
    ensures
        r@ == short_path(
            home_path(
                path@,
                match under_home {
                    Some(rest) => Some(rest@),
                    None => None,
                },
                separator,
            ),
            separator,
        ),
{
    let shown: String = match under_home {
        Some(rest) => {
            let mut out: String = String::new();
            out.push('~');
            out.push(separator);
            out.append(rest);
            assert(out@ =~= seq!['~', separator] + rest@);
            out
        },
        None => path.to_owned(),
    };
    let chars: Vec<char> = chars_of(shown.as_str());
    if chars.len() <= SHOWN_PATH {
        return shown;
    }
    match find_last(&chars, separator) {
        None => shown,
        Some(i) => {
            let file_len: usize = chars.len() - (i + 1);
            let room: usize = SHOWN_PATH.saturating_sub(file_len.saturating_add(3));
            let kept: usize = if room < i {
                room
            } else {
                i
            };
            let mut out: String = string_of(&chars, 0, kept);
            out.push('\u{2026}');
            out.push(separator);
            let file: String = string_of(&chars, i + 1, chars.len());
            out.append(file.as_str());
            assert(out@ =~= short_path(shown@, separator));
            out
        },
    }
}

/// What a rotation is called in a summary.
pub open spec fn rotation_word(rotation: FileRotationPolicy) -> Seq<char> {
    match rotation {
        FileRotationPolicy::NoRotation => "no rotation"@,
        FileRotationPolicy::Hourly => "Hourly"@,
        FileRotationPolicy::Daily => "Daily"@,
    }
}

/// What a policy for existing files is called in a summary.
pub open spec fn overwrite_word(policy: OverwritePolicy) -> Seq<char> {
    match policy {
        OverwritePolicy::Refuse => "Refuse"@,
        OverwritePolicy::Overwrite => "Overwrite"@,
        OverwritePolicy::AppendIfExists => "Append"@,
    }
}

/// A recording setup on one line: the destination as it is shown, the rotation, and what
/// happens to an existing file.
pub fn record_summary(
    shown_destination: Option<&str>,
    rotation: FileRotationPolicy,
    policy: OverwritePolicy,
) -> (r: String)
    ensures
        r@ == (match shown_destination {
            Some(path) => path@,
            None => "(no destination)"@,
        }) + " \u{b7} "@ + rotation_word(rotation) + " \u{b7} "@ + overwrite_word(policy),
{
    let mut out: String = match shown_destination {
        Some(path) => path.to_owned(),
        None => "(no destination)".to_owned(),
    };
    out.append(" \u{b7} ");
    out.append(
        match rotation {
            FileRotationPolicy::NoRotation => "no rotation",
            FileRotationPolicy::Hourly => "Hourly",
            FileRotationPolicy::Daily => "Daily",
        },
    );
    out.append(" \u{b7} ");
    out.append(
        match policy {
            OverwritePolicy::Refuse => "Refuse",
            OverwritePolicy::Overwrite => "Overwrite",
            OverwritePolicy::AppendIfExists => "Append",
        },
    );
    out
}

/// A one-line description of an interface and its endpoint.
pub open spec fn interface_line(i: InterfaceConfigModel) -> Seq<char> {
    match i {
        InterfaceConfigModel::Udp(u) => "UDP "@ + (match u.mode {
            UdpMode::Unicast => "unicast"@,
            UdpMode::Broadcast => "broadcast"@,
            UdpMode::Multicast => "multicast"@,
        }) + " \u{b7} bind "@ + u.bind_address + ":"@ + decimal(u.port as nat),
        InterfaceConfigModel::TcpListener(t) => "TCP listener \u{b7} "@ + t.bind_address + ":"@
            + decimal(t.port as nat),
        InterfaceConfigModel::Serial(s) => "Serial \u{b7} "@ + s.port + " @ "@ + decimal(
            s.baud_rate as nat,
        ) + " baud"@,
    }
}

/// A one-line description of an interface and its endpoint.
pub fn describe_interface(interface: &InterfaceConfig) -> (r: String)
    ensures
        r@ == interface_line(interface@),
{
    match interface {
        InterfaceConfig::Udp(udp) => {
            let mut out: String = "UDP ".to_owned();
            out.append(
                match udp.mode {
                    UdpMode::Unicast => "unicast",
                    UdpMode::Broadcast => "broadcast",
                    UdpMode::Multicast => "multicast",
                },
            );
            out.append(" \u{b7} bind ");
            out.append(udp.bind_address.as_str());
            out.append(":");
            push_decimal(&mut out, udp.port as u64);
            out
        },
        InterfaceConfig::TcpListener(tcp) => {
            let mut out: String = "TCP listener \u{b7} ".to_owned();
            out.append(tcp.bind_address.as_str());
            out.append(":");
            push_decimal(&mut out, tcp.port as u64);
            out
        },
        InterfaceConfig::Serial(serial) => {
            let mut out: String = "Serial \u{b7} ".to_owned();
            out.append(serial.port.as_str());
            out.append(" @ ");
            push_decimal(&mut out, serial.baud_rate as u64);
            out.append(" baud");
            out
        },
    }
}

/// The name of a profile, from the stem of its file name.
pub fn profile_name_from_path(stem: Option<&str>) -> (r: String)
    ensures
        r@ == match stem {
            Some(name) => name@,
            None => "workspace"@,
        },
{
    match stem {
        Some(name) => name.to_owned(),
        None => "workspace".to_owned(),
    }
}

} // verus!
