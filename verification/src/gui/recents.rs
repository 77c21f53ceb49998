//! The list of recently used profiles.

use vstd::prelude::*;
use vstd::string::*;

use crate::text::{chars_of, same_text, string_of};

verus! {

/// How many recent profiles are kept.
pub const MAX_RECENT_PROFILES: usize = 8;

/// What a list of texts says.
pub open spec fn texts(v: Seq<String>) -> Seq<Seq<char>> {
    v.map_values(|s: String| s@)
}

/// The list without a path.
pub open spec fn without_path(recent: Seq<Seq<char>>, path: Seq<char>) -> Seq<Seq<char>>
    decreases recent.len(),
{
    if recent.len() == 0 {
        Seq::empty()
    } else if recent.last() == path {
        without_path(recent.drop_last(), path)
    } else {
        without_path(recent.drop_last(), path).push(recent.last())
    }
}

/// The first paths of a list, as many as are kept.
pub open spec fn capped(recent: Seq<Seq<char>>) -> Seq<Seq<char>> {
    if recent.len() > MAX_RECENT_PROFILES {
        recent.take(MAX_RECENT_PROFILES as int)
    } else {
        recent
    }
}

/// The list after a path was used: it comes first, once, and the oldest one goes.
pub open spec fn remembered(recent: Seq<Seq<char>>, path: Seq<char>) -> Seq<Seq<char>> {
    capped(seq![path] + without_path(recent, path))
}

/// Records a path as recently used.
pub fn remember_recent_profile(recent: &mut Vec<String>, path: &str)
    ensures
        texts(final(recent)@) == remembered(texts(old(recent)@), path@),
{
    let mut out: Vec<String> = Vec::new();
    out.push(path.to_owned());
    let mut i: usize = 0;
    let ghost all = texts(recent@);
    assert(texts(out@) =~= seq![path@] + without_path(all.take(0), path@));
    while i < recent.len()
        invariant
            i <= recent.len(),
            all == texts(recent@),
            texts(out@) == seq![path@] + without_path(all.take(i as int), path@),
        decreases recent.len() - i,
    {
        let ghost before = texts(out@);
        proof {
            assert(all.take(i + 1).drop_last() =~= all.take(i as int));
            assert(all.take(i + 1).last() == recent@[i as int]@);
        }
        if !same_text(recent[i].as_str(), path) {
            out.push(recent[i].clone());
            assert(texts(out@) =~= before.push(recent@[i as int]@));
        }
        i = i + 1;
        assert(texts(out@) =~= seq![path@] + without_path(all.take(i as int), path@));
    }
    assert(all.take(i as int) =~= all);
    let ghost full = texts(out@);
    out.truncate(MAX_RECENT_PROFILES);
    assert(texts(out@) =~= capped(full));
    *recent = out;
}

proof fn lemma_without_path(recent: Seq<Seq<char>>, path: Seq<char>)
    ensures
        !without_path(recent, path).contains(path),
        forall|p: Seq<char>|
            p != path ==> (#[trigger] without_path(recent, path).contains(p) <==> recent.contains(
                p,
            )),
        recent.no_duplicates() ==> without_path(recent, path).no_duplicates(),
    decreases recent.len(),
{
    if recent.len() > 0 {
        let front = recent.drop_last();
        let last = recent.last();
        lemma_without_path(front, path);
        let f = without_path(front, path);
        let w = without_path(recent, path);
        assert(recent =~= front.push(last));
        assert forall|p: Seq<char>| p != path implies (#[trigger] w.contains(p)
            <==> recent.contains(p)) by {
            if w.contains(p) {
                let k = choose|k: int| 0 <= k < w.len() && w[k] == p;
                if last != path && k == f.len() {
                    assert(recent[recent.len() - 1] == p);
                } else {
                    assert(f[k] == p);
                    assert(f.contains(p));
                    let j = choose|j: int| 0 <= j < front.len() && front[j] == p;
                    assert(recent[j] == p);
                }
            }
            if recent.contains(p) {
                let j = choose|j: int| 0 <= j < recent.len() && recent[j] == p;
                if j == front.len() {
                    assert(w[f.len() as int] == p);
                } else {
                    assert(front[j] == p);
                    assert(front.contains(p));
                    assert(f.contains(p));
                    let k = choose|k: int| 0 <= k < f.len() && f[k] == p;
                    assert(w[k] == p);
                }
            }
        }
        if w.contains(path) {
            let k = choose|k: int| 0 <= k < w.len() && w[k] == path;
            assert(f[k] == path);
            assert(f.contains(path));
        }
        if recent.no_duplicates() {
            assert(front.no_duplicates()) by {
                assert forall|a: int, b: int| 0 <= a < front.len() && 0 <= b < front.len() && a
                    != b implies front[a] != front[b] by {
                    assert(recent[a] == front[a] && recent[b] == front[b]);
                }
            }
            if last != path {
                assert forall|a: int, b: int| 0 <= a < w.len() && 0 <= b < w.len() && a
                    != b implies w[a] != w[b] by {
                    if a == f.len() || b == f.len() {
                        let o = if a == f.len() {
                            b
                        } else {
                            a
                        };
                        assert(f.contains(f[o]));
                        if f[o] == last {
                            assert(front.contains(last));
                            let j = choose|j: int| 0 <= j < front.len() && front[j] == last;
                            assert(recent[j] == recent[recent.len() - 1]);
                        }
                    }
                }
            }
        }
    }
}

/// A path that was used comes first and is listed once, the list stays within its limit
/// and free of repetitions, and a list that is not full loses nothing.
pub proof fn law_recent_profiles(recent: Seq<Seq<char>>, path: Seq<char>)
    requires
        recent.no_duplicates(),
    ensures
        remembered(recent, path)[0] == path,
        remembered(recent, path).len() <= MAX_RECENT_PROFILES,
        remembered(recent, path).no_duplicates(),
        recent.len() < MAX_RECENT_PROFILES ==> (forall|p: Seq<char>|
            recent.contains(p) ==> #[trigger] remembered(recent, path).contains(p)),
{
    lemma_without_path(recent, path);
    let rest = without_path(recent, path);
    let full = seq![path] + rest;
    let r = remembered(recent, path);
    assert forall|a: int, b: int| 0 <= a < full.len() && 0 <= b < full.len() && a != b implies full[a]
        != full[b] by {
        if a == 0 {
            assert(rest.contains(rest[b - 1]));
        } else if b == 0 {
            assert(rest.contains(rest[a - 1]));
        } else {
            assert(full[a] == rest[a - 1] && full[b] == rest[b - 1]);
        }
    }
    assert forall|a: int, b: int| 0 <= a < r.len() && 0 <= b < r.len() && a != b implies r[a]
        != r[b] by {
        assert(r[a] == full[a] && r[b] == full[b]);
    }
    if recent.len() < MAX_RECENT_PROFILES {
        lemma_without_shrinks(recent, path);
        assert forall|p: Seq<char>| recent.contains(p) implies #[trigger] r.contains(p) by {
            if p == path {
                assert(r[0] == p);
            } else {
                assert(rest.contains(p));
                let k = choose|k: int| 0 <= k < rest.len() && rest[k] == p;
                assert(r[k + 1] == p);
            }
        }
    }
}

proof fn lemma_without_shrinks(recent: Seq<Seq<char>>, path: Seq<char>)
    ensures
        without_path(recent, path).len() <= recent.len(),
    decreases recent.len(),
{
    if recent.len() > 0 {
        lemma_without_shrinks(recent.drop_last(), path);
    }
}

/// Paths as one text, a line for each.
pub open spec fn joined_paths(recent: Seq<Seq<char>>) -> Seq<char>
    decreases recent.len(),
{
    if recent.len() == 0 {
        Seq::empty()
    } else if recent.len() == 1 {
        recent[0]
    } else {
        joined_paths(recent.drop_last()).push('\n') + recent.last()
    }
}

/// Paths as one text, to be kept between sessions.
pub fn join_recent(recent: &Vec<String>) -> (r: String)
    ensures
        r@ == joined_paths(texts(recent@)),
{
    let mut out: String = String::new();
    let mut i: usize = 0;
    let ghost all = texts(recent@);
    while i < recent.len()
        invariant
            i <= recent.len(),
            all == texts(recent@),
            out@ == joined_paths(all.take(i as int)),
        decreases recent.len() - i,
    {
        proof {
            assert(all.take(i + 1).drop_last() =~= all.take(i as int));
            assert(all.take(i + 1).last() == recent@[i as int]@);
        }
        if i > 0 {
            out.push('\n');
        }
        out.append(recent[i].as_str());
        i = i + 1;
        assert(out@ =~= joined_paths(all.take(i as int)));
    }
    assert(all.take(i as int) =~= all);
    out
}

/// A line without the carriage return at its end, if it has one.
pub open spec fn without_return(line: Seq<char>) -> Seq<char> {
    if line.len() > 0 && line.last() == '\r' {
        line.drop_last()
    } else {
        line
    }
}

/// The lines of a text that are not empty. `line` is the line read so far.
pub open spec fn lines_from(text: Seq<char>, line: Seq<char>) -> Seq<Seq<char>>
    decreases text.len(),
{
    if text.len() == 0 {
        if line.len() == 0 {
            Seq::empty()
        } else {
            seq![line]
        }
    } else if text[0] == '\n' {
        let whole = without_return(line);
        if whole.len() == 0 {
            lines_from(text.skip(1), Seq::empty())
        } else {
            seq![whole] + lines_from(text.skip(1), Seq::empty())
        }
    } else {
        lines_from(text.skip(1), line.push(text[0]))
    }
}

/// The paths of a text that was kept.
pub fn split_recent(text: &str) -> (r: Vec<String>)
    ensures
        texts(r@) == lines_from(text@, Seq::empty()),
{
    let chars: Vec<char> = chars_of(text);
    let mut out: Vec<String> = Vec::new();
    let mut line: Vec<char> = Vec::new();
    let mut i: usize = 0;
    let ghost whole = lines_from(text@, Seq::empty());
    assert(chars@.skip(0) =~= text@);
    assert(line@ =~= Seq::<char>::empty());
    assert(texts(out@) =~= Seq::<Seq<char>>::empty());
    assert(texts(out@) + lines_from(chars@.skip(0), line@) =~= whole);
    while i < chars.len()
        invariant
            i <= chars.len(),
            texts(out@) + lines_from(chars@.skip(i as int), line@) == whole,
        decreases chars.len() - i,
    {
        let ghost done = texts(out@);
        let ghost rest = chars@.skip(i as int);
        let ghost read = line@;
        assert(rest[0] == chars@[i as int]);
        assert(rest.skip(1) =~= chars@.skip(i + 1));
        if chars[i] == '\n' {
            let mut end: usize = line.len();
            if end > 0 && line[end - 1] == '\r' {
                end = end - 1;
            }
            assert(read.take(end as int) =~= without_return(read));
            if end > 0 {
                let t: String = string_of(&line, 0, end);
                assert(t@ =~= without_return(read));
                out.push(t);
                assert(texts(out@) =~= done.push(without_return(read)));
                assert(done.push(without_return(read)) + lines_from(rest.skip(1), Seq::empty())
                    =~= done + lines_from(rest, read));
            }
            line = Vec::new();
            assert(line@ =~= Seq::<char>::empty());
        } else {
            line.push(chars[i]);
        }
        i = i + 1;
    }
    assert(chars@.skip(i as int).len() == 0);
    if line.len() > 0 {
        let ghost done = texts(out@);
        let t: String = string_of(&line, 0, line.len());
        assert(t@ =~= line@);
        out.push(t);
        assert(texts(out@) =~= done + seq![line@]);
    } else {
        assert(texts(out@) =~= texts(out@) + Seq::<Seq<char>>::empty());
    }
    out
}

/// A path that fits on a line.
pub open spec fn one_line(path: Seq<char>) -> bool {
    &&& path.len() > 0
    &&& !path.contains('\n')
    &&& path.last() != '\r'
}

proof fn lemma_lines_read(path: Seq<char>, rest: Seq<char>, line: Seq<char>)
    requires
        !path.contains('\n'),
    ensures
        lines_from(path + rest, line) == lines_from(rest, line + path),
    decreases path.len(),
{
    if path.len() == 0 {
        assert(path + rest =~= rest);
        assert(line + path =~= line);
    } else {
        assert((path + rest)[0] == path[0]);
        assert(path[0] != '\n') by {
            assert(path.contains(path[0]));
        }
        assert((path + rest).skip(1) =~= path.skip(1) + rest);
        assert(!path.skip(1).contains('\n')) by {
            if path.skip(1).contains('\n') {
                let k = choose|k: int| 0 <= k < path.skip(1).len() && path.skip(1)[k] == '\n';
                assert(path[k + 1] == '\n');
            }
        }
        lemma_lines_read(path.skip(1), rest, line.push(path[0]));
        assert(line.push(path[0]) + path.skip(1) =~= line + path);
    }
}

proof fn lemma_joined_lines(recent: Seq<Seq<char>>, tail: Seq<char>, extra: Seq<Seq<char>>)
    requires
        recent.len() > 0,
        forall|i: int| 0 <= i < recent.len() ==> one_line(#[trigger] recent[i]),
        tail.len() == 0 && extra.len() == 0 || (tail.len() > 0 && tail[0] == '\n' && lines_from(
            tail.skip(1),
            Seq::empty(),
        ) == extra),
    ensures
        lines_from(joined_paths(recent) + tail, Seq::empty()) == recent + extra,
    decreases recent.len(),
{
    let last = recent.last();
    assert(one_line(recent[recent.len() - 1]));
    // The end of the list, read with nothing before it.
    lemma_lines_read(last, tail, Seq::empty());
    assert(Seq::<char>::empty() + last =~= last);
    assert(without_return(last) == last);
    assert(lines_from(last + tail, Seq::empty()) =~= seq![last] + extra);
    if recent.len() == 1 {
        assert(recent =~= seq![last]);
    } else {
        let front = recent.drop_last();
        let next = seq!['\n'] + (last + tail);
        assert(next.skip(1) =~= last + tail);
        assert forall|i: int| 0 <= i < front.len() implies one_line(#[trigger] front[i]) by {
            assert(front[i] == recent[i]);
        }
        lemma_joined_lines(front, next, seq![last] + extra);
        assert(joined_paths(recent) + tail =~= joined_paths(front) + next);
        assert(front + (seq![last] + extra) =~= recent + extra);
    }
}

/// The list that was kept is the list that comes back, where each path fits on a line.
pub proof fn law_recent_profiles_come_back(recent: Seq<Seq<char>>)
    requires
        forall|i: int| 0 <= i < recent.len() ==> one_line(#[trigger] recent[i]),
    ensures
        lines_from(joined_paths(recent), Seq::empty()) == recent,
{
    if recent.len() > 0 {
        lemma_joined_lines(recent, Seq::empty(), Seq::empty());
        assert(joined_paths(recent) + Seq::<char>::empty() =~= joined_paths(recent));
        assert(recent + Seq::<Seq<char>>::empty() =~= recent);
    } else {
        assert(recent =~= Seq::<Seq<char>>::empty());
    }
}

/// Whether the dark theme was kept as the preference.
pub fn dark_preference(stored: Option<&str>) -> (r: bool)
    ensures
        r == match stored {
            Some(text) => text@ == "true"@,
            None => false,
        },
{
    match stored {
        Some(text) => same_text(text, "true"),
        None => false,
    }
}

/// What a profile is called in the menu: its file name, or else its path.
pub fn recent_label(file_name: Option<&str>, path: Option<&str>) -> (r: String)
    ensures
        r@ == match (file_name, path) {
            (Some(name), _) => name@,
            (None, Some(path)) => path@,
            (None, None) => "profile"@,
        },
{
    match (file_name, path) {
        (Some(name), _) => name.to_owned(),
        (None, Some(path)) => path.to_owned(),
        (None, None) => "profile".to_owned(),
    }
}

} // verus!
