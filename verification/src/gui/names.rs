//! Names for new channels.

use vstd::prelude::*;
use vstd::set_lib::*;
use vstd::string::*;

use crate::gui::state::{
    valid_views, views_model, with_name, AppModel, AppState, ChannelView, ViewModel,
};
use crate::gui::widgets::AddKind;
use crate::model::ids::{ChannelId, ChannelName};
use crate::text::{decimal, hex_digit_of, lower, lowered, push_decimal, same_ignoring_case};

verus! {

/// How many names were given out for each kind of channel. A number is never given out
/// again, not even after its channel was removed.
#[derive(Clone, Copy, Debug, PartialEq, Eq, Structural)]
pub struct ChannelSeq {
    pub udp: u32,
    pub tcp: u32,
    pub serial: u32,
}

impl ChannelSeq {
    pub fn new() -> (r: ChannelSeq)
        ensures
            r == (ChannelSeq { udp: 0, tcp: 0, serial: 0 }),
    {
        ChannelSeq { udp: 0, tcp: 0, serial: 0 }
    }

    /// The last number of a kind.
    pub open spec fn at(self, kind: AddKind) -> u32 {
        match kind {
            AddKind::Udp => self.udp,
            AddKind::Tcp => self.tcp,
            AddKind::Serial => self.serial,
        }
    }

    /// The numbers with that of a kind set.
    pub open spec fn with(self, kind: AddKind, n: u32) -> ChannelSeq {
        match kind {
            AddKind::Udp => ChannelSeq { udp: n, ..self },
            AddKind::Tcp => ChannelSeq { tcp: n, ..self },
            AddKind::Serial => ChannelSeq { serial: n, ..self },
        }
    }

    fn get(&self, kind: AddKind) -> (r: u32)
        ensures
            r == self.at(kind),
    {
        match kind {
            AddKind::Udp => self.udp,
            AddKind::Tcp => self.tcp,
            AddKind::Serial => self.serial,
        }
    }

    fn set(&mut self, kind: AddKind, n: u32)
        ensures
            *final(self) == old(self).with(kind, n),
    {
        match kind {
            AddKind::Udp => {
                self.udp = n;
            },
            AddKind::Tcp => {
                self.tcp = n;
            },
            AddKind::Serial => {
                self.serial = n;
            },
        }
    }
}

/// A channel has this name, up to the case of ASCII letters.
pub open spec fn name_taken(views: Seq<ViewModel>, name: Seq<char>) -> bool {
    exists|i: int| 0 <= i < views.len() && lowered((#[trigger] views[i]).name) == lowered(name)
}

/// A channel other than `id` has this name, up to the case of ASCII letters.
pub open spec fn name_taken_by_other(views: Seq<ViewModel>, id: ChannelId, name: Seq<char>) -> bool {
    exists|i: int|
        0 <= i < views.len() && (#[trigger] views[i]).id != id && lowered(views[i].name)
            == lowered(name)
}

/// Whether a channel other than `id` has this name.
pub fn is_duplicate_name(state: &AppState, id: ChannelId, name: &str) -> (r: bool)
    ensures
        r == name_taken_by_other(state@.views, id, name@),
{
    let views: &[ChannelView] = state.channels();
    let mut i: usize = 0;
    while i < views.len()
        invariant
            i <= views.len(),
            views_model(views@) == state@.views,
            forall|j: int|
                0 <= j < i ==> (#[trigger] state@.views[j]).id == id || lowered(state@.views[j].name)
                    != lowered(name@),
        decreases views.len() - i,
    {
        assert(state@.views[i as int] == views@[i as int]@);
        if views[i].id != id && same_ignoring_case(views[i].name.as_str(), name) {
            return true;
        }
        i = i + 1;
    }
    false
}

/// Whether a channel has this name.
fn is_taken(state: &AppState, name: &str) -> (r: bool)
    ensures
        r == name_taken(state@.views, name@),
{
    let views: &[ChannelView] = state.channels();
    let mut i: usize = 0;
    while i < views.len()
        invariant
            i <= views.len(),
            views_model(views@) == state@.views,
            forall|j: int|
                0 <= j < i ==> lowered((#[trigger] state@.views[j]).name) != lowered(name@),
        decreases views.len() - i,
    {
        assert(state@.views[i as int] == views@[i as int]@);
        if same_ignoring_case(views[i].name.as_str(), name) {
            return true;
        }
        i = i + 1;
    }
    false
}

/// The name with a number.
pub open spec fn numbered(base: Seq<char>, n: int) -> Seq<char> {
    base + decimal(n as nat)
}

/// The first number above `from` whose name is free.
pub open spec fn is_next_number(views: Seq<ViewModel>, base: Seq<char>, from: u32, n: u32) -> bool {
    &&& from < n
    &&& !name_taken(views, numbered(base, n as int))
    &&& forall|m: int| from < m < n ==> name_taken(views, #[trigger] numbered(base, m))
}

proof fn lemma_decimal_injective(a: nat, b: nat)
    requires
        decimal(a) == decimal(b),
    ensures
        a == b,
    decreases a,
{
    assert(decimal(a).last() == hex_digit_of(a as int % 10));
    assert(decimal(b).last() == hex_digit_of(b as int % 10));
    assert(a % 10 == b % 10);
    lemma_decimal_is_long(a);
    lemma_decimal_is_long(b);
    if a >= 10 {
        assert(decimal(a).drop_last() =~= decimal(a / 10));
        assert(decimal(b).drop_last() =~= decimal(b / 10));
        lemma_decimal_injective(a / 10, b / 10);
    }
}

proof fn lemma_decimal_is_long(a: nat)
    ensures
        decimal(a).len() >= 1,
        decimal(a).len() == 1 <==> a < 10,
        forall|i: int| 0 <= i < decimal(a).len() ==> '0' <= #[trigger] decimal(a)[i] <= '9',
    decreases a,
{
    if a >= 10 {
        lemma_decimal_is_long(a / 10);
    }
}

proof fn lemma_numbered_injective(base: Seq<char>, a: nat, b: nat)
    requires
        lowered(numbered(base, a as int)) == lowered(numbered(base, b as int)),
    ensures
        a == b,
{
    lemma_decimal_is_long(a);
    lemma_decimal_is_long(b);
    let x = lowered(numbered(base, a as int));
    let y = lowered(numbered(base, b as int));
    assert(x.len() == base.len() + decimal(a).len());
    assert(y.len() == base.len() + decimal(b).len());
    assert forall|i: int| 0 <= i < decimal(a).len() implies decimal(a)[i] == decimal(b)[i] by {
        let k = base.len() + i;
        assert(x[k] == lower(decimal(a)[i]));
        assert(y[k] == lower(decimal(b)[i]));
    }
    assert(decimal(a) =~= decimal(b));
    lemma_decimal_injective(a, b);
}

/// Which channel has the name with a number.
spec fn holder(views: Seq<ViewModel>, base: Seq<char>, n: int) -> int {
    choose|i: int|
        0 <= i < views.len() && lowered((#[trigger] views[i]).name) == lowered(numbered(base, n))
}

/// More numbers in a row than there are channels cannot all be taken.
proof fn lemma_some_number_is_free(views: Seq<ViewModel>, base: Seq<char>, from: nat, count: nat)
    requires
        forall|m: int| from < m <= from + count ==> name_taken(views, #[trigger] numbered(base, m)),
    ensures
        count <= views.len(),
{
    let holders = Seq::new(count, |k: int| holder(views, base, from + 1 + k));
    assert forall|k: int| 0 <= k < count implies 0 <= #[trigger] holders[k] < views.len() && lowered(
        views[holders[k]].name,
    ) == lowered(numbered(base, from + 1 + k)) by {
        assert(name_taken(views, numbered(base, from + 1 + k)));
    }
    assert(holders.no_duplicates()) by {
        assert forall|a: int, b: int| 0 <= a < count && 0 <= b < count && a != b implies holders[a]
            != holders[b] by {
            if holders[a] == holders[b] {
                lemma_numbered_injective(base, (from + 1 + a) as nat, (from + 1 + b) as nat);
            }
        }
    }
    holders.unique_seq_to_set();
    let range = set_int_range(0, views.len() as int);
    lemma_int_range(0, views.len() as int);
    assert(holders.to_set().subset_of(range)) by {
        assert forall|x: int| holders.to_set().contains(x) implies range.contains(x) by {
            assert(holders.contains(x));
            let k = choose|k: int| 0 <= k < holders.len() && holders[k] == x;
            assert(0 <= holders[k] < views.len());
        }
    }
    lemma_len_subset(holders.to_set(), range);
}

/// The next name of a kind: the base with the first number above the last one whose name
/// is free.
pub fn next_channel_name(
    seq: &mut ChannelSeq,
    state: &AppState,
    kind: AddKind,
    base: &str,
) -> (r: ChannelName)
    requires
        old(seq).at(kind) + state@.views.len() < u32::MAX,
    ensures
        is_next_number(state@.views, base@, old(seq).at(kind), final(seq).at(kind)),
        *final(seq) == old(seq).with(kind, final(seq).at(kind)),
        r@ == numbered(base@, final(seq).at(kind) as int),
{
    let from: u32 = seq.get(kind);
    let mut n: u32 = from;
    loop
        invariant
            from <= n,
            n - from <= state@.views.len(),
            from + state@.views.len() < u32::MAX,
            from == old(seq).at(kind),
            *seq == *old(seq),
            forall|m: int|
                from < m <= n ==> name_taken(state@.views, #[trigger] numbered(base@, m)),
        decreases from + state@.views.len() - n,
    {
        n = n + 1;
        let mut candidate: String = base.to_owned();
        push_decimal(&mut candidate, n as u64);
        assert(candidate@ == numbered(base@, n as int));
        if !is_taken(state, candidate.as_str()) {
            seq.set(kind, n);
            return ChannelName::new(candidate.as_str());
        }
        proof {
            lemma_some_number_is_free(state@.views, base@, from as nat, (n - from) as nat);
        }
    }
}

/// Numbers are never given out again, and each kind counts on its own.
pub proof fn law_numbers_only_grow(
    views: Seq<ViewModel>,
    base: Seq<char>,
    seq: ChannelSeq,
    kind: AddKind,
    other: AddKind,
    n: u32,
)
    requires
        is_next_number(views, base, seq.at(kind), n),
    ensures
        seq.with(kind, n).at(kind) > seq.at(kind),
        other != kind ==> seq.with(kind, n).at(other) == seq.at(other),
        !name_taken(views, numbered(base, n as int)),
{
}

/// No two channels share a name, up to the case of ASCII letters.
pub open spec fn names_unique(views: Seq<ViewModel>) -> bool {
    forall|i: int, j: int|
        0 <= i < views.len() && 0 <= j < views.len() && lowered((#[trigger] views[i]).name)
            == lowered((#[trigger] views[j]).name) ==> i == j
}

/// A rename to a name that no other channel has keeps names unique.
pub proof fn law_renames_keep_names_unique(app: AppModel, id: ChannelId, name: Seq<char>)
    requires
        valid_views(app.views),
        names_unique(app.views),
        !name_taken_by_other(app.views, id, name),
    ensures
        names_unique(with_name(app, id, name).views),
{
    let before = app.views;
    let after = with_name(app, id, name).views;
    assert forall|i: int, j: int|
        0 <= i < after.len() && 0 <= j < after.len() && lowered((#[trigger] after[i]).name)
            == lowered((#[trigger] after[j]).name) implies i == j by {
        assert(after[i].id == before[i].id && after[j].id == before[j].id);
        if before[i].id == id && before[j].id == id {
            assert(before[i].id == before[j].id);
        } else if before[i].id == id {
            assert(before[j].id != id && lowered(before[j].name) == lowered(name));
        } else if before[j].id == id {
            assert(before[i].id != id && lowered(before[i].name) == lowered(name));
        } else {
            assert(lowered(before[i].name) == lowered(before[j].name));
        }
    }
}

/// A channel that is added under a free name keeps names unique.
pub proof fn law_free_names_keep_names_unique(views: Seq<ViewModel>, v: ViewModel)
    requires
        names_unique(views),
        !name_taken(views, v.name),
    ensures
        names_unique(views.push(v)),
{
    let after = views.push(v);
    assert forall|i: int, j: int|
        0 <= i < after.len() && 0 <= j < after.len() && lowered((#[trigger] after[i]).name)
            == lowered((#[trigger] after[j]).name) implies i == j by {
        if i < views.len() && j < views.len() {
            assert(views[i] == after[i] && views[j] == after[j]);
        } else if i < views.len() {
            assert(views[i] == after[i]);
        } else if j < views.len() {
            assert(views[j] == after[j]);
        }
    }
}

} // verus!
