//! What decoders say of a message.

use vstd::prelude::*;
use vstd::string::*;

use crate::text::chars_of;

verus! {

/// Identifies a decoder protocol.
#[derive(Clone, Copy, Debug, PartialEq, Eq, Structural)]
#[non_exhaustive]
pub enum ProtocolId {
    Nmea0183,
}

/// Whether an integrity field covers protocol framing or payload contents.
#[derive(Clone, Copy, Debug, PartialEq, Eq, Structural)]
pub enum IntegrityScope {
    Protocol,
    Payload,
}

/// Result of validating an integrity field.
#[derive(Clone, Copy, Debug, PartialEq, Eq, Structural)]
pub enum IntegrityStatus {
    NotPresent,
    Valid,
    Invalid,
    NotChecked,
    DecoderError,
}

/// One integrity check's scope, outcome and algorithm name.
#[derive(Clone, Debug, PartialEq, Eq)]
pub struct IntegrityMetadata {
    pub scope: IntegrityScope,
    pub status: IntegrityStatus,
    /// `None` when no integrity field is present.
    pub algorithm: Option<String>,
}

/// Named values, in the order of their names. A name occurs at most once.
#[derive(Debug, PartialEq, Eq)]
pub struct Attributes {
    entries: Vec<(String, String)>,
}

/// The text `a` stands before `b`: at the first difference it has the lower character, or
/// it ends.
pub open spec fn text_before(a: Seq<char>, b: Seq<char>) -> bool
    decreases a.len(),
{
    if b.len() == 0 {
        false
    } else if a.len() == 0 {
        true
    } else if a[0] != b[0] {
        a[0] < b[0]
    } else {
        text_before(a.skip(1), b.skip(1))
    }
}

/// The names grow from entry to entry.
pub open spec fn in_name_order(pairs: Seq<(String, String)>) -> bool {
    forall|i: int, j: int|
        0 <= i < j < pairs.len() ==> text_before(
            (#[trigger] pairs[i]).0@,
            (#[trigger] pairs[j]).0@,
        )
}

/// The last value given to each name.
pub open spec fn pairs_map(pairs: Seq<(String, String)>) -> Map<Seq<char>, Seq<char>>
    decreases pairs.len(),
{
    if pairs.len() == 0 {
        Map::empty()
    } else {
        pairs_map(pairs.drop_last()).insert(pairs.last().0@, pairs.last().1@)
    }
}

proof fn lemma_before_itself(a: Seq<char>)
    ensures
        !text_before(a, a),
    decreases a.len(),
{
    if a.len() > 0 {
        lemma_before_itself(a.skip(1));
    }
}

proof fn lemma_before_transitive(a: Seq<char>, b: Seq<char>, c: Seq<char>)
    requires
        text_before(a, b),
        text_before(b, c),
    ensures
        text_before(a, c),
    decreases a.len(),
{
    if a.len() > 0 && a[0] == b[0] && b[0] == c[0] {
        lemma_before_transitive(a.skip(1), b.skip(1), c.skip(1));
    }
}

proof fn lemma_before_total(a: Seq<char>, b: Seq<char>)
    ensures
        text_before(a, b) || a == b || text_before(b, a),
    decreases a.len(),
{
    if a.len() == 0 && b.len() == 0 {
        assert(a =~= b);
    } else if a.len() > 0 && b.len() > 0 && a[0] == b[0] {
        lemma_before_total(a.skip(1), b.skip(1));
        if a.skip(1) == b.skip(1) {
            assert(a =~= seq![a[0]] + a.skip(1));
            assert(b =~= seq![b[0]] + b.skip(1));
        }
    }
}

/// A pair in the middle, whose name no later entry has, is a pair at the end.
proof fn lemma_pair_within(
    front: Seq<(String, String)>,
    pair: (String, String),
    back: Seq<(String, String)>,
)
    requires
        forall|i: int| 0 <= i < back.len() ==> (#[trigger] back[i]).0@ != pair.0@,
    ensures
        pairs_map(front.push(pair) + back) == pairs_map(front + back).insert(pair.0@, pair.1@),
    decreases back.len(),
{
    if back.len() == 0 {
        assert(front.push(pair) + back =~= front.push(pair));
        assert(front + back =~= front);
        assert(front.push(pair).drop_last() =~= front);
    } else {
        let less = back.drop_last();
        let last = back.last();
        assert(last == back[back.len() - 1]);
        assert forall|i: int| 0 <= i < less.len() implies (#[trigger] less[i]).0@ != pair.0@ by {
            assert(less[i] == back[i]);
        }
        lemma_pair_within(front, pair, less);
        assert((front.push(pair) + back).drop_last() =~= front.push(pair) + less);
        assert((front + back).drop_last() =~= front + less);
        assert(pairs_map(front.push(pair) + back) =~= pairs_map(front + back).insert(
            pair.0@,
            pair.1@,
        ));
    }
}

/// A value given anew takes the place of the one before.
proof fn lemma_pair_replaced(
    front: Seq<(String, String)>,
    old_pair: (String, String),
    pair: (String, String),
    back: Seq<(String, String)>,
)
    requires
        old_pair.0@ == pair.0@,
        forall|i: int| 0 <= i < back.len() ==> (#[trigger] back[i]).0@ != pair.0@,
    ensures
        pairs_map(front.push(pair) + back) == pairs_map(front.push(old_pair) + back).insert(
            pair.0@,
            pair.1@,
        ),
{
    lemma_pair_within(front, pair, back);
    lemma_pair_within(front, old_pair, back);
    assert(pairs_map(front.push(pair) + back) =~= pairs_map(front.push(old_pair) + back).insert(
        pair.0@,
        pair.1@,
    ));
}

/// Whether the text `a` stands before `b`.
fn is_before(a: &str, b: &str) -> (r: bool)
    ensures
        r == text_before(a@, b@),
{
    let p: Vec<char> = chars_of(a);
    let q: Vec<char> = chars_of(b);
    let mut i: usize = 0;
    assert(p@.skip(0) =~= a@);
    assert(q@.skip(0) =~= b@);
    while i < p.len() && i < q.len() && p[i] == q[i]
        invariant
            i <= p.len(),
            i <= q.len(),
            text_before(a@, b@) == text_before(p@.skip(i as int), q@.skip(i as int)),
        decreases p.len() - i,
    {
        assert(p@.skip(i as int)[0] == p@[i as int]);
        assert(q@.skip(i as int)[0] == q@[i as int]);
        assert(p@.skip(i as int).skip(1) =~= p@.skip(i + 1));
        assert(q@.skip(i as int).skip(1) =~= q@.skip(i + 1));
        i = i + 1;
    }
    proof {
        if i < p.len() && i < q.len() {
            assert(p@.skip(i as int)[0] == p@[i as int]);
            assert(q@.skip(i as int)[0] == q@[i as int]);
        }
    }
    if i >= q.len() {
        false
    } else if i >= p.len() {
        true
    } else {
        p[i] < q[i]
    }
}

/// Both lists say the same.
pub open spec fn same_pairs(a: Seq<(String, String)>, b: Seq<(String, String)>) -> bool {
    &&& a.len() == b.len()
    &&& forall|i: int|
        0 <= i < a.len() ==> (#[trigger] a[i]).0@ == b[i].0@ && a[i].1@ == b[i].1@
}

proof fn lemma_same_pairs(a: Seq<(String, String)>, b: Seq<(String, String)>)
    requires
        same_pairs(a, b),
    ensures
        pairs_map(a) == pairs_map(b),
    decreases a.len(),
{
    if a.len() > 0 {
        assert forall|i: int| 0 <= i < a.drop_last().len() implies (
        #[trigger] a.drop_last()[i]).0@ == b.drop_last()[i].0@ && a.drop_last()[i].1@
            == b.drop_last()[i].1@ by {
            assert(a.drop_last()[i] == a[i]);
        }
        lemma_same_pairs(a.drop_last(), b.drop_last());
        assert(a.last() == a[a.len() - 1]);
    }
}

/// A key is the name of an entry.
proof fn lemma_key(pairs: Seq<(String, String)>, name: Seq<char>) -> (at: int)
    requires
        pairs_map(pairs).contains_key(name),
    ensures
        0 <= at < pairs.len(),
        pairs[at].0@ == name,
    decreases pairs.len(),
{
    if pairs.last().0@ == name {
        pairs.len() - 1
    } else {
        lemma_key(pairs.drop_last(), name)
    }
}

/// Without its last entry a list holds the other names.
proof fn lemma_without_last(pairs: Seq<(String, String)>)
    requires
        pairs.len() > 0,
        in_name_order(pairs),
    ensures
        in_name_order(pairs.drop_last()),
        pairs_map(pairs.drop_last()) == pairs_map(pairs).remove(pairs.last().0@),
{
    let front = pairs.drop_last();
    let name = pairs.last().0@;
    assert forall|i: int, j: int| 0 <= i < j < front.len() implies text_before(
        (#[trigger] front[i]).0@,
        (#[trigger] front[j]).0@,
    ) by {
        assert(text_before(pairs[i].0@, pairs[j].0@));
    }
    if pairs_map(front).contains_key(name) {
        let at = lemma_key(front, name);
        assert(text_before(pairs[at].0@, pairs[pairs.len() - 1].0@));
        lemma_before_itself(name);
    }
    assert(pairs_map(front) =~= pairs_map(pairs).remove(name));
}

/// Names in order have one list: attributes that map the same names to the same values
/// have the same entries.
pub proof fn law_same_map_same_entries(a: Seq<(String, String)>, b: Seq<(String, String)>)
    requires
        in_name_order(a),
        in_name_order(b),
        pairs_map(a) == pairs_map(b),
    ensures
        same_pairs(a, b),
    decreases a.len(),
{
    if a.len() == 0 {
        if b.len() > 0 {
            assert(pairs_map(a).contains_key(b.last().0@));
        }
    } else {
        let k = a.last().0@;
        assert(pairs_map(b).contains_key(k));
        let i = lemma_key(b, k);
        let m = b.last().0@;
        assert(pairs_map(a).contains_key(m));
        let j = lemma_key(a, m);
        if k != m {
            assert(text_before(b[i].0@, b[b.len() - 1].0@));
            assert(text_before(a[j].0@, a[a.len() - 1].0@));
            lemma_before_transitive(k, m, k);
            lemma_before_itself(k);
        }
        assert(pairs_map(a)[k] == a.last().1@ && pairs_map(b)[k] == b.last().1@);
        lemma_without_last(a);
        lemma_without_last(b);
        law_same_map_same_entries(a.drop_last(), b.drop_last());
        assert forall|n: int| 0 <= n < a.len() implies (#[trigger] a[n]).0@ == b[n].0@ && a[n].1@
            == b[n].1@ by {
            if n < a.len() - 1 {
                assert(a.drop_last()[n] == a[n] && b.drop_last()[n] == b[n]);
            }
        }
    }
}

impl Clone for Attributes {
    fn clone(&self) -> (r: Attributes)
        ensures
            r.map() == self.map(),
    {
        proof {
            use_type_invariant(self);
        }
        let mut entries: Vec<(String, String)> = Vec::new();
        let mut i: usize = 0;
        while i < self.entries.len()
            invariant
                i <= self.entries.len(),
                same_pairs(entries@, self.entries@.take(i as int)),
            decreases self.entries.len() - i,
        {
            entries.push((self.entries[i].0.clone(), self.entries[i].1.clone()));
            i = i + 1;
        }
        proof {
            assert(self.entries@.take(i as int) =~= self.entries@);
            lemma_same_pairs(entries@, self.entries@);
            assert forall|i: int, j: int| 0 <= i < j < entries@.len() implies text_before(
                (#[trigger] entries@[i]).0@,
                (#[trigger] entries@[j]).0@,
            ) by {
                assert(text_before(self.entries@[i].0@, self.entries@[j].0@));
            }
        }
        Attributes { entries }
    }
}

impl Attributes {
    /// The names and their values.
    pub closed spec fn map(self) -> Map<Seq<char>, Seq<char>> {
        pairs_map(self.entries@)
    }

    #[verifier::type_invariant]
    spec fn ordered(self) -> bool {
        in_name_order(self.entries@)
    }

    pub fn new() -> (r: Attributes)
        ensures
            r.map() == Map::<Seq<char>, Seq<char>>::empty(),
    {
        Attributes { entries: Vec::new() }
    }

    /// All names with their values, in the order of the names.
    pub fn entries(&self) -> (r: &Vec<(String, String)>)
        ensures
            in_name_order(r@),
            pairs_map(r@) == self.map(),
    {
        proof {
            use_type_invariant(self);
        }
        &self.entries
    }

    /// Gives `name` the value `value`, in place of the one that it had.
    pub fn insert(&mut self, name: String, value: String)
        ensures
            final(self).map() == old(self).map().insert(name@, value@),
    {
        proof {
            use_type_invariant(&*self);
        }
        let mut taken: Attributes = Attributes::new();
        core::mem::swap(&mut taken, self);
        let mut entries: Vec<(String, String)> = taken.entries;
        let ghost was = entries@;
        let mut at: usize = 0;
        while at < entries.len() && is_before(entries[at].0.as_str(), name.as_str())
            invariant
                at <= entries.len(),
                entries@ == was,
                forall|j: int| 0 <= j < at ==> text_before((#[trigger] was[j]).0@, name@),
            decreases entries.len() - at,
        {
            at = at + 1;
        }
        let ghost pair = (name, value);
        let ghost front = was.take(at as int);
        if at < entries.len() && !is_before(name.as_str(), entries[at].0.as_str()) {
            proof {
                lemma_before_total(was[at as int].0@, name@);
                let back = was.skip(at + 1);
                let next = was.update(at as int, pair);
                assert forall|i: int| 0 <= i < back.len() implies (#[trigger] back[i]).0@
                    != name@ by {
                    lemma_before_itself(name@);
                    assert(back[i] == was[at + 1 + i]);
                    assert(text_before(was[at as int].0@, was[at + 1 + i].0@));
                }
                lemma_pair_replaced(front, was[at as int], pair, back);
                assert(front.push(pair) + back =~= next);
                assert(front.push(was[at as int]) + back =~= was);
                assert forall|i: int, j: int| 0 <= i < j < next.len() implies text_before(
                    (#[trigger] next[i]).0@,
                    (#[trigger] next[j]).0@,
                ) by {
                    assert(text_before(was[i].0@, was[j].0@));
                }
            }
            entries.set(at, (name, value));
        } else {
            proof {
                let back = was.skip(at as int);
                let next = was.insert(at as int, pair);
                assert forall|i: int| 0 <= i < back.len() implies text_before(
                    name@,
                    (#[trigger] back[i]).0@,
                ) by {
                    assert(back[i] == was[at + i]);
                    if i > 0 {
                        assert(text_before(was[at as int].0@, was[at + i].0@));
                        lemma_before_transitive(name@, was[at as int].0@, was[at + i].0@);
                    }
                }
                assert forall|i: int| 0 <= i < back.len() implies (#[trigger] back[i]).0@
                    != name@ by {
                    lemma_before_itself(name@);
                }
                lemma_pair_within(front, pair, back);
                assert(front.push(pair) + back =~= next);
                assert(front + back =~= was);
                assert forall|i: int, j: int| 0 <= i < j < next.len() implies text_before(
                    (#[trigger] next[i]).0@,
                    (#[trigger] next[j]).0@,
                ) by {
                    if i < at && j == at {
                        assert(text_before(was[i].0@, name@));
                    } else if i == at {
                        assert(next[j] == back[j - 1 - at]);
                    } else if j < at {
                        assert(text_before(was[i].0@, was[j].0@));
                    } else if i < at {
                        assert(text_before(was[i].0@, was[j - 1].0@));
                    } else {
                        assert(text_before(was[i - 1].0@, was[j - 1].0@));
                    }
                }
            }
            entries.insert(at, (name, value));
        }
        *self = Attributes { entries };
    }

    /// The value of `name`.
    pub fn get(&self, name: &str) -> (r: Option<&String>)
        ensures
            r is Some <==> self.map().contains_key(name@),
            r matches Some(value) ==> value@ == self.map()[name@],
    {
        let wanted: String = name.to_owned();
        let mut i: usize = self.entries.len();
        assert(self.entries@.take(i as int) =~= self.entries@);
        while i > 0
            invariant
                i <= self.entries.len(),
                wanted@ == name@,
                self.map().contains_key(name@) == pairs_map(
                    self.entries@.take(i as int),
                ).contains_key(name@),
                self.map()[name@] == pairs_map(self.entries@.take(i as int))[name@],
            decreases i,
        {
            let ghost here = self.entries@.take(i as int);
            assert(here.drop_last() =~= self.entries@.take(i - 1));
            assert(here.last() == self.entries@[i - 1]);
            if self.entries[i - 1].0 == wanted {
                return Some(&self.entries[i - 1].1);
            }
            i = i - 1;
        }
        None
    }
}

/// What one integrity check says.
pub ghost struct Check {
    pub scope: IntegrityScope,
    pub status: IntegrityStatus,
    pub algorithm: Option<Seq<char>>,
}

/// The text of an optional string.
pub open spec fn optional_text(t: Option<String>) -> Option<Seq<char>> {
    match t {
        Some(s) => Some(s@),
        None => None,
    }
}

impl View for IntegrityMetadata {
    type V = Check;

    open spec fn view(&self) -> Check {
        Check {
            scope: self.scope,
            status: self.status,
            algorithm: optional_text(self.algorithm),
        }
    }
}

/// What protocol metadata says.
pub ghost struct Identity {
    pub protocol: ProtocolId,
    pub message_type: Option<Seq<char>>,
    pub integrity: Seq<Check>,
    pub attributes: Map<Seq<char>, Seq<char>>,
}

impl View for ProtocolMetadata {
    type V = Identity;

    open spec fn view(&self) -> Identity {
        Identity {
            protocol: self.protocol,
            message_type: optional_text(self.message_type),
            integrity: self.integrity@.map_values(|c: IntegrityMetadata| c@),
            attributes: self.attributes.map(),
        }
    }
}

/// What a decoder says of a message.
#[derive(Clone, Debug)]
pub struct ProtocolMetadata {
    pub protocol: ProtocolId,
    pub message_type: Option<String>,
    pub integrity: Vec<IntegrityMetadata>,
    pub attributes: Attributes,
}

} // verus!
