//! Abstract syntax of the pattern language: pattern variables, the boolean
//! algebra over labels, simple and property-record types, descriptors, node
//! and path patterns, and filter expressions. Every executable tree type has a
//! mathematical view used by the contracts of the parser and the renderer.
use vstd::prelude::*;

use crate::order::lex_lt;

verus! {

/// An identifier naming a pattern variable or an attribute.
#[derive(Debug, PartialEq, Eq)]
pub struct Var(pub String);

impl View for Var {
    type V = Seq<char>;

    open spec fn view(&self) -> Seq<char> {
        self.0@
    }
}

/// Mathematical model of a label expression.
pub enum LabelV {
    Label(Seq<char>),
    Star,
    And(Box<LabelV>, Box<LabelV>),
    Or(Box<LabelV>, Box<LabelV>),
}

/// A boolean algebra over label names: a single label, the wildcard `*`
/// matching any label, and conjunction / disjunction of label expressions.
/// No normalization is performed; `And(And(a, b), c)` and `And(a, And(b, c))`
/// are distinct trees.
#[derive(Debug, PartialEq, Eq)]
pub enum LabelType {
    Label(String),
    Star,
    And(Box<LabelType>, Box<LabelType>),
    Or(Box<LabelType>, Box<LabelType>),
}

pub open spec fn label_view(l: &LabelType) -> LabelV
    decreases l,
{
    match l {
        LabelType::Label(s) => LabelV::Label(s@),
        LabelType::Star => LabelV::Star,
        LabelType::And(a, b) => LabelV::And(Box::new(label_view(a)), Box::new(label_view(b))),
        LabelType::Or(a, b) => LabelV::Or(Box::new(label_view(a)), Box::new(label_view(b))),
    }
}

impl View for LabelType {
    type V = LabelV;

    open spec fn view(&self) -> LabelV {
        label_view(self)
    }
}

/// One of the three base property types. A closed enumeration.
#[derive(Debug, PartialEq, Eq, Clone, Copy)]
pub enum BaseType {
    Int,
    Bool,
    String,
}

/// A base type or the wildcard `*` matching any base type.
#[derive(Debug, PartialEq, Eq, Clone, Copy)]
pub enum SimpleType {
    Base(BaseType),
    Star,
}

/// One property of a record: a name bound to a simple type.
#[derive(Debug, PartialEq, Eq)]
pub struct PropEntry {
    pub key: String,
    pub value: SimpleType,
}

impl View for PropEntry {
    type V = (Seq<char>, SimpleType);

    open spec fn view(&self) -> (Seq<char>, SimpleType) {
        (self.key@, self.value)
    }
}

/// Entries are strictly ascending in their keys: each key occurs once and the
/// stored order is the canonical (lexicographic) one.
pub open spec fn entries_sorted(s: Seq<(Seq<char>, SimpleType)>) -> bool {
    forall|i: int, j: int| 0 <= i < j < s.len() ==> lex_lt(#[trigger] s[i].0, #[trigger] s[j].0)
}

/// The finite map that an entry sequence stands for.
pub open spec fn entries_map(s: Seq<(Seq<char>, SimpleType)>) -> Map<Seq<char>, SimpleType>
    decreases s.len(),
{
    if s.len() == 0 {
        Map::empty()
    } else {
        entries_map(s.drop_first()).insert(s[0].0, s[0].1)
    }
}

/// What inserting a key into a sorted entry sequence yields: the entry is
/// placed at its ordered position, and an entry with the same key is replaced
/// (a duplicate key in a record literal is resolved last-write-wins).
pub open spec fn entries_insert(
    s: Seq<(Seq<char>, SimpleType)>,
    k: Seq<char>,
    v: SimpleType,
) -> Seq<(Seq<char>, SimpleType)>
    decreases s.len(),
{
    if s.len() == 0 {
        seq![(k, v)]
    } else if lex_lt(k, s[0].0) {
        seq![(k, v)] + s
    } else if k == s[0].0 {
        seq![(k, v)] + s.drop_first()
    } else {
        seq![s[0]] + entries_insert(s.drop_first(), k, v)
    }
}

/// A property map: property names bound to simple types, with each name
/// occurring at most once. Entries are kept sorted by name, so two maps with
/// the same bindings are structurally equal whatever the input order was.
#[derive(Debug, PartialEq, Eq)]
pub struct PropMap {
    entries: Vec<PropEntry>,
}

impl View for PropMap {
    type V = Seq<(Seq<char>, SimpleType)>;

    closed spec fn view(&self) -> Seq<(Seq<char>, SimpleType)> {
        self.entries@.map_values(|e: PropEntry| e@)
    }
}

impl PropMap {
    pub open spec fn wf(&self) -> bool {
        entries_sorted(self@)
    }

    /// The empty property map.
    pub fn new() -> (r: PropMap)
        ensures
            r@ == Seq::<(Seq<char>, SimpleType)>::empty(),
            r.wf(),
    {
        let r = PropMap { entries: Vec::new() };
        proof {
            assert(r@ =~= Seq::<(Seq<char>, SimpleType)>::empty());
        }
        r
    }

    /// How many properties the map holds.
    pub fn len(&self) -> (r: usize)
        ensures
            r == self@.len(),
    {
        self.entries.len()
    }

    /// Whether the map holds no properties.
    pub fn is_empty(&self) -> (r: bool)
        ensures
            r == (self@.len() == 0),
    {
        self.entries.len() == 0
    }

    /// The entries in their canonical order.
    pub fn entries(&self) -> (r: &Vec<PropEntry>)
        ensures
            r@.map_values(|e: PropEntry| e@) == self@,
    {
        &self.entries
    }

    /// Looks a property name up, returning its type if the name is bound.
    pub fn get(&self, key: &str) -> (r: Option<SimpleType>)
        ensures
            r == (if entries_map(self@).dom().contains(key@) {
                Some(entries_map(self@)[key@])
            } else {
                None::<SimpleType>
            }),
    {
        let n = self.entries.len();
        let mut i: usize = 0;
        proof {
            assert(self@.skip(0) =~= self@);
        }
        loop
            invariant
                i <= n,
                n == self@.len(),
                forall|k: int| 0 <= k < i ==> self@[k].0 != key@,
                entries_map(self@).dom().contains(key@) == entries_map(
                    self@.skip(i as int),
                ).dom().contains(key@),
                entries_map(self@).dom().contains(key@) ==> entries_map(self@)[key@]
                    == entries_map(self@.skip(i as int))[key@],
            decreases n - i,
        {
            if i == n {
                proof {
                    assert(self@.skip(i as int).len() == 0);
                    assert(!entries_map(self@.skip(i as int)).dom().contains(key@));
                }
                return None;
            }
            let e = &self.entries[i];
            proof {
                assert(self@[i as int] == e@);
            }
            if crate::order::str_eq(e.key.as_str(), key) {
                proof {
                    lemma_entries_map_contains(self@, i as int);
                }
                return Some(e.value);
            }
            proof {
                let s = self@.skip(i as int);
                assert(s[0] == self@[i as int]);
                assert(s.drop_first() =~= self@.skip(i + 1));
                lemma_entries_map_skip_absent(self@, i as int);
            }
            i = i + 1;
        }
    }

    /// Binds a property name to a type, keeping the canonical order. A name
    /// already bound is rebound to the new type.
    pub fn insert(&mut self, key: String, value: SimpleType)
        requires
            old(self).wf(),
        ensures
            final(self)@ == entries_insert(old(self)@, key@, value),
            final(self).wf(),
            entries_map(final(self)@) == entries_map(old(self)@).insert(key@, value),
    {
        let ghost k0 = key@;
        let ghost s0 = self@;
        let n = self.entries.len();
        let mut i: usize = 0;
        loop
            invariant
                i <= n,
                n == self.entries@.len(),
                old(self) == self,
                s0 == self@,
                k0 == key@,
                self.wf(),
                forall|k: int| 0 <= k < i ==> lex_lt(#[trigger] s0[k].0, k0),
            decreases n - i,
        {
            if i == n {
                proof {
                    lemma_entries_insert_sorted(s0, k0, value);
                    lemma_entries_insert_map(s0, k0, value);
                    lemma_entries_insert_splice(s0, k0, value, i as int, false);
                    assert(s0.take(n as int) + seq![(k0, value)] + s0.skip(n as int) =~= s0 + seq![
                        (k0, value),
                    ]);
                }
                self.entries.push(PropEntry { key, value });
                proof {
                    assert(self@ =~= s0 + seq![(k0, value)]);
                }
                return ;
            }
            let cur_lt = {
                let e = &self.entries[i];
                crate::order::str_lt(e.key.as_str(), key.as_str())
            };
            proof {
                assert(self@[i as int] == self.entries@[i as int]@);
            }
            if !cur_lt {
                let e_key_eq = {
                    let e = &self.entries[i];
                    crate::order::str_eq(e.key.as_str(), key.as_str())
                };
                if e_key_eq {
                    proof {
                        lemma_entries_insert_sorted(s0, k0, value);
                        lemma_entries_insert_map(s0, k0, value);
                        lemma_entries_insert_splice(s0, k0, value, i as int, true);
                    }
                    let _ = self.entries.remove(i);
                    self.entries.insert(i, PropEntry { key, value });
                    proof {
                        assert(self@ =~= s0.take(i as int) + seq![(k0, value)] + s0.skip(i + 1));
                    }
                } else {
                    proof {
                        lemma_entries_insert_sorted(s0, k0, value);
                        lemma_entries_insert_map(s0, k0, value);
                        crate::order::lemma_lex_lt_connected(s0[i as int].0, k0);
                        lemma_entries_insert_splice(s0, k0, value, i as int, false);
                    }
                    self.entries.insert(i, PropEntry { key, value });
                    proof {
                        assert(self@ =~= s0.take(i as int) + seq![(k0, value)] + s0.skip(i as int));
                    }
                }
                return ;
            }
            i = i + 1;
        }
    }
}

/// If every key before `i` differs from the key of entry `i`, the map of the
/// whole sequence contains that entry's binding.
pub proof fn lemma_entries_map_contains(s: Seq<(Seq<char>, SimpleType)>, i: int)
    requires
        0 <= i < s.len(),
        forall|k: int| 0 <= k < i ==> s[k].0 != s[i].0,
    ensures
        entries_map(s).dom().contains(s[i].0),
        entries_map(s)[s[i].0] == s[i].1,
    decreases s.len(),
{
    if i == 0 {
    } else {
        assert(s.drop_first()[i - 1] == s[i]);
        lemma_entries_map_contains(s.drop_first(), i - 1);
    }
}

/// Skipping past position `i` unfolds the map one entry at a time: the map of
/// the rest is the map after it with the entry at `i` bound on top.
proof fn lemma_entries_map_skip_absent(s: Seq<(Seq<char>, SimpleType)>, i: int)
    requires
        0 <= i < s.len(),
    ensures
        entries_map(s.skip(i)) == entries_map(s.skip(i + 1)).insert(s[i].0, s[i].1),
{
    let t = s.skip(i);
    assert(t.len() > 0);
    assert(t[0] == s[i]);
    assert(t.drop_first() =~= s.skip(i + 1));
}

/// Inserting preserves the sorted-keys invariant.
pub proof fn lemma_entries_insert_sorted(s: Seq<(Seq<char>, SimpleType)>, k: Seq<char>, v: SimpleType)
    requires
        entries_sorted(s),
    ensures
        entries_sorted(entries_insert(s, k, v)),
    decreases s.len(),
{
    if s.len() == 0 {
    } else if lex_lt(k, s[0].0) {
        let r = seq![(k, v)] + s;
        assert forall|i: int, j: int| 0 <= i < j < r.len() implies lex_lt(r[i].0, r[j].0) by {
            if i == 0 {
                if j > 1 {
                    crate::order::lemma_lex_lt_transitive(k, s[0].0, s[j - 1].0);
                }
            }
        }
    } else if k == s[0].0 {
        let r = seq![(k, v)] + s.drop_first();
        assert forall|i: int, j: int| 0 <= i < j < r.len() implies lex_lt(r[i].0, r[j].0) by {
            assert(r[j] == s[j]);
            if i > 0 {
                assert(r[i] == s[i]);
            }
        }
    } else {
        let tail = s.drop_first();
        assert forall|i: int, j: int| 0 <= i < j < tail.len() implies lex_lt(
            #[trigger] tail[i].0,
            #[trigger] tail[j].0,
        ) by {
            assert(tail[i] == s[i + 1]);
            assert(tail[j] == s[j + 1]);
        }
        lemma_entries_insert_sorted(tail, k, v);
        crate::order::lemma_lex_lt_connected(s[0].0, k);
        let rt = entries_insert(tail, k, v);
        let r = seq![s[0]] + rt;
        lemma_entries_insert_keys(tail, k, v);
        assert forall|i: int, j: int| 0 <= i < j < r.len() implies lex_lt(r[i].0, r[j].0) by {
            if i == 0 {
                // r[j] is either (k, v) or an entry of tail, both above s[0]
                assert(rt.contains(r[j]) || r[j].0 == k) by {
                    assert(r[j] == rt[j - 1]);
                    assert(rt.contains(rt[j - 1]));
                }
                if r[j].0 == k {
                    assert(lex_lt(s[0].0, k));
                } else {
                    assert(exists|m: int| 0 <= m < rt.len() && rt[m] == r[j]);
                    let m = choose|m: int| 0 <= m < rt.len() && rt[m] == r[j];
                    assert(rt[m].0 == k || tail.contains(rt[m]));
                    if tail.contains(rt[m]) {
                        let p = choose|p: int| 0 <= p < tail.len() && tail[p] == rt[m];
                        assert(tail[p] == s[p + 1]);
                        assert(lex_lt(s[0].0, s[p + 1].0));
                    }
                }
            } else {
                assert(r[i] == rt[i - 1]);
                assert(r[j] == rt[j - 1]);
            }
        }
    }
}

/// Every entry of an inserted sequence either carries the inserted key or
/// comes from the original sequence.
pub proof fn lemma_entries_insert_keys(s: Seq<(Seq<char>, SimpleType)>, k: Seq<char>, v: SimpleType)
    requires
        entries_sorted(s),
    ensures
        forall|m: int|
            0 <= m < entries_insert(s, k, v).len() ==> (#[trigger] entries_insert(s, k, v)[m].0
                == k || s.contains(entries_insert(s, k, v)[m])),
    decreases s.len(),
{
    if s.len() == 0 {
    } else if lex_lt(k, s[0].0) {
    } else if k == s[0].0 {
        let r = seq![(k, v)] + s.drop_first();
        assert forall|m: int| 0 <= m < r.len() implies (#[trigger] r[m].0 == k || s.contains(
            r[m],
        )) by {
            if m > 0 {
                assert(r[m] == s[m]);
            }
        }
    } else {
        let tail = s.drop_first();
        assert forall|i: int, j: int| 0 <= i < j < tail.len() implies lex_lt(
            #[trigger] tail[i].0,
            #[trigger] tail[j].0,
        ) by {
            assert(tail[i] == s[i + 1]);
            assert(tail[j] == s[j + 1]);
        }
        lemma_entries_insert_keys(tail, k, v);
        let rt = entries_insert(tail, k, v);
        let r = seq![s[0]] + rt;
        assert forall|m: int| 0 <= m < r.len() implies (#[trigger] r[m].0 == k || s.contains(
            r[m],
        )) by {
            if m == 0 {
                assert(s[0] == r[0]);
            } else {
                assert(r[m] == rt[m - 1]);
                if rt[m - 1].0 != k {
                    assert(tail.contains(rt[m - 1]));
                    let p = choose|p: int| 0 <= p < tail.len() && tail[p] == rt[m - 1];
                    assert(s[p + 1] == tail[p]);
                }
            }
        }
    }
}

/// Inserting into the entry sequence is inserting into the map it stands for.
proof fn lemma_entries_insert_map(s: Seq<(Seq<char>, SimpleType)>, k: Seq<char>, v: SimpleType)
    requires
        entries_sorted(s),
    ensures
        entries_map(entries_insert(s, k, v)) == entries_map(s).insert(k, v),
    decreases s.len(),
{
    if s.len() == 0 {
        let r = seq![(k, v)];
        assert(entries_insert(s, k, v) == r);
        assert(r.len() > 0 && r[0] == (k, v));
        assert(r.drop_first().len() == 0);
        assert(entries_map(r) == entries_map(r.drop_first()).insert(r[0].0, r[0].1));
        assert(entries_map(r.drop_first()) == Map::<Seq<char>, SimpleType>::empty());
        assert(entries_map(s) == Map::<Seq<char>, SimpleType>::empty());
        assert(entries_map(r) == entries_map(s).insert(k, v));
    } else if lex_lt(k, s[0].0) {
        let r = seq![(k, v)] + s;
        assert(entries_insert(s, k, v) == r);
        assert(r.len() > 0 && r[0] == (k, v));
        assert(r.drop_first() =~= s);
        assert(r.drop_first() == s);
        assert(entries_map(r) == entries_map(r.drop_first()).insert(r[0].0, r[0].1));
        assert(entries_map(r.drop_first()) == entries_map(s));
        assert(entries_map(r) == entries_map(s).insert(k, v));
    } else if k == s[0].0 {
        let r = seq![(k, v)] + s.drop_first();
        assert(r.drop_first() =~= s.drop_first());
        assert(entries_map(r) == entries_map(s.drop_first()).insert(k, v));
        assert(entries_map(s) == entries_map(s.drop_first()).insert(s[0].0, s[0].1));
        assert(entries_map(r) =~= entries_map(s).insert(k, v));
    } else {
        let tail = s.drop_first();
        assert forall|i: int, j: int| 0 <= i < j < tail.len() implies lex_lt(
            #[trigger] tail[i].0,
            #[trigger] tail[j].0,
        ) by {
            assert(tail[i] == s[i + 1]);
            assert(tail[j] == s[j + 1]);
        }
        lemma_entries_insert_map(tail, k, v);
        crate::order::lemma_lex_lt_connected(s[0].0, k);
        let rt = entries_insert(tail, k, v);
        let r = seq![s[0]] + rt;
        assert(r.drop_first() =~= rt);
        assert(entries_map(r) == entries_map(rt).insert(s[0].0, s[0].1));
        assert(entries_map(r) == entries_map(tail).insert(k, v).insert(s[0].0, s[0].1));
        assert(k != s[0].0);
        assert(entries_map(tail).insert(k, v).insert(s[0].0, s[0].1) =~= entries_map(tail).insert(
            s[0].0,
            s[0].1,
        ).insert(k, v));
    }
}

/// Where the insertion point `i` is known (all keys before it are below the
/// new key and, unless appending, the key at `i` is not), the inserted
/// sequence is a splice at `i`. `replaces` tells whether the entry at `i`
/// carries the same key and is replaced.
proof fn lemma_entries_insert_splice(
    s: Seq<(Seq<char>, SimpleType)>,
    k: Seq<char>,
    v: SimpleType,
    i: int,
    replaces: bool,
)
    requires
        entries_sorted(s),
        0 <= i <= s.len(),
        forall|m: int| 0 <= m < i ==> lex_lt(#[trigger] s[m].0, k),
        replaces ==> i < s.len() && s[i].0 == k,
        !replaces && i < s.len() ==> lex_lt(k, s[i].0),
    ensures
        replaces ==> entries_insert(s, k, v) == s.take(i) + seq![(k, v)] + s.skip(i + 1),
        !replaces ==> entries_insert(s, k, v) == s.take(i) + seq![(k, v)] + s.skip(i),
    decreases i,
{
    if i == 0 {
        if replaces {
            crate::order::lemma_lex_lt_irreflexive(k);
            assert(entries_insert(s, k, v) == seq![(k, v)] + s.drop_first());
            assert(s.take(0) + seq![(k, v)] + s.skip(1) =~= seq![(k, v)] + s.drop_first());
        } else {
            if s.len() == 0 {
                assert(s.take(0) + seq![(k, v)] + s.skip(0) =~= seq![(k, v)]);
            } else {
                assert(s.take(0) + seq![(k, v)] + s.skip(0) =~= seq![(k, v)] + s);
            }
        }
    } else {
        assert(s.len() > 0);
        assert(lex_lt(s[0].0, k));
        crate::order::lemma_lex_lt_asymmetric(s[0].0, k);
        let tail = s.drop_first();
        assert forall|a: int, b: int| 0 <= a < b < tail.len() implies lex_lt(
            #[trigger] tail[a].0,
            #[trigger] tail[b].0,
        ) by {
            assert(tail[a] == s[a + 1]);
            assert(tail[b] == s[b + 1]);
        }
        assert forall|m: int| 0 <= m < i - 1 implies lex_lt(#[trigger] tail[m].0, k) by {
            assert(tail[m] == s[m + 1]);
        }
        if replaces {
            assert(tail[i - 1] == s[i]);
        } else if i < s.len() {
            assert(tail[i - 1] == s[i]);
        }
        lemma_entries_insert_splice(tail, k, v, i - 1, replaces);
        if replaces {
            assert(seq![s[0]] + (tail.take(i - 1) + seq![(k, v)] + tail.skip(i)) =~= s.take(i)
                + seq![(k, v)] + s.skip(i + 1));
        } else {
            assert(seq![s[0]] + (tail.take(i - 1) + seq![(k, v)] + tail.skip(i - 1)) =~= s.take(i)
                + seq![(k, v)] + s.skip(i));
        }
    }
}

/// Inserting a key above every key of a sorted entry sequence appends it.
pub proof fn lemma_entries_insert_append(s: Seq<(Seq<char>, SimpleType)>, k: Seq<char>, v: SimpleType)
    requires
        entries_sorted(s),
        forall|m: int| 0 <= m < s.len() ==> lex_lt((#[trigger] s[m]).0, k),
    ensures
        entries_insert(s, k, v) == s + seq![(k, v)],
{
    lemma_entries_insert_splice(s, k, v, s.len() as int, false);
    assert(s.take(s.len() as int) + seq![(k, v)] + s.skip(s.len() as int) =~= s + seq![(k, v)]);
}

/// Mathematical model of a property-record type.
pub enum PropV {
    Open(Seq<(Seq<char>, SimpleType)>),
    Closed(Seq<(Seq<char>, SimpleType)>),
}

impl PropV {
    pub open spec fn entries(self) -> Seq<(Seq<char>, SimpleType)> {
        match self {
            PropV::Open(s) => s,
            PropV::Closed(s) => s,
        }
    }

    pub open spec fn wf(self) -> bool {
        entries_sorted(self.entries())
    }
}

/// A property-record type. `Open` permits additional unlisted properties at
/// match time; `Closed` lists every property the record may have.
#[derive(Debug, PartialEq, Eq)]
pub enum PropertyType {
    Open(PropMap),
    Closed(PropMap),
}

impl View for PropertyType {
    type V = PropV;

    open spec fn view(&self) -> PropV {
        match self {
            PropertyType::Open(m) => PropV::Open(m@),
            PropertyType::Closed(m) => PropV::Closed(m@),
        }
    }
}

/// Mathematical model of a descriptor type.
pub struct DescTypeV {
    pub label: LabelV,
    pub properties: PropV,
}

/// A label constraint paired with a property-record constraint.
#[derive(Debug, PartialEq, Eq)]
pub struct DescriptorType {
    pub label: LabelType,
    pub properties: PropertyType,
}

impl View for DescriptorType {
    type V = DescTypeV;

    open spec fn view(&self) -> DescTypeV {
        DescTypeV { label: self.label@, properties: self.properties@ }
    }
}

/// Mathematical model of a descriptor.
pub struct DescriptorV {
    pub variable: Option<Seq<char>>,
    pub descriptor_type: DescTypeV,
}

/// An optional pattern-variable binding plus a descriptor type. An absent
/// label defaults to `Star` and absent properties default to an empty open
/// record.
#[derive(Debug, PartialEq, Eq)]
pub struct Descriptor {
    pub variable: Option<Var>,
    pub descriptor_type: DescriptorType,
}

impl View for Descriptor {
    type V = DescriptorV;

    open spec fn view(&self) -> DescriptorV {
        DescriptorV {
            variable: match &self.variable {
                Some(v) => Some(v@),
                None => None,
            },
            descriptor_type: self.descriptor_type@,
        }
    }
}

/// Mathematical model of a node pattern.
pub struct NodePatternV {
    pub descriptor: DescriptorV,
}

/// A single graph-node pattern element: `(var? : label? {props?})`.
#[derive(Debug, PartialEq, Eq)]
pub struct NodePattern {
    pub descriptor: Descriptor,
}

impl View for NodePattern {
    type V = NodePatternV;

    open spec fn view(&self) -> NodePatternV {
        NodePatternV { descriptor: self.descriptor@ }
    }
}

/// Mathematical model of a constant.
pub enum ConstantV {
    String(Seq<char>),
    Int(int),
    Bool(bool),
}

/// A constant expression: a string, a 64-bit signed integer, or a boolean.
#[derive(Debug, PartialEq, Eq)]
pub enum Constant {
    String(String),
    Int(i64),
    Bool(bool),
}

impl View for Constant {
    type V = ConstantV;

    open spec fn view(&self) -> ConstantV {
        match self {
            Constant::String(s) => ConstantV::String(s@),
            Constant::Int(i) => ConstantV::Int(*i as int),
            Constant::Bool(b) => ConstantV::Bool(*b),
        }
    }
}

/// Binary operator kinds.
#[derive(Debug, PartialEq, Eq, Clone, Copy)]
pub enum BinOpKind {
    Add,
    Sub,
    Mul,
    Div,
    Lt,
    Gt,
    Le,
    Ge,
    Eq,
    Ne,
    And,
    Or,
    Is,
    As,
}

/// Unary operator kinds.
#[derive(Debug, PartialEq, Eq, Clone, Copy)]
pub enum UnOpKind {
    Neg,
    Not,
}

/// Mathematical model of an expression.
pub enum ExprV {
    Constant(ConstantV),
    Variable(Seq<char>),
    TypeLiteral(SimpleType),
    AttributeLookup(Seq<char>, Seq<char>),
    Binop(BinOpKind, Box<ExprV>, Box<ExprV>),
    Unop(UnOpKind, Box<ExprV>),
}

/// An expression of the filter language. Each node owns its sub-expressions
/// outright: the tree has no sharing and no cycles.
#[derive(Debug, PartialEq, Eq)]
pub enum Expr {
    Constant(Constant),
    Variable(Var),
    TypeLiteral(SimpleType),
    AttributeLookup(AttributeLookup),
    Binop(Binop),
    Unop(Unop),
}

/// Dotted access `e.a`: the attribute `a` of the entity bound to `e`.
#[derive(Debug, PartialEq, Eq)]
pub struct AttributeLookup {
    pub e: Var,
    pub a: Var,
}

/// A binary operation `e1 op e2`.
#[derive(Debug, PartialEq, Eq)]
pub struct Binop {
    pub op: BinOpKind,
    pub e1: Box<Expr>,
    pub e2: Box<Expr>,
}

/// A unary operation `op e`.
#[derive(Debug, PartialEq, Eq)]
pub struct Unop {
    pub op: UnOpKind,
    pub e: Box<Expr>,
}

pub open spec fn expr_view(e: &Expr) -> ExprV
    decreases e,
{
    match e {
        Expr::Constant(c) => ExprV::Constant(c@),
        Expr::Variable(v) => ExprV::Variable(v@),
        Expr::TypeLiteral(t) => ExprV::TypeLiteral(*t),
        Expr::AttributeLookup(al) => ExprV::AttributeLookup(al.e@, al.a@),
        Expr::Binop(b) => ExprV::Binop(
            b.op,
            Box::new(expr_view(&b.e1)),
            Box::new(expr_view(&b.e2)),
        ),
        Expr::Unop(u) => ExprV::Unop(u.op, Box::new(expr_view(&u.e))),
    }
}

impl View for Expr {
    type V = ExprV;

    open spec fn view(&self) -> ExprV {
        expr_view(self)
    }
}

impl View for AttributeLookup {
    type V = ExprV;

    open spec fn view(&self) -> ExprV {
        ExprV::AttributeLookup(self.e@, self.a@)
    }
}

impl View for Binop {
    type V = ExprV;

    open spec fn view(&self) -> ExprV {
        ExprV::Binop(self.op, Box::new(expr_view(&self.e1)), Box::new(expr_view(&self.e2)))
    }
}

impl View for Unop {
    type V = ExprV;

    open spec fn view(&self) -> ExprV {
        ExprV::Unop(self.op, Box::new(expr_view(&self.e)))
    }
}

impl AttributeLookup {
    /// Builds the lookup `e.a`.
    pub fn new(e: Var, a: Var) -> (r: AttributeLookup)
        ensures
            r@ == ExprV::AttributeLookup(e@, a@),
    {
        AttributeLookup { e, a }
    }
}

impl Binop {
    /// Builds the binary operation `e1 op e2`.
    pub fn new(op: BinOpKind, e1: Expr, e2: Expr) -> (r: Binop)
        ensures
            r@ == ExprV::Binop(op, Box::new(e1@), Box::new(e2@)),
    {
        Binop { op, e1: Box::new(e1), e2: Box::new(e2) }
    }
}

impl Unop {
    /// Builds the unary operation `op e`.
    pub fn new(op: UnOpKind, e: Expr) -> (r: Unop)
        ensures
            r@ == ExprV::Unop(op, Box::new(e@)),
    {
        Unop { op, e: Box::new(e) }
    }
}

/// Mathematical model of a path pattern.
pub enum PathV {
    Node(NodePatternV),
    Filter(Box<PathV>, ExprV),
}

/// A node pattern, optionally refined by boolean filter expressions
/// (`WHERE` clauses).
#[derive(Debug, PartialEq, Eq)]
pub enum PathPattern {
    Node(NodePattern),
    Filter(Box<PathPattern>, Expr),
}

pub open spec fn path_view(p: &PathPattern) -> PathV
    decreases p,
{
    match p {
        PathPattern::Node(n) => PathV::Node(n@),
        PathPattern::Filter(q, e) => PathV::Filter(Box::new(path_view(q)), e@),
    }
}

impl View for PathPattern {
    type V = PathV;

    open spec fn view(&self) -> PathV {
        path_view(self)
    }
}

} // verus!
