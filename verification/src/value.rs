//! The structured value that the codec reads and writes: scalars, raw
//! (CDATA) text, an insertion-ordered mapping, and an ordered sequence whose
//! entries are either `(name, value)` pairs or bare values.

use vstd::prelude::*;

verus! {

/// Time-zone marker of a timestamp: absent, or a fixed offset in minutes.
/// An offset of zero is UTC.
#[derive(Clone, Copy, Debug, PartialEq, Eq, Structural)]
pub enum Zone {
    Naive,
    Offset(i32),
}

/// A calendar timestamp with microsecond precision.
#[derive(Clone, Copy, Debug, PartialEq, Eq, Structural)]
pub struct Timestamp {
    pub year: u32,
    pub month: u8,
    pub day: u8,
    pub hour: u8,
    pub minute: u8,
    pub second: u8,
    pub micro: u32,
    pub zone: Zone,
}

impl Timestamp {
    /// Field ranges of a meaningful timestamp.
    pub open spec fn wf(self) -> bool {
        &&& 1 <= self.year <= 9999
        &&& 1 <= self.month <= 12
        &&& 1 <= self.day <= 31
        &&& self.hour <= 23
        &&& self.minute <= 59
        &&& self.second <= 59
        &&& self.micro <= 999999
        &&& match self.zone {
            Zone::Naive => true,
            Zone::Offset(m) => -1440 < m < 1440,
        }
    }

    /// True when the timestamp serializes with the `Z` suffix: it is either
    /// naive or at offset zero.
    pub open spec fn is_utc_like(self) -> bool {
        self.zone == Zone::Naive || self.zone == Zone::Offset(0)
    }
}

/// Ghost model of a `Value`.
#[verifier::ext_equal]
pub enum GValue {
    Absent,
    Str(Seq<char>),
    Int(i64),
    Float(Seq<char>),
    Bool(bool),
    Ts(Timestamp),
    Raw(Seq<char>),
    Mapping(Seq<(Seq<char>, GValue)>),
    List(Seq<GEntry>),
}

/// Ghost model of an `Entry`.
#[verifier::ext_equal]
pub enum GEntry {
    Pair(Seq<char>, GValue),
    Item(GValue),
}

/// One entry of a sequence value: a named pair, or a bare value.
#[derive(Debug, PartialEq)]
pub enum Entry {
    Pair(String, Value),
    Item(Value),
}

/// A structured value.
///
/// `Str`, `Int`, `Float`, `Bool`, `Ts` and `Absent` are the scalars; a
/// `Float` carries its textual form. `Raw` is text that both directions of
/// the codec pass through without escaping (CDATA). `Mapping` is an
/// insertion-ordered association of string keys to values; `List` is an
/// ordered sequence of entries.
#[derive(Debug, PartialEq)]
pub enum Value {
    Absent,
    Str(String),
    Int(i64),
    Float(String),
    Bool(bool),
    Ts(Timestamp),
    Raw(String),
    Mapping(Vec<(String, Value)>),
    List(Vec<Entry>),
}

pub open spec fn g_of_value(v: Value) -> GValue
    decreases v, 1int,
{
    match v {
        Value::Absent => GValue::Absent,
        Value::Str(s) => GValue::Str(s@),
        Value::Int(n) => GValue::Int(n),
        Value::Float(s) => GValue::Float(s@),
        Value::Bool(b) => GValue::Bool(b),
        Value::Ts(t) => GValue::Ts(t),
        Value::Raw(s) => GValue::Raw(s@),
        Value::Mapping(m) => GValue::Mapping(g_of_map(m@)),
        Value::List(l) => GValue::List(g_of_entries(l@)),
    }
}

pub open spec fn g_of_map(m: Seq<(String, Value)>) -> Seq<(Seq<char>, GValue)>
    decreases m, 0int,
{
    if m.len() == 0 {
        Seq::empty()
    } else {
        g_of_map(m.drop_last()).push((m.last().0@, g_of_value(m.last().1)))
    }
}

pub open spec fn g_of_entries(l: Seq<Entry>) -> Seq<GEntry>
    decreases l, 1int,
{
    if l.len() == 0 {
        Seq::empty()
    } else {
        g_of_entries(l.drop_last()).push(g_of_entry(l.last()))
    }
}

pub open spec fn g_of_entry(e: Entry) -> GEntry
    decreases e, 0int,
{
    match e {
        Entry::Pair(k, v) => GEntry::Pair(k@, g_of_value(v)),
        Entry::Item(v) => GEntry::Item(g_of_value(v)),
    }
}

impl View for Value {
    type V = GValue;

    open spec fn view(&self) -> GValue {
        g_of_value(*self)
    }
}

impl View for Entry {
    type V = GEntry;

    open spec fn view(&self) -> GEntry {
        g_of_entry(*self)
    }
}

/// The mapped views keep length and entries aligned with the source.
pub broadcast proof fn lemma_g_of_map_index(m: Seq<(String, Value)>, i: int)
    requires
        0 <= i < m.len(),
    ensures
        #![trigger g_of_map(m)[i]]
        g_of_map(m).len() == m.len() && g_of_map(m)[i] == (m[i].0@, g_of_value(m[i].1)),
    decreases m.len(),
{
    lemma_g_of_map_len(m);
    if i < m.len() - 1 {
        lemma_g_of_map_index(m.drop_last(), i);
    }
}

pub broadcast proof fn lemma_g_of_map_len(m: Seq<(String, Value)>)
    ensures
        #[trigger] g_of_map(m).len() == m.len(),
    decreases m.len(),
{
    if m.len() > 0 {
        lemma_g_of_map_len(m.drop_last());
    }
}

pub broadcast proof fn lemma_g_of_entries_index(l: Seq<Entry>, i: int)
    requires
        0 <= i < l.len(),
    ensures
        #![trigger g_of_entries(l)[i]]
        g_of_entries(l).len() == l.len() && g_of_entries(l)[i] == g_of_entry(l[i]),
    decreases l.len(),
{
    lemma_g_of_entries_len(l);
    if i < l.len() - 1 {
        lemma_g_of_entries_index(l.drop_last(), i);
    }
}

pub proof fn lemma_g_of_map_push(m: Seq<(String, Value)>, p: (String, Value))
    ensures
        g_of_map(m.push(p)) == g_of_map(m).push((p.0@, g_of_value(p.1))),
{
    assert(m.push(p).drop_last() =~= m);
    assert(m.push(p).last() == p);
}

pub proof fn lemma_g_of_entries_push(l: Seq<Entry>, e: Entry)
    ensures
        g_of_entries(l.push(e)) == g_of_entries(l).push(g_of_entry(e)),
{
    assert(l.push(e).drop_last() =~= l);
    assert(l.push(e).last() == e);
}

pub proof fn lemma_g_of_map_update(m: Seq<(String, Value)>, i: int, p: (String, Value))
    requires
        0 <= i < m.len(),
    ensures
        g_of_map(m.update(i, p)) == g_of_map(m).update(i, (p.0@, g_of_value(p.1))),
{
    let lhs = g_of_map(m.update(i, p));
    let rhs = g_of_map(m).update(i, (p.0@, g_of_value(p.1)));
    lemma_g_of_map_len(m);
    lemma_g_of_map_len(m.update(i, p));
    assert forall|j: int| 0 <= j < m.len() implies lhs[j] == rhs[j] by {
        lemma_g_of_map_index(m.update(i, p), j);
        if j != i {
            lemma_g_of_map_index(m, j);
        }
    }
    assert(lhs =~= rhs);
}

pub broadcast proof fn lemma_g_of_entries_len(l: Seq<Entry>)
    ensures
        #[trigger] g_of_entries(l).len() == l.len(),
    decreases l.len(),
{
    if l.len() > 0 {
        lemma_g_of_entries_len(l.drop_last());
    }
}

} // verus!

verus! {

/// Keys are pairwise distinct.
pub open spec fn g_unique_keys(m: Seq<(Seq<char>, GValue)>) -> bool {
    forall|i: int, j: int| 0 <= i < j < m.len() ==> m[i].0 != m[j].0
}

/// Structural well-formedness of a value: every mapping anywhere inside it
/// has unique keys.
pub open spec fn g_wf(v: GValue) -> bool
    decreases v,
{
    match v {
        GValue::Mapping(m) => g_unique_keys(m) && (forall|i: int|
            0 <= i < m.len() ==> g_wf((#[trigger] m[i]).1)),
        GValue::List(l) => forall|i: int| 0 <= i < l.len() ==> g_wf_entry(#[trigger] l[i]),
        _ => true,
    }
}

/// Structural well-formedness of a sequence entry.
pub open spec fn g_wf_entry(e: GEntry) -> bool
    decreases e,
{
    match e {
        GEntry::Pair(_, v) => g_wf(v),
        GEntry::Item(v) => g_wf(v),
    }
}

} // verus!
