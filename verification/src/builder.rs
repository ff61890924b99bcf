//! The parse builder: a bounded-depth stack machine that folds the event
//! stream into one structured value.
//!
//! One frame accumulates each open element: its name, an optional mapping of
//! attributes and named children, an optional list collector (engaged once a
//! force-items child closes), and an optional text accumulation buffer. On
//! close, the frame reduces to a child value that is attached to its parent
//! frame, or becomes the document root.

use vstd::prelude::*;

use crate::chars::spec_all_space;
use crate::chars::all_space;
use crate::chars::str_eq;
use crate::chars::str_to_chars;
use crate::chars::chars_to_string;
use crate::coerce::g_coerce;
use crate::coerce::coerce;
use crate::dates::g_ts_str;
use crate::dates::push_ts_chars;
use crate::err::GErr;
use crate::err::XmlError;
use crate::events::GEvent;
use crate::events::XmlEvent;
use crate::events::g_of_attrs;
use crate::events::g_of_events;
use crate::num::g_i64_str;
use crate::num::i64_chars;
use crate::value::Entry;
use crate::value::GEntry;
use crate::value::GValue;
use crate::value::Value;
use crate::value::g_of_map;
use crate::value::g_of_value;
use crate::value::g_of_entry;
use crate::value::g_of_entries;
use crate::value::lemma_g_of_map_index;
use crate::value::lemma_g_of_map_len;
use crate::value::lemma_g_of_map_push;
use crate::value::lemma_g_of_map_update;
use crate::value::lemma_g_of_entries_push;
use crate::value::lemma_g_of_entries_index;
use crate::value::lemma_g_of_entries_len;

verus! {

/// The depth bound: at most this many suspended frames below the open one.
pub const STACK_BOUND: usize = 10;

/// The mapping key that carries inline character data.
pub open spec fn g_text_key() -> Seq<char> {
    "#text"@
}

/// Element names whose parent switches to the ordered pair-list collector,
/// so that sibling order and duplicates survive.
pub open spec fn g_in_force_items(n: Seq<char>) -> bool {
    n == "bounds"@ || n == "create"@ || n == "delete"@ || n == "modify"@ || n == "node"@ || n
        == "relation"@ || n == "way"@
}

/// Element names always stored as a list, even on first occurrence.
pub open spec fn g_in_force_list(n: Seq<char>) -> bool {
    n == "comment"@ || n == "gpx_file"@ || n == "member"@ || n == "nd"@ || n == "note"@ || n
        == "preference"@ || n == "tag"@ || n == "trk"@ || n == "trkpt"@ || n == "trkseg"@
}

pub fn in_force_items(n: &str) -> (r: bool)
    ensures
        r == g_in_force_items(n@),
{
    str_eq(n, "bounds") || str_eq(n, "create") || str_eq(n, "delete") || str_eq(n, "modify")
        || str_eq(n, "node") || str_eq(n, "relation") || str_eq(n, "way")
}

pub fn in_force_list(n: &str) -> (r: bool)
    ensures
        r == g_in_force_list(n@),
{
    str_eq(n, "comment") || str_eq(n, "gpx_file") || str_eq(n, "member") || str_eq(n, "nd")
        || str_eq(n, "note") || str_eq(n, "preference") || str_eq(n, "tag") || str_eq(n, "trk")
        || str_eq(n, "trkpt") || str_eq(n, "trkseg")
}

/// Ghost model of a `Frame`.
#[verifier::ext_equal]
pub struct GFrame {
    pub name: Seq<char>,
    pub map: Option<Seq<(Seq<char>, GValue)>>,
    pub list: Option<Seq<GEntry>>,
    pub text: Option<Seq<char>>,
}

/// Ghost model of a `Builder`.
#[verifier::ext_equal]
pub struct GBuilder {
    pub stack: Seq<GFrame>,
    pub cur: Option<GFrame>,
    pub result: Option<(Seq<char>, GValue)>,
}

/// First position of a key in a mapping.
pub open spec fn g_map_find(m: Seq<(Seq<char>, GValue)>, k: Seq<char>) -> Option<int>
    decreases m.len(),
{
    if m.len() == 0 {
        None
    } else if m[0].0 == k {
        Some(0)
    } else {
        match g_map_find(m.skip(1), k) {
            Some(i) => Some(i + 1),
            None => None,
        }
    }
}

/// The value under a key, at its first position.
pub open spec fn g_map_get(m: Seq<(Seq<char>, GValue)>, k: Seq<char>) -> Option<GValue> {
    match g_map_find(m, k) {
        Some(i) => Some(m[i].1),
        None => None,
    }
}

/// Stores under a key: replaces in place at the key's first position, else
/// appends.
pub open spec fn g_map_set(
    m: Seq<(Seq<char>, GValue)>,
    k: Seq<char>,
    v: GValue,
) -> Seq<(Seq<char>, GValue)> {
    match g_map_find(m, k) {
        Some(i) => m.update(i, (k, v)),
        None => m.push((k, v)),
    }
}

/// What a found position means: the first index holding the key.
pub proof fn lemma_map_find_char(m: Seq<(Seq<char>, GValue)>, k: Seq<char>)
    ensures
        match g_map_find(m, k) {
            Some(i) => 0 <= i < m.len() && m[i].0 == k && (forall|j: int|
                0 <= j < i ==> m[j].0 != k),
            None => forall|j: int| 0 <= j < m.len() ==> m[j].0 != k,
        },
    decreases m.len(),
{
    if m.len() > 0 && m[0].0 != k {
        let t = m.skip(1);
        lemma_map_find_char(t, k);
        match g_map_find(t, k) {
            Some(i) => {
                assert(t[i] == m[i + 1]);
                assert(m[i + 1].0 == k);
                assert forall|j: int| 0 <= j < i + 1 implies m[j].0 != k by {
                    if j > 0 {
                        assert(t[j - 1] == m[j]);
                    }
                }
            },
            None => {
                assert forall|j: int| 0 <= j < m.len() implies m[j].0 != k by {
                    if j > 0 {
                        assert(t[j - 1] == m[j]);
                    }
                }
            },
        }
    }
}

/// The library's text form of a scalar, used when split character data is
/// reassembled: strings, raw text and floats keep their text, integers and
/// timestamps print canonically, booleans print `true`/`false`, everything
/// else is empty.
pub open spec fn g_scalar_txt(v: GValue) -> Seq<char> {
    match v {
        GValue::Str(s) => s,
        GValue::Int(n) => g_i64_str(n as int),
        GValue::Float(f) => f,
        GValue::Bool(b) => if b {
            "true"@
        } else {
            "false"@
        },
        GValue::Ts(t) => g_ts_str(t),
        GValue::Raw(t) => t,
        GValue::Absent => Seq::empty(),
        GValue::Mapping(_) => Seq::empty(),
        GValue::List(_) => Seq::empty(),
    }
}

/// Mapping entries become ordered pairs, keeping their order.
pub open spec fn g_pairs_of(m: Seq<(Seq<char>, GValue)>) -> Seq<GEntry> {
    m.map_values(|p: (Seq<char>, GValue)| GEntry::Pair(p.0, p.1))
}

/// The initial builder: no frames, no result.
pub open spec fn g_init() -> GBuilder {
    GBuilder { stack: Seq::empty(), cur: None, result: None }
}

/// Coerces and stores one attribute list into a frame's mapping, in order,
/// each under its `@`-prefixed name.
pub open spec fn g_add_attrs(
    m: Option<Seq<(Seq<char>, GValue)>>,
    name: Seq<char>,
    attrs: Seq<(Seq<char>, Seq<char>)>,
) -> Result<Option<Seq<(Seq<char>, GValue)>>, GErr>
    decreases attrs.len(),
{
    if attrs.len() == 0 {
        Ok(m)
    } else {
        match g_coerce(attrs[0].0, attrs[0].1) {
            Err(e) => Err(e),
            Ok(v) => {
                let base = match m {
                    Some(mm) => mm,
                    None => Seq::empty(),
                };
                g_add_attrs(
                    Some(g_map_set(base, seq!['@'] + attrs[0].0, v)),
                    name,
                    attrs.skip(1),
                )
            },
        }
    }
}

/// Opening an element: fails at the depth bound, else suspends the open
/// frame and starts a fresh one holding the coerced attributes.
pub open spec fn g_open(st: GBuilder, n: Seq<char>, attrs: Seq<(Seq<char>, Seq<char>)>) -> Result<
    GBuilder,
    GErr,
> {
    if st.stack.len() >= STACK_BOUND as int {
        Err(GErr::NestingTooDeep)
    } else {
        let stack2 = match st.cur {
            Some(f) => st.stack.push(f),
            None => st.stack,
        };
        match g_add_attrs(None, n, attrs) {
            Err(e) => Err(e),
            Ok(m) => Ok(
                GBuilder {
                    stack: stack2,
                    cur: Some(GFrame { name: n, map: m, list: None, text: None }),
                    result: st.result,
                },
            ),
        }
    }
}

/// Character data: blank text and text outside any element are ignored;
/// otherwise the text coerces under the element's own name. With the list
/// collector engaged it appends a `#text` pair; else the first fragment
/// stores under `#text`, and every later fragment converts what is stored to
/// its text form and re-stores the concatenation.
pub open spec fn g_text(st: GBuilder, s: Seq<char>) -> Result<GBuilder, GErr> {
    if spec_all_space(s) {
        Ok(st)
    } else {
        match st.cur {
            None => Ok(st),
            Some(f) => match g_coerce(f.name, s) {
                Err(e) => Err(e),
                Ok(v) => if f.list is Some {
                    let l = f.list->Some_0;
                    Ok(
                        GBuilder {
                            stack: st.stack,
                            cur: Some(
                                GFrame {
                                    name: f.name,
                                    map: f.map,
                                    list: Some(l.push(GEntry::Pair(g_text_key(), v))),
                                    text: f.text,
                                },
                            ),
                            result: st.result,
                        },
                    )
                } else {
                    let m = match f.map {
                        Some(mm) => mm,
                        None => Seq::empty(),
                    };
                    if f.text is Some {
                        let comb = f.text->Some_0 + g_scalar_txt(v);
                        Ok(
                            GBuilder {
                                stack: st.stack,
                                cur: Some(
                                    GFrame {
                                        name: f.name,
                                        map: Some(
                                            g_map_set(m, g_text_key(), GValue::Str(comb)),
                                        ),
                                        list: f.list,
                                        text: Some(comb),
                                    },
                                ),
                                result: st.result,
                            },
                        )
                    } else {
                        match g_map_get(m, g_text_key()) {
                            Some(ex) => {
                                let comb = g_scalar_txt(ex) + g_scalar_txt(v);
                                Ok(
                                    GBuilder {
                                        stack: st.stack,
                                        cur: Some(
                                            GFrame {
                                                name: f.name,
                                                map: Some(
                                                    g_map_set(
                                                        m,
                                                        g_text_key(),
                                                        GValue::Str(comb),
                                                    ),
                                                ),
                                                list: f.list,
                                                text: Some(comb),
                                            },
                                        ),
                                        result: st.result,
                                    },
                                )
                            },
                            None => Ok(
                                GBuilder {
                                    stack: st.stack,
                                    cur: Some(
                                        GFrame {
                                            name: f.name,
                                            map: Some(g_map_set(m, g_text_key(), v)),
                                            list: f.list,
                                            text: f.text,
                                        },
                                    ),
                                    result: st.result,
                                },
                            ),
                        }
                    }
                },
            },
        }
    }
}

/// Reduces a closing frame to its child value: nothing, a collapsed bare
/// `#text` scalar, the mapping, the list, or — when both are present — the
/// mapping's entries flattened as pairs in front of the list.
pub open spec fn g_reduce(
    map: Option<Seq<(Seq<char>, GValue)>>,
    list: Option<Seq<GEntry>>,
) -> Option<GValue> {
    match (map, list) {
        (Option::None, Option::None) => None,
        (Option::Some(m), Option::None) => if m.len() == 1 && m[0].0 == g_text_key() {
            Some(m[0].1)
        } else {
            Some(GValue::Mapping(m))
        },
        (Option::None, Option::Some(l)) => Some(GValue::List(l)),
        (Option::Some(m), Option::Some(l)) => Some(GValue::List(g_pairs_of(m) + l)),
    }
}

/// Attaches a closed child into its parent frame, in order: an engaged list
/// collector appends the pair; a force-items name flattens the parent's
/// mapping into a fresh list collector; otherwise the mapping stores it —
/// folding a repeated name into a list, and wrapping a force-list name on
/// first sight.
pub open spec fn g_attach(parent: GFrame, name: Seq<char>, c: GValue) -> GFrame {
    if parent.list is Some {
        let l = parent.list->Some_0;
        GFrame {
            name: parent.name,
            map: parent.map,
            list: Some(l.push(GEntry::Pair(name, c))),
            text: parent.text,
        }
    } else if g_in_force_items(name) {
        let pairs = match parent.map {
            Some(m) => g_pairs_of(m),
            None => Seq::empty(),
        };
        GFrame {
            name: parent.name,
            map: None,
            list: Some(pairs.push(GEntry::Pair(name, c))),
            text: parent.text,
        }
    } else {
        let m = match parent.map {
            Some(mm) => mm,
            None => Seq::empty(),
        };
        let m2 = match g_map_get(m, name) {
            Some(ex) => match ex {
                GValue::List(l) => g_map_set(m, name, GValue::List(l.push(GEntry::Item(c)))),
                _ => g_map_set(
                    m,
                    name,
                    GValue::List(seq![GEntry::Item(ex), GEntry::Item(c)]),
                ),
            },
            None => if g_in_force_list(name) {
                g_map_set(m, name, GValue::List(seq![GEntry::Item(c)]))
            } else {
                g_map_set(m, name, c)
            },
        };
        GFrame { name: parent.name, map: Some(m2), list: parent.list, text: parent.text }
    }
}

/// Closing an element: with no open frame this does nothing; else the frame
/// reduces and attaches to the restored parent, or — at the bottom of the
/// stack — becomes the document result.
pub open spec fn g_close(st: GBuilder) -> GBuilder {
    match st.cur {
        None => st,
        Some(f) => {
            let child = g_reduce(f.map, f.list);
            if st.stack.len() > 0 {
                let parent = st.stack.last();
                let parent2 = match child {
                    None => parent,
                    Some(c) => g_attach(parent, f.name, c),
                };
                GBuilder { stack: st.stack.drop_last(), cur: Some(parent2), result: st.result }
            } else {
                match child {
                    None => GBuilder { stack: st.stack, cur: None, result: st.result },
                    Some(c) => GBuilder {
                        stack: st.stack,
                        cur: None,
                        result: Some((f.name, c)),
                    },
                }
            }
        },
    }
}

/// One transition of the stack machine.
pub open spec fn g_step(st: GBuilder, ev: GEvent) -> Result<GBuilder, GErr> {
    match ev {
        GEvent::Open(n, attrs) => g_open(st, n, attrs),
        GEvent::SelfClosed(n, attrs) => match g_open(st, n, attrs) {
            Ok(st2) => Ok(g_close(st2)),
            Err(e) => Err(e),
        },
        GEvent::Close => Ok(g_close(st)),
        GEvent::Text(s) => g_text(st, s),
    }
}

/// The machine run over a whole event stream.
pub open spec fn g_run(evs: Seq<GEvent>) -> Result<GBuilder, GErr>
    decreases evs.len(),
{
    if evs.len() == 0 {
        Ok(g_init())
    } else {
        match g_run(evs.drop_last()) {
            Err(e) => Err(e),
            Ok(st) => g_step(st, evs.last()),
        }
    }
}

/// The document a stream builds: the machine's result as a one-entry
/// mapping, or `EmptyDocument` where no root was produced.
pub open spec fn g_build(evs: Seq<GEvent>) -> Result<GValue, GErr> {
    match g_run(evs) {
        Err(e) => Err(e),
        Ok(st) => match st.result {
            Some((n, v)) => Ok(GValue::Mapping(seq![(n, v)])),
            None => Err(GErr::EmptyDocument),
        },
    }
}

} // verus!

verus! {

/// The `#text` key as an owned string.
fn text_key_string() -> (r: String)
    ensures
        r@ == g_text_key(),
{
    "#text".to_owned()
}

/// The `@`-prefixed form of an attribute name.
fn at_key(k: &str) -> (r: String)
    ensures
        r@ == seq!['@'] + k@,
{
    let mut cs: Vec<char> = Vec::new();
    cs.push('@');
    let mut rest = str_to_chars(k);
    cs.append(&mut rest);
    let out = chars_to_string(&cs);
    proof {
        assert(out@ =~= seq!['@'] + k@);
    }
    out
}

/// The text form of a scalar, as `g_scalar_txt` gives it.
pub fn scalar_txt(v: &Value) -> (r: String)
    ensures
        r@ == g_scalar_txt(v@),
{
    match v {
        Value::Str(s) => s.clone(),
        Value::Int(n) => {
            let cs = i64_chars(*n);
            chars_to_string(&cs)
        },
        Value::Float(f) => f.clone(),
        Value::Bool(b) => if *b {
            "true".to_owned()
        } else {
            "false".to_owned()
        },
        Value::Ts(t) => {
            let mut cs: Vec<char> = Vec::new();
            push_ts_chars(&mut cs, t);
            proof {
                assert(cs@ =~= g_ts_str(*t));
            }
            chars_to_string(&cs)
        },
        Value::Raw(t) => t.clone(),
        Value::Absent => String::new(),
        Value::Mapping(_) => String::new(),
        Value::List(_) => String::new(),
    }
}

/// Finds the first position of a key in a mapping's entries.
fn map_find(m: &Vec<(String, Value)>, k: &str) -> (r: Option<usize>)
    ensures
        match r {
            Some(i) => i < m@.len() && g_map_find(g_of_map(m@), k@) == Some(i as int),
            None => g_map_find(g_of_map(m@), k@) is None,
        },
{
    let n = m.len();
    let ghost gm = g_of_map(m@);
    proof {
        lemma_g_of_map_len(m@);
        lemma_map_find_char(gm, k@);
    }
    let mut i: usize = 0;
    while i < n
        invariant
            0 <= i <= n,
            n == m@.len(),
            gm == g_of_map(m@),
            gm.len() == n,
            forall|j: int| 0 <= j < i ==> #[trigger] gm[j].0 != k@,
        decreases n - i,
    {
        let hit = str_eq(m[i].0.as_str(), k);
        proof {
            lemma_g_of_map_index(m@, i as int);
        }
        if hit {
            proof {
                lemma_map_find_char(gm, k@);
                if g_map_find(gm, k@) is None {
                    assert(gm[i as int].0 == k@);
                    assert(false);
                }
                let i0 = g_map_find(gm, k@)->Some_0;
                assert(gm[i0].0 == k@);
                assert(i0 == i as int);
            }
            return Some(i);
        }
        i = i + 1;
    }
    proof {
        lemma_map_find_char(gm, k@);
        if g_map_find(gm, k@) is Some {
            let i0 = g_map_find(gm, k@)->Some_0;
            assert(gm[i0].0 != k@);
            assert(false);
        }
    }
    None
}

/// Stores a value under a key: replaces in place, else appends.
fn map_set(m: &mut Vec<(String, Value)>, k: String, v: Value)
    ensures
        g_of_map(final(m)@) == g_map_set(g_of_map(old(m)@), k@, v@),
{
    let ghost m0 = old(m)@;
    match map_find(m, k.as_str()) {
        Some(i) => {
            m.remove(i);
            m.insert(i, (k, v));
            proof {
                assert(m@ =~= m0.update(i as int, (k, v)));
                lemma_g_of_map_update(m0, i as int, (k, v));
            }
        },
        None => {
            m.push((k, v));
            proof {
                lemma_g_of_map_push(m0, (k, v));
            }
        },
    }
}

/// One accumulating frame of the parse stack.
#[derive(Debug)]
pub struct Frame {
    pub name: String,
    pub map: Option<Vec<(String, Value)>>,
    pub list: Option<Vec<Entry>>,
    pub text: Option<String>,
}

impl View for Frame {
    type V = GFrame;

    open spec fn view(&self) -> GFrame {
        GFrame {
            name: self.name@,
            map: match self.map {
                Some(m) => Some(g_of_map(m@)),
                None => None,
            },
            list: match self.list {
                Some(l) => Some(g_of_entries(l@)),
                None => None,
            },
            text: match self.text {
                Some(t) => Some(t@),
                None => None,
            },
        }
    }
}

/// The parse stack machine's state.
#[derive(Debug)]
pub struct Builder {
    pub stack: Vec<Frame>,
    pub cur: Option<Frame>,
    pub result: Option<(String, Value)>,
}

impl View for Builder {
    type V = GBuilder;

    open spec fn view(&self) -> GBuilder {
        GBuilder {
            stack: self.stack@.map_values(|f: Frame| f@),
            cur: match self.cur {
                Some(f) => Some(f@),
                None => None,
            },
            result: match self.result {
                Some(p) => Some((p.0@, p.1@)),
                None => None,
            },
        }
    }
}

impl Builder {
    /// A fresh machine in its idle state.
    pub fn new() -> (r: Builder)
        ensures
            r@ == g_init(),
    {
        let b = Builder { stack: Vec::new(), cur: None, result: None };
        proof {
            assert(b@.stack =~= g_init().stack);
            assert(b@ =~= g_init());
        }
        b
    }

    /// Feeds a start-element event.
    pub fn open_element(self, name: &str, attrs: &Vec<(String, String)>) -> (r: Result<
        Builder,
        XmlError,
    >)
        ensures
            match r {
                Ok(b) => g_open(self@, name@, g_of_attrs(attrs@)) == Ok::<GBuilder, GErr>(b@),
                Err(e) => g_open(self@, name@, g_of_attrs(attrs@)) == Err::<GBuilder, GErr>(e@),
            },
    {
        let ghost st0 = self@;
        let ghost ga = g_of_attrs(attrs@);
        if self.stack.len() >= STACK_BOUND {
            return Err(XmlError::NestingTooDeep);
        }
        let mut stack = self.stack;
        let ghost stack2 = match st0.cur {
            Some(f) => st0.stack.push(f),
            None => st0.stack,
        };
        match self.cur {
            Some(f) => {
                stack.push(f);
                proof {
                    assert(stack@.map_values(|fr: Frame| fr@) =~= stack2);
                }
            },
            None => {
                proof {
                    assert(stack@.map_values(|fr: Frame| fr@) =~= stack2);
                }
            },
        }
        let mut map: Option<Vec<(String, Value)>> = None;
        let n = attrs.len();
        proof {
            assert(ga.skip(0) =~= ga);
        }
        let mut i: usize = 0;
        while i < n
            invariant
                0 <= i <= n,
                n == attrs@.len(),
                ga == g_of_attrs(attrs@),
                ga.len() == n,
                st0 == self@,
                st0.stack.len() < STACK_BOUND as int,
                g_add_attrs(
                    match map {
                        Some(m) => Some(g_of_map(m@)),
                        None => None,
                    },
                    name@,
                    ga.skip(i as int),
                ) == g_add_attrs(None, name@, ga),
            decreases n - i,
        {
            let a = &attrs[i];
            proof {
                assert(ga[i as int] == (a.0@, a.1@));
                assert(ga.skip(i as int)[0] == ga[i as int]);
                assert(ga.skip(i as int).skip(1) =~= ga.skip(i + 1int));
            }
            match coerce(a.0.as_str(), a.1.as_str()) {
                Err(e) => {
                    return Err(e);
                },
                Ok(v) => {
                    let key = at_key(a.0.as_str());
                    let mut base = match map {
                        Some(mm) => mm,
                        None => Vec::new(),
                    };
                    map_set(&mut base, key, v);
                    map = Some(base);
                },
            }
            i = i + 1;
        }
        proof {
            assert(ga.skip(n as int) =~= Seq::<(Seq<char>, Seq<char>)>::empty());
        }
        let frame = Frame { name: name.to_owned(), map, list: None, text: None };
        let b = Builder { stack, cur: Some(frame), result: self.result };
        Ok(b)
    }

    /// Feeds a character-data event.
    pub fn text(self, s: &str) -> (r: Result<Builder, XmlError>)
        ensures
            match r {
                Ok(b) => g_text(self@, s@) == Ok::<GBuilder, GErr>(b@),
                Err(e) => g_text(self@, s@) == Err::<GBuilder, GErr>(e@),
            },
    {
        if all_space(s) {
            return Ok(self);
        }
        let cur = self.cur;
        match cur {
            None => Ok(Builder { stack: self.stack, cur: None, result: self.result }),
            Some(f) => {
                match coerce(f.name.as_str(), s) {
                    Err(e) => Err(e),
                    Ok(v) => {
                        match f.list {
                            Some(mut l) => {
                                let ghost l0 = l@;
                                l.push(Entry::Pair(text_key_string(), v));
                                proof {
                                    lemma_g_of_entries_push(l0, l@.last());
                                }
                                Ok(
                                    Builder {
                                        stack: self.stack,
                                        cur: Some(
                                            Frame {
                                                name: f.name,
                                                map: f.map,
                                                list: Some(l),
                                                text: f.text,
                                            },
                                        ),
                                        result: self.result,
                                    },
                                )
                            },
                            None => {
                                let mut base = match f.map {
                                    Some(mm) => mm,
                                    None => Vec::new(),
                                };
                                match f.text {
                                    Some(acc) => {
                                        let t = scalar_txt(&v);
                                        let mut cs = str_to_chars(acc.as_str());
                                        let mut cs2 = str_to_chars(t.as_str());
                                        cs.append(&mut cs2);
                                        let comb = chars_to_string(&cs);
                                        let comb2 = comb.clone();
                                        map_set(
                                            &mut base,
                                            text_key_string(),
                                            Value::Str(comb),
                                        );
                                        Ok(
                                            Builder {
                                                stack: self.stack,
                                                cur: Some(
                                                    Frame {
                                                        name: f.name,
                                                        map: Some(base),
                                                        list: None,
                                                        text: Some(comb2),
                                                    },
                                                ),
                                                result: self.result,
                                            },
                                        )
                                    },
                                    None => {
                                        match map_find(&base, "#text") {
                                            Some(i) => {
                                                proof {
                                                    lemma_g_of_map_index(base@, i as int);
                                                }
                                                let ex_s = scalar_txt(&base[i].1);
                                                let t = scalar_txt(&v);
                                                let mut cs = str_to_chars(ex_s.as_str());
                                                let mut cs2 = str_to_chars(t.as_str());
                                                cs.append(&mut cs2);
                                                let comb = chars_to_string(&cs);
                                                let comb2 = comb.clone();
                                                map_set(
                                                    &mut base,
                                                    text_key_string(),
                                                    Value::Str(comb),
                                                );
                                                Ok(
                                                    Builder {
                                                        stack: self.stack,
                                                        cur: Some(
                                                            Frame {
                                                                name: f.name,
                                                                map: Some(base),
                                                                list: None,
                                                                text: Some(comb2),
                                                            },
                                                        ),
                                                        result: self.result,
                                                    },
                                                )
                                            },
                                            None => {
                                                map_set(&mut base, text_key_string(), v);
                                                Ok(
                                                    Builder {
                                                        stack: self.stack,
                                                        cur: Some(
                                                            Frame {
                                                                name: f.name,
                                                                map: Some(base),
                                                                list: None,
                                                                text: f.text,
                                                            },
                                                        ),
                                                        result: self.result,
                                                    },
                                                )
                                            },
                                        }
                                    },
                                }
                            },
                        }
                    },
                }
            },
        }
    }
}

} // verus!

verus! {

/// Flattens mapping entries into ordered pair entries.
fn pairs_entries(m: Vec<(String, Value)>) -> (r: Vec<Entry>)
    ensures
        g_of_entries(r@) == g_pairs_of(g_of_map(m@)),
{
    let ghost orig = m@;
    let ghost gp = g_pairs_of(g_of_map(orig));
    let mut m = m;
    let total = m.len();
    let mut out: Vec<Entry> = Vec::new();
    proof {
        lemma_g_of_map_len(orig);
        assert(g_of_entries(out@) =~= gp.take(0));
        assert(m@ =~= orig.skip(0));
    }
    let mut i: usize = 0;
    while m.len() > 0
        invariant
            orig.len() == total,
            0 <= i <= orig.len(),
            gp == g_pairs_of(g_of_map(orig)),
            gp.len() == orig.len(),
            i + m@.len() == orig.len(),
            m@ =~= orig.skip(i as int),
            g_of_entries(out@) == gp.take(i as int),
            out@.len() == i,
        decreases m@.len(),
    {
        let ghost out0 = out@;
        let p = m.remove(0);
        proof {
            assert(orig.skip(i as int)[0] == orig[i as int]);
            assert(p == orig[i as int]);
        }
        out.push(Entry::Pair(p.0, p.1));
        proof {
            lemma_g_of_entries_push(out0, Entry::Pair(p.0, p.1));
            lemma_g_of_entries_len(out0);
            lemma_g_of_map_index(orig, i as int);
            assert(gp[i as int] == GEntry::Pair(g_of_map(orig)[i as int].0, g_of_map(orig)[i as int].1));
            assert(gp.take(i + 1int) =~= gp.take(i as int).push(gp[i as int]));
            assert(m@ =~= orig.skip(i as int).remove(0));
            assert(orig.skip(i as int).remove(0) =~= orig.skip(i + 1int));
        }
        i = i + 1;
    }
    proof {
        assert(gp.take(orig.len() as int) =~= gp);
    }
    out
}

/// Reduces a closing frame's collectors to its child value.
fn reduce(map: Option<Vec<(String, Value)>>, list: Option<Vec<Entry>>) -> (r: Option<Value>)
    ensures
        match r {
            Some(v) => g_reduce(
                match map {
                    Some(m) => Some(g_of_map(m@)),
                    None => None,
                },
                match list {
                    Some(l) => Some(g_of_entries(l@)),
                    None => None,
                },
            ) == Some(v@),
            None => g_reduce(
                match map {
                    Some(m) => Some(g_of_map(m@)),
                    None => None,
                },
                match list {
                    Some(l) => Some(g_of_entries(l@)),
                    None => None,
                },
            ) is None,
        },
{
    match (map, list) {
        (None, None) => None,
        (Some(mut m), None) => {
            proof {
                lemma_g_of_map_len(m@);
            }
            let collapse = m.len() == 1 && str_eq(m[0].0.as_str(), "#text");
            proof {
                if m@.len() > 0 {
                    lemma_g_of_map_index(m@, 0);
                }
            }
            if collapse {
                let ghost m0 = m@;
                match m.pop() {
                    Some(pair) => Some(pair.1),
                    None => None,
                }
            } else {
                Some(Value::Mapping(m))
            }
        },
        (None, Some(l)) => Some(Value::List(l)),
        (Some(m), Some(l)) => {
            let ghost gm = g_of_map(m@);
            let ghost gl = g_of_entries(l@);
            let mut entries = pairs_entries(m);
            let ghost ge = g_of_entries(entries@);
            let mut rest = l;
            let ghost e0 = entries@;
            let ghost r0 = rest@;
            entries.append(&mut rest);
            proof {
                lemma_g_of_entries_len(e0);
                lemma_g_of_entries_len(r0);
                lemma_g_of_entries_len(entries@);
                assert forall|j: int| 0 <= j < entries@.len() implies #[trigger] g_of_entries(
                    entries@,
                )[j] == (ge + gl)[j] by {
                    lemma_g_of_entries_index(entries@, j);
                    if j < e0.len() {
                        lemma_g_of_entries_index(e0, j);
                        assert(entries@[j] == e0[j]);
                    } else {
                        lemma_g_of_entries_index(r0, j - e0.len());
                        assert(entries@[j] == r0[j - e0.len()]);
                    }
                }
                assert(g_of_entries(entries@) =~= ge + gl);
            }
            Some(Value::List(entries))
        },
    }
}

/// Attaches a closed child value into its parent frame.
fn attach(parent: Frame, name: String, c: Value) -> (r: Frame)
    ensures
        r@ == g_attach(parent@, name@, c@),
{
    let Frame { name: pname, map, list, text } = parent;
    match list {
        Some(mut l) => {
            let ghost l0 = l@;
            l.push(Entry::Pair(name, c));
            proof {
                lemma_g_of_entries_push(l0, l@.last());
            }
            Frame { name: pname, map, list: Some(l), text }
        },
        None => {
            if in_force_items(name.as_str()) {
                let mut entries = match map {
                    Some(m) => pairs_entries(m),
                    None => Vec::new(),
                };
                let ghost e0 = entries@;
                entries.push(Entry::Pair(name, c));
                proof {
                    lemma_g_of_entries_push(e0, entries@.last());
                    assert(g_of_entries(Seq::<Entry>::empty()) =~= Seq::<GEntry>::empty());
                }
                Frame { name: pname, map: None, list: Some(entries), text }
            } else {
                let mut base = match map {
                    Some(mm) => mm,
                    None => Vec::new(),
                };
                match map_find(&base, name.as_str()) {
                    Some(i) => {
                        let ghost b0 = base@;
                        proof {
                            lemma_g_of_map_len(b0);
                            lemma_g_of_map_index(b0, i as int);
                            lemma_map_find_char(g_of_map(b0), name@);
                        }
                        let pair = base.remove(i);
                        let ex = pair.1;
                        match ex {
                            Value::List(mut l) => {
                                let ghost l0 = l@;
                                l.push(Entry::Item(c));
                                proof {
                                    lemma_g_of_entries_push(l0, l@.last());
                                }
                                base.insert(i, (name, Value::List(l)));
                                proof {
                                    assert(base@ =~= b0.update(i as int, base@[i as int]));
                                    lemma_g_of_map_update(b0, i as int, base@[i as int]);
                                }
                            },
                            ex => {
                                let two: Vec<Entry> = vec![Entry::Item(ex), Entry::Item(c)];
                                proof {
                                    lemma_g_of_entries_len(two@);
                                    lemma_g_of_entries_index(two@, 0);
                                    lemma_g_of_entries_index(two@, 1);
                                    assert(g_of_entries(two@) =~= seq![
                                        g_of_entry(two@[0]),
                                        g_of_entry(two@[1]),
                                    ]);
                                }
                                base.insert(i, (name, Value::List(two)));
                                proof {
                                    assert(base@ =~= b0.update(i as int, base@[i as int]));
                                    lemma_g_of_map_update(b0, i as int, base@[i as int]);
                                }
                            },
                        }
                    },
                    None => {
                        if in_force_list(name.as_str()) {
                            let one: Vec<Entry> = vec![Entry::Item(c)];
                            proof {
                                lemma_g_of_entries_len(one@);
                                lemma_g_of_entries_index(one@, 0);
                                assert(g_of_entries(one@) =~= seq![g_of_entry(one@[0])]);
                            }
                            map_set(&mut base, name, Value::List(one));
                        } else {
                            map_set(&mut base, name, c);
                        }
                    },
                }
                proof {
                    assert(g_of_map(Seq::<(String, Value)>::empty()) =~= Seq::<(
                        Seq<char>,
                        GValue,
                    )>::empty());
                }
                Frame { name: pname, map: Some(base), list: None, text }
            }
        },
    }
}

impl Builder {
    /// Feeds an end-element event.
    pub fn close_element(self) -> (r: Builder)
        ensures
            r@ == g_close(self@),
    {
        let ghost st0 = self@;
        let Builder { mut stack, cur, result } = self;
        match cur {
            None => Builder { stack, cur: None, result },
            Some(f) => {
                let Frame { name, map, list, text: _ } = f;
                let child = reduce(map, list);
                if stack.len() > 0 {
                    let ghost s0 = stack@;
                    let p = match stack.pop() {
                        Some(p) => p,
                        None => {
                            // The stack is non-empty here, so pop always yields a frame.
                            proof {
                                assert(false);
                            }
                            Frame { name: String::new(), map: None, list: None, text: None }
                        },
                    };
                    proof {
                        assert(stack@ =~= s0.drop_last());
                        assert(stack@.map_values(|fr: Frame| fr@) =~= s0.map_values(
                            |fr: Frame| fr@,
                        ).drop_last());
                        assert(p@ == s0.map_values(|fr: Frame| fr@).last());
                    }
                    let p2 = match child {
                        None => p,
                        Some(c) => attach(p, name, c),
                    };
                    Builder { stack, cur: Some(p2), result }
                } else {
                    proof {
                        assert(st0.stack.len() == 0);
                    }
                    match child {
                        None => Builder { stack, cur: None, result },
                        Some(c) => Builder { stack, cur: None, result: Some((name, c)) },
                    }
                }
            },
        }
    }

    /// Feeds one event.
    pub fn step(self, ev: &XmlEvent) -> (r: Result<Builder, XmlError>)
        ensures
            match r {
                Ok(b) => g_step(self@, ev@) == Ok::<GBuilder, GErr>(b@),
                Err(e) => g_step(self@, ev@) == Err::<GBuilder, GErr>(e@),
            },
    {
        match ev {
            XmlEvent::Open(n, a) => self.open_element(n.as_str(), a),
            XmlEvent::SelfClosed(n, a) => match self.open_element(n.as_str(), a) {
                Ok(b) => Ok(b.close_element()),
                Err(e) => Err(e),
            },
            XmlEvent::Close => Ok(self.close_element()),
            XmlEvent::Text(s) => self.text(s.as_str()),
        }
    }
}

/// Once a prefix of the stream fails, the whole stream fails the same way.
pub proof fn lemma_run_err_persists(evs: Seq<GEvent>, i: int)
    requires
        0 <= i <= evs.len(),
        g_run(evs.take(i)) is Err,
    ensures
        g_run(evs) == g_run(evs.take(i)),
    decreases evs.len() - i,
{
    if i == evs.len() {
        assert(evs.take(i) =~= evs);
    } else {
        assert(evs.take(i + 1).drop_last() =~= evs.take(i));
        lemma_run_err_persists(evs, i + 1);
    }
}

/// Folds a whole event stream into the document value, by `g_build`.
pub fn build_document(events: &Vec<XmlEvent>) -> (r: Result<Value, XmlError>)
    ensures
        match r {
            Ok(v) => g_build(g_of_events(events@)) == Ok::<GValue, GErr>(v@),
            Err(e) => g_build(g_of_events(events@)) == Err::<GValue, GErr>(e@),
        },
{
    let ghost ges = g_of_events(events@);
    let mut b = Builder::new();
    let n = events.len();
    proof {
        assert(ges.take(0) =~= Seq::<GEvent>::empty());
    }
    let mut i: usize = 0;
    while i < n
        invariant
            0 <= i <= n,
            n == events@.len(),
            ges == g_of_events(events@),
            ges.len() == n,
            g_run(ges.take(i as int)) == Ok::<GBuilder, GErr>(b@),
        decreases n - i,
    {
        proof {
            assert(ges.take(i + 1int).drop_last() =~= ges.take(i as int));
            assert(ges.take(i + 1int).last() == ges[i as int]);
        }
        let ev = &events[i];
        b = match b.step(ev) {
            Ok(nb) => nb,
            Err(e) => {
                proof {
                    lemma_run_err_persists(ges, i + 1);
                }
                return Err(e);
            },
        };
        i = i + 1;
    }
    proof {
        assert(ges.take(n as int) =~= ges);
    }
    let Builder { stack: _, cur: _, result } = b;
    match result {
        Some(p) => {
            let one: Vec<(String, Value)> = vec![p];
            proof {
                lemma_g_of_map_len(one@);
                lemma_g_of_map_index(one@, 0);
                assert(g_of_map(one@) =~= seq![(one@[0].0@, g_of_value(one@[0].1))]);
            }
            Ok(Value::Mapping(one))
        },
        None => Err(XmlError::EmptyDocument),
    }
}

} // verus!
