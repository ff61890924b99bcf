//! Laws that hold across the codec's functions, stated over their spec
//! functions and proved once and for all.

use vstd::prelude::*;

use crate::builder::GBuilder;
use crate::builder::STACK_BOUND;
use crate::builder::g_add_attrs;
use crate::builder::g_map_find;
use crate::builder::g_open;
use crate::coerce::g_coerce;
use crate::err::GErr;
use crate::num::g_digits_in;
use crate::num::g_digits_val;
use crate::num::g_i64_str;
use crate::num::g_parse_i64;
use crate::num::g_u_digits;
use crate::value::GValue;
use crate::value::GEntry;
use crate::unparse::g_unparse;

verus! {

/// Coercion fails only with `InvalidFormat`.
pub proof fn lemma_coerce_error_kind(k: Seq<char>, raw: Seq<char>)
    ensures
        g_coerce(k, raw) matches Err(e) ==> e is InvalidFormat,
{
}

proof fn lemma_add_attrs_no_depth_err(
    m: Option<Seq<(Seq<char>, GValue)>>,
    name: Seq<char>,
    attrs: Seq<(Seq<char>, Seq<char>)>,
)
    ensures
        g_add_attrs(m, name, attrs) matches Err(e) ==> e is InvalidFormat,
    decreases attrs.len(),
{
    if attrs.len() > 0 {
        lemma_coerce_error_kind(attrs[0].0, attrs[0].1);
        match g_coerce(attrs[0].0, attrs[0].1) {
            Err(_) => {},
            Ok(v) => {
                let base = match m {
                    Some(mm) => mm,
                    None => Seq::empty(),
                };
                lemma_add_attrs_no_depth_err(
                    Some(crate::builder::g_map_set(base, seq!['@'] + attrs[0].0, v)),
                    name,
                    attrs.skip(1),
                );
            },
        }
    }
}

/// Opening an element fails with `NestingTooDeep` exactly when the stack of
/// suspended frames has reached the bound: nesting up to the bound is never
/// rejected for depth, and one frame beyond it always is.
pub proof fn lemma_nesting_bound(
    st: GBuilder,
    n: Seq<char>,
    attrs: Seq<(Seq<char>, Seq<char>)>,
)
    ensures
        g_open(st, n, attrs) == Err::<GBuilder, GErr>(GErr::NestingTooDeep) <==> st.stack.len()
            >= STACK_BOUND,
{
    if st.stack.len() < STACK_BOUND {
        lemma_add_attrs_no_depth_err(None, n, attrs);
    }
}

/// Serializing anything but a mapping with exactly one entry fails with
/// `InvalidRoot`.
pub proof fn lemma_unparse_root_rule(v: GValue)
    ensures
        !(v matches GValue::Mapping(m) && m.len() == 1) ==> g_unparse(v) == Err::<
            Seq<char>,
            GErr,
        >(GErr::InvalidRoot),
{
}

/// The digits that `g_u_digits` prints are digits, and their value is the
/// number printed.
pub proof fn lemma_u_digits_value(n: int)
    requires
        n >= 0,
    ensures
        g_u_digits(n).len() >= 1,
        g_digits_in(g_u_digits(n), 0, g_u_digits(n).len() as int),
        g_digits_val(g_u_digits(n)) == n,
        !(g_u_digits(n)[0] == '+' || g_u_digits(n)[0] == '-'),
    decreases n,
{
    if n < 10 {
        let c = crate::num::g_digit_char(n);
        assert(g_u_digits(n) =~= seq![c]);
        assert(seq![c].drop_last() =~= Seq::<char>::empty());
        assert(g_digits_val(Seq::<char>::empty()) == 0);
        assert(g_digits_val(seq![c]) == g_digits_val(seq![c].drop_last()) * 10
            + crate::spec_digit_val(seq![c].last()));
        assert(crate::spec_digit_val(c) == n);
    } else {
        lemma_u_digits_value(n / 10);
        let pre = g_u_digits(n / 10);
        let whole = g_u_digits(n);
        assert(whole =~= pre + seq![crate::num::g_digit_char(n % 10)]);
        assert(whole.drop_last() =~= pre);
        assert(whole.last() == crate::num::g_digit_char(n % 10));
        assert(crate::spec_digit_val(crate::num::g_digit_char(n % 10)) == n % 10);
        assert(g_digits_val(whole) == g_digits_val(pre) * 10 + n % 10);
        assert(g_digits_val(pre) * 10 + n % 10 == n) by {
            assert(n == (n / 10) * 10 + n % 10);
        }
        assert forall|i: int| 0 <= i < whole.len() implies crate::spec_is_digit(whole[i]) by {
            if i < pre.len() {
                assert(whole[i] == pre[i]);
            }
        }
    }
}

/// Printing a 64-bit integer in decimal and parsing the text back restores
/// the integer: the integer fragment of the codec's round trip.
pub proof fn lemma_i64_print_parse_roundtrip(n: i64)
    ensures
        g_parse_i64(g_i64_str(n as int)) == Some(n),
{
    let s = g_i64_str(n as int);
    if n >= 0 {
        lemma_u_digits_value(n as int);
        assert(s == g_u_digits(n as int));
        assert(!(s[0] == '+' || s[0] == '-'));
        assert(g_parse_i64(s) == Some(n));
    } else {
        let mag = -(n as int);
        lemma_u_digits_value(mag);
        let ds = g_u_digits(mag);
        assert(s =~= seq!['-'] + ds);
        assert(s[0] == '-');
        assert(s.skip(1) =~= ds);
        assert(g_digits_val(ds) == mag);
        assert(g_parse_i64(s) == Some(n));
    }
}

/// Coercing the printed form of an integer under an integer-typed key
/// restores the integer value.
pub proof fn lemma_int_coerce_roundtrip(k: Seq<char>, n: i64)
    requires
        crate::coerce::g_is_int_key(k),
    ensures
        g_coerce(k, g_i64_str(n as int)) == Ok::<GValue, GErr>(GValue::Int(n)),
{
    reveal_strlit("open");
    reveal_strlit("pending");
    reveal_strlit("visible");
    reveal_strlit("ele");
    reveal_strlit("lat");
    reveal_strlit("lon");
    reveal_strlit("max_lat");
    reveal_strlit("max_lon");
    reveal_strlit("min_lat");
    reveal_strlit("min_lon");
    reveal_strlit("changes_count");
    reveal_strlit("changeset");
    reveal_strlit("comments_count");
    reveal_strlit("id");
    reveal_strlit("num_changes");
    reveal_strlit("ref");
    reveal_strlit("uid");
    assert("open"@.len() == 4 && "pending"@.len() == 7 && "visible"@.len() == 7);
    assert("ele"@.len() == 3 && "lat"@.len() == 3 && "lon"@.len() == 3);
    assert("max_lat"@.len() == 7 && "max_lon"@.len() == 7 && "min_lat"@.len() == 7
        && "min_lon"@.len() == 7);
    assert("changes_count"@.len() == 13 && "changeset"@.len() == 9 && "comments_count"@.len()
        == 14 && "id"@.len() == 2 && "num_changes"@.len() == 11 && "ref"@.len() == 3
        && "uid"@.len() == 3);
    assert("ref"@[0] == 'r' && "uid"@[0] == 'u' && "ele"@[0] == 'e' && "lat"@[0] == 'l'
        && "lon"@[0] == 'l');
    assert(!crate::coerce::g_is_bool_key(k));
    assert(!crate::coerce::g_is_float_key(k));
    lemma_i64_print_parse_roundtrip(n);
}



} // verus!

verus! {

/// Coercing the printed form of a boolean under a boolean-typed key
/// restores the boolean.
pub proof fn lemma_bool_coerce_roundtrip(k: Seq<char>, b: bool)
    requires
        crate::coerce::g_is_bool_key(k),
    ensures
        g_coerce(
            k,
            if b {
                "true"@
            } else {
                "false"@
            },
        ) == Ok::<GValue, GErr>(GValue::Bool(b)),
{
    reveal_strlit("true");
    reveal_strlit("false");
    assert("true"@.len() == 4 && "false"@.len() == 5);
}

/// A float value keeps its textual form through serialization, so a float
/// coerced from valid text round-trips by construction.
pub proof fn lemma_float_text_kept(k: Seq<char>, raw: Seq<char>)
    requires
        crate::coerce::g_is_float_key(k),
        crate::num::g_is_float(raw),
    ensures
        g_coerce(k, raw) == Ok::<GValue, GErr>(GValue::Float(raw)),
        crate::unparse::g_val_str(GValue::Float(raw)) == Ok::<Seq<char>, GErr>(raw),
{
    reveal_strlit("open");
    reveal_strlit("pending");
    reveal_strlit("visible");
    reveal_strlit("ele");
    reveal_strlit("lat");
    reveal_strlit("lon");
    reveal_strlit("max_lat");
    reveal_strlit("max_lon");
    reveal_strlit("min_lat");
    reveal_strlit("min_lon");
    assert("open"@.len() == 4 && "pending"@.len() == 7 && "visible"@.len() == 7);
    assert("ele"@.len() == 3 && "lat"@.len() == 3 && "lon"@.len() == 3);
    assert("max_lat"@.len() == 7 && "max_lon"@.len() == 7 && "min_lat"@.len() == 7
        && "min_lon"@.len() == 7);
    assert("ele"@[0] == 'e' && "lat"@[0] == 'l' && "lon"@[0] == 'l');
    assert("pending"@[0] == 'p' && "visible"@[0] == 'v' && "max_lat"@[0] == 'm' && "max_lon"@[0]
        == 'm' && "min_lat"@[0] == 'm' && "min_lon"@[0] == 'm');
    assert(!crate::coerce::g_is_bool_key(k));
}

/// A key outside every coercion table keeps the raw text as a string.
pub proof fn lemma_unlisted_key_keeps_text(k: Seq<char>, raw: Seq<char>)
    requires
        !crate::coerce::g_is_bool_key(k),
        !crate::coerce::g_is_float_key(k),
        !crate::coerce::g_is_int_key(k),
        !crate::coerce::g_is_date_key(k),
        k != "version"@,
    ensures
        g_coerce(k, raw) == Ok::<GValue, GErr>(GValue::Str(raw)),
{
}

} // verus!

verus! {

/// Appending a fresh key leaves earlier lookups alone.
proof fn lemma_map_find_push(m: Seq<(Seq<char>, GValue)>, p: (Seq<char>, GValue), k: Seq<char>)
    requires
        g_map_find(m, k) is None,
        p.0 != k,
    ensures
        g_map_find(m.push(p), k) is None,
{
    crate::builder::lemma_map_find_char(m, k);
    crate::builder::lemma_map_find_char(m.push(p), k);
    if g_map_find(m.push(p), k) is Some {
        let i = g_map_find(m.push(p), k)->Some_0;
        assert(m.push(p)[i].0 == k);
        if i < m.len() {
            assert(m.push(p)[i] == m[i]);
        } else {
            assert(m.push(p)[i] == p);
        }
    }
}

/// Storing a sequence of distinct fresh attribute keys appends their pairs
/// in order.
proof fn lemma_add_attrs_appends(
    acc: Seq<(Seq<char>, GValue)>,
    n: Seq<char>,
    attrs: Seq<(Seq<char>, Seq<char>)>,
    vals: Seq<GValue>,
)
    requires
        attrs.len() == vals.len(),
        forall|i: int|
            0 <= i < attrs.len() ==> g_coerce(#[trigger] attrs[i].0, attrs[i].1) == Ok::<
                GValue,
                GErr,
            >(vals[i]),
        forall|i: int|
            0 <= i < attrs.len() ==> g_map_find(acc, seq!['@'] + #[trigger] attrs[i].0) is None,
        forall|i: int, j: int| 0 <= i < j < attrs.len() ==> attrs[i].0 != attrs[j].0,
    ensures
        g_add_attrs(Some(acc), n, attrs) == Ok::<Option<Seq<(Seq<char>, GValue)>>, GErr>(
            Some(acc + Seq::new(attrs.len(), |i: int| (seq!['@'] + attrs[i].0, vals[i]))),
        ),
    decreases attrs.len(),
{
    let pairs = Seq::new(attrs.len(), |i: int| (seq!['@'] + attrs[i].0, vals[i]));
    if attrs.len() == 0 {
        assert(acc + pairs =~= acc);
    } else {
        let k0 = seq!['@'] + attrs[0].0;
        assert(g_coerce(attrs[0].0, attrs[0].1) == Ok::<GValue, GErr>(vals[0]));
        assert(g_map_find(acc, k0) is None);
        let acc2 = acc.push((k0, vals[0]));
        assert(crate::builder::g_map_set(acc, k0, vals[0]) == acc2);
        let at = attrs.skip(1);
        let vt = vals.skip(1);
        assert forall|i: int| 0 <= i < at.len() implies g_coerce(
            #[trigger] at[i].0,
            at[i].1,
        ) == Ok::<GValue, GErr>(vt[i]) by {
            assert(at[i] == attrs[i + 1]);
            assert(vt[i] == vals[i + 1]);
        }
        assert forall|i: int| 0 <= i < at.len() implies g_map_find(
            acc2,
            seq!['@'] + #[trigger] at[i].0,
        ) is None by {
            assert(at[i] == attrs[i + 1]);
            assert(attrs[0].0 != attrs[i + 1].0);
            assert(seq!['@'] + attrs[i + 1].0 != k0) by {
                if seq!['@'] + attrs[i + 1].0 == k0 {
                    assert((seq!['@'] + attrs[i + 1].0).skip(1) =~= attrs[i + 1].0);
                    assert(k0.skip(1) =~= attrs[0].0);
                }
            }
            lemma_map_find_push(acc, (k0, vals[0]), seq!['@'] + attrs[i + 1].0);
        }
        assert forall|i: int, j: int| 0 <= i < j < at.len() implies at[i].0 != at[j].0 by {
            assert(at[i] == attrs[i + 1]);
            assert(at[j] == attrs[j + 1]);
        }
        lemma_add_attrs_appends(acc2, n, at, vt);
        let tailpairs = Seq::new(at.len(), |i: int| (seq!['@'] + at[i].0, vt[i]));
        assert(acc2 + tailpairs =~= acc + pairs) by {
            assert forall|i: int| 0 <= i < tailpairs.len() implies tailpairs[i] == pairs[i
                + 1] by {
                assert(at[i] == attrs[i + 1]);
                assert(vt[i] == vals[i + 1]);
            }
        }
    }
}

/// One self-closed element whose attributes coerce builds back exactly the
/// record those attributes describe: the document is a one-entry mapping on
/// the element's name, holding the `@`-prefixed keys with their coerced
/// values, in attribute order. This is the structural half of the codec's
/// round trip for a flat record.
pub proof fn lemma_attribute_record_build(
    n: Seq<char>,
    attrs: Seq<(Seq<char>, Seq<char>)>,
    vals: Seq<GValue>,
)
    requires
        1 <= attrs.len() == vals.len(),
        forall|i: int|
            0 <= i < attrs.len() ==> g_coerce(#[trigger] attrs[i].0, attrs[i].1) == Ok::<
                GValue,
                GErr,
            >(vals[i]),
        forall|i: int, j: int| 0 <= i < j < attrs.len() ==> attrs[i].0 != attrs[j].0,
    ensures
        crate::builder::g_build(seq![crate::events::GEvent::SelfClosed(n, attrs)]) == Ok::<
            GValue,
            GErr,
        >(
            GValue::Mapping(
                seq![
                    (
                        n,
                        GValue::Mapping(
                            Seq::new(attrs.len(), |i: int| (seq!['@'] + attrs[i].0, vals[i])),
                        ),
                    ),
                ],
            ),
        ),
{
    let ev = crate::events::GEvent::SelfClosed(n, attrs);
    let evs = seq![ev];
    assert(evs.drop_last() =~= Seq::<crate::events::GEvent>::empty());
    assert(crate::builder::g_run(Seq::<crate::events::GEvent>::empty()) == Ok::<
        GBuilder,
        GErr,
    >(crate::builder::g_init()));
    let st0 = crate::builder::g_init();
    assert(st0.stack.len() == 0);

    // Opening stores the attributes in order.
    let pairs = Seq::new(attrs.len(), |i: int| (seq!['@'] + attrs[i].0, vals[i]));
    assert(g_coerce(attrs[0].0, attrs[0].1) == Ok::<GValue, GErr>(vals[0]));
    let k0 = seq!['@'] + attrs[0].0;
    let acc1 = Seq::<(Seq<char>, GValue)>::empty().push((k0, vals[0]));
    assert(crate::builder::g_map_find(Seq::<(Seq<char>, GValue)>::empty(), k0) is None);
    assert(crate::builder::g_map_set(Seq::<(Seq<char>, GValue)>::empty(), k0, vals[0])
        == acc1);
    let at = attrs.skip(1);
    let vt = vals.skip(1);
    assert forall|i: int| 0 <= i < at.len() implies g_coerce(#[trigger] at[i].0, at[i].1)
        == Ok::<GValue, GErr>(vt[i]) by {
        assert(at[i] == attrs[i + 1]);
        assert(vt[i] == vals[i + 1]);
    }
    assert forall|i: int| 0 <= i < at.len() implies crate::builder::g_map_find(
        acc1,
        seq!['@'] + #[trigger] at[i].0,
    ) is None by {
        assert(at[i] == attrs[i + 1]);
        assert(seq!['@'] + attrs[i + 1].0 != k0) by {
            if seq!['@'] + attrs[i + 1].0 == k0 {
                assert((seq!['@'] + attrs[i + 1].0).skip(1) =~= attrs[i + 1].0);
                assert(k0.skip(1) =~= attrs[0].0);
            }
        }
        crate::builder::lemma_map_find_char(acc1, seq!['@'] + attrs[i + 1].0);
    }
    assert forall|i: int, j: int| 0 <= i < j < at.len() implies at[i].0 != at[j].0 by {
        assert(at[i] == attrs[i + 1]);
        assert(at[j] == attrs[j + 1]);
    }
    lemma_add_attrs_appends(acc1, n, at, vt);
    let tailpairs = Seq::new(at.len(), |i: int| (seq!['@'] + at[i].0, vt[i]));
    assert(acc1 + tailpairs =~= pairs) by {
        assert forall|i: int| 0 <= i < tailpairs.len() implies tailpairs[i] == pairs[i + 1] by {
            assert(at[i] == attrs[i + 1]);
            assert(vt[i] == vals[i + 1]);
        }
    }
    assert(g_add_attrs(None, n, attrs) == Ok::<Option<Seq<(Seq<char>, GValue)>>, GErr>(
        Some(pairs),
    ));

    // Closing reduces the frame to the mapping: a one-pair mapping does not
    // collapse, because its key starts with the attribute marker.
    let st1 = g_open(st0, n, attrs)->Ok_0;
    assert(st1.cur->Some_0.map == Some(pairs));
    if pairs.len() == 1 {
        reveal_strlit("#text");
        assert(pairs[0].0[0] == '@');
        assert("#text"@[0] == '#');
        assert(pairs[0].0 != crate::builder::g_text_key());
    }
    assert(crate::builder::g_reduce(Some(pairs), None) == Some(GValue::Mapping(pairs)));
    let st2 = crate::builder::g_close(st1);
    assert(st2.result == Some((n, GValue::Mapping(pairs))));
    assert(crate::builder::g_run(evs) == Ok::<GBuilder, GErr>(st2));
}

} // verus!

verus! {

/// The attribute text a flat record serializes to: one ` key="escaped"`
/// piece per pair, in order, with the `@` marker stripped.
pub open spec fn g_record_attrs(m: Seq<(Seq<char>, GValue)>) -> Seq<char>
    decreases m,
{
    if m.len() == 0 {
        Seq::empty()
    } else {
        g_record_attrs(m.drop_last()) + (" "@ + m.last().0.skip(1) + "=\""@ + crate::escape::g_escape(
            match crate::unparse::g_val_str(m.last().1) {
                Ok(s) => s,
                Err(_) => Seq::empty(),
            },
            true,
        ) + "\""@)
    }
}

/// All keys carry the attribute marker and all values have scalar text.
pub open spec fn g_is_attr_record(m: Seq<(Seq<char>, GValue)>) -> bool {
    forall|i: int|
        0 <= i < m.len() ==> (#[trigger] m[i].0).len() > 0 && m[i].0[0] == '@'
            && crate::unparse::g_val_str(m[i].1) is Ok
}

proof fn lemma_record_pairs_parts(m: Seq<(Seq<char>, GValue)>)
    requires
        g_is_attr_record(m),
    ensures
        crate::unparse::g_pairs_parts(m) == Ok::<(Seq<char>, Seq<char>), GErr>(
            (g_record_attrs(m), Seq::empty()),
        ),
    decreases m.len(),
{
    if m.len() > 0 {
        assert(g_is_attr_record(m.drop_last())) by {
            assert(forall|i: int| 0 <= i < m.len() - 1 ==> m.drop_last()[i] == m[i]);
        }
        lemma_record_pairs_parts(m.drop_last());
        let k = m.last().0;
        let v = m.last().1;
        assert(k.len() > 0 && k[0] == '@' && crate::unparse::g_val_str(v) is Ok);
        let s = crate::unparse::g_val_str(v)->Ok_0;
        assert(crate::unparse::g_pair_parts(k, v) == Ok::<(Seq<char>, Seq<char>), GErr>(
            (" "@ + k.skip(1) + "=\""@ + crate::escape::g_escape(s, true) + "\""@, Seq::empty()),
        ));
        assert(Seq::<char>::empty() + Seq::<char>::empty() =~= Seq::<char>::empty());
    } else {
        assert(g_record_attrs(m) =~= Seq::<char>::empty());
    }
}

/// A flat record — a one-entry root mapping holding attribute pairs only —
/// serializes to exactly the declaration line, one self-closed element with
/// those attributes in order, and the final newline. Together with
/// `lemma_attribute_record_build`, this pins the round trip of flat records
/// down to the reader: the builder restores the record from the one
/// self-closed event that this text denotes, whenever each attribute's text
/// coerces back to its value.
pub proof fn lemma_attribute_record_unparse(n: Seq<char>, m: Seq<(Seq<char>, GValue)>)
    requires
        g_is_attr_record(m),
    ensures
        g_unparse(GValue::Mapping(seq![(n, GValue::Mapping(m))])) == Ok::<Seq<char>, GErr>(
            crate::unparse::g_decl() + ("<"@ + n + g_record_attrs(m) + "/>"@) + "\n"@,
        ),
{
    lemma_record_pairs_parts(m);
    let body = crate::unparse::g_emit_value(n, GValue::Mapping(m), true);
    assert(body == Ok::<Seq<char>, GErr>(crate::unparse::g_assemble(
        n,
        g_record_attrs(m),
        Seq::empty(),
    )));
    let b = "<"@ + n + g_record_attrs(m) + "/>"@;
    assert(crate::unparse::g_assemble(n, g_record_attrs(m), Seq::empty()) =~= b);
    reveal_strlit("<");
    assert(b.len() > 0);
    let root = GValue::Mapping(seq![(n, GValue::Mapping(m))]);
    assert(seq![(n, GValue::Mapping(m))].len() == 1);
    assert(g_unparse(root) == Ok::<Seq<char>, GErr>(crate::unparse::g_decl() + b + "\n"@));
}

} // verus!

verus! {

/// Well-formed optional mapping: unique keys and well-formed values.
pub open spec fn g_wf_map_opt(m: Option<Seq<(Seq<char>, GValue)>>) -> bool {
    match m {
        Some(mm) => crate::value::g_unique_keys(mm) && (forall|i: int|
            0 <= i < mm.len() ==> crate::value::g_wf((#[trigger] mm[i]).1)),
        None => true,
    }
}

/// Well-formed frame: both collectors hold well-formed content.
pub open spec fn g_wf_frame(f: crate::builder::GFrame) -> bool {
    g_wf_map_opt(f.map) && match f.list {
        Some(l) => forall|i: int| 0 <= i < l.len() ==> crate::value::g_wf_entry(#[trigger] l[i]),
        None => true,
    }
}

/// Well-formed machine state: every frame and any result are well formed.
pub open spec fn g_wf_st(st: GBuilder) -> bool {
    &&& forall|i: int| 0 <= i < st.stack.len() ==> g_wf_frame(#[trigger] st.stack[i])
    &&& match st.cur {
        Some(f) => g_wf_frame(f),
        None => true,
    }
    &&& match st.result {
        Some(p) => crate::value::g_wf(p.1),
        None => true,
    }
}

/// Coercion yields scalars, which are well formed.
proof fn lemma_coerce_wf(k: Seq<char>, raw: Seq<char>)
    ensures
        g_coerce(k, raw) matches Ok(v) ==> crate::value::g_wf(v),
{
}

/// Storing a well-formed value keeps the mapping well formed.
proof fn lemma_map_set_wf(m: Seq<(Seq<char>, GValue)>, k: Seq<char>, v: GValue)
    requires
        crate::value::g_unique_keys(m),
        forall|i: int| 0 <= i < m.len() ==> crate::value::g_wf((#[trigger] m[i]).1),
        crate::value::g_wf(v),
    ensures
        crate::value::g_unique_keys(crate::builder::g_map_set(m, k, v)),
        forall|i: int|
            0 <= i < crate::builder::g_map_set(m, k, v).len() ==> crate::value::g_wf(
                (#[trigger] crate::builder::g_map_set(m, k, v)[i]).1,
            ),
{
    crate::builder::lemma_map_find_char(m, k);
    let m2 = crate::builder::g_map_set(m, k, v);
    match g_map_find(m, k) {
        Some(i) => {
            assert(m[i].0 == k);
            assert forall|a: int, b: int| 0 <= a < b < m2.len() implies m2[a].0 != m2[b].0 by {
                assert(m2[a].0 == m[a].0);
                assert(m2[b].0 == m[b].0);
            }
        },
        None => {
            assert forall|a: int, b: int| 0 <= a < b < m2.len() implies m2[a].0 != m2[b].0 by {
                if b < m.len() {
                } else {
                    assert(m2[b] == (k, v));
                    assert(m2[a] == m[a]);
                    assert(m[a].0 != k);
                }
            }
        },
    }
}

/// Flattened pairs of a well-formed mapping are well-formed entries.
proof fn lemma_pairs_of_wf(m: Seq<(Seq<char>, GValue)>)
    requires
        forall|i: int| 0 <= i < m.len() ==> crate::value::g_wf((#[trigger] m[i]).1),
    ensures
        forall|i: int|
            0 <= i < crate::builder::g_pairs_of(m).len() ==> crate::value::g_wf_entry(
                #[trigger] crate::builder::g_pairs_of(m)[i],
            ),
{
    assert forall|i: int| 0 <= i < crate::builder::g_pairs_of(m).len()
        implies crate::value::g_wf_entry(#[trigger] crate::builder::g_pairs_of(m)[i]) by {
        assert(crate::builder::g_pairs_of(m)[i] == GEntry::Pair(m[i].0, m[i].1));
        assert(crate::value::g_wf(m[i].1));
    }
}

/// A closing frame reduces to a well-formed child.
proof fn lemma_reduce_wf(
    map: Option<Seq<(Seq<char>, GValue)>>,
    list: Option<Seq<GEntry>>,
)
    requires
        g_wf_map_opt(map),
        match list {
            Some(l) => forall|i: int|
                0 <= i < l.len() ==> crate::value::g_wf_entry(#[trigger] l[i]),
            None => true,
        },
    ensures
        crate::builder::g_reduce(map, list) matches Some(c) ==> crate::value::g_wf(c),
{
    match (map, list) {
        (Option::Some(m), Option::None) => {
            if m.len() == 1 && m[0].0 == crate::builder::g_text_key() {
                assert(crate::value::g_wf(m[0].1));
            }
        },
        (Option::Some(m), Option::Some(l)) => {
            lemma_pairs_of_wf(m);
            let merged = crate::builder::g_pairs_of(m) + l;
            assert forall|i: int| 0 <= i < merged.len() implies crate::value::g_wf_entry(
                #[trigger] merged[i],
            ) by {
                if i < crate::builder::g_pairs_of(m).len() {
                    assert(merged[i] == crate::builder::g_pairs_of(m)[i]);
                } else {
                    assert(merged[i] == l[i - crate::builder::g_pairs_of(m).len()]);
                }
            }
        },
        _ => {},
    }
}

/// Attaching a well-formed child keeps the parent frame well formed.
proof fn lemma_attach_wf(parent: crate::builder::GFrame, name: Seq<char>, c: GValue)
    requires
        g_wf_frame(parent),
        crate::value::g_wf(c),
    ensures
        g_wf_frame(crate::builder::g_attach(parent, name, c)),
{
    let out = crate::builder::g_attach(parent, name, c);
    if parent.list is Some {
        let l = parent.list->Some_0;
        let l2 = l.push(GEntry::Pair(name, c));
        assert forall|i: int| 0 <= i < l2.len() implies crate::value::g_wf_entry(
            #[trigger] l2[i],
        ) by {
            if i < l.len() {
                assert(l2[i] == l[i]);
            } else {
                assert(l2[i] == GEntry::Pair(name, c));
            }
        }
    } else if crate::builder::g_in_force_items(name) {
        let pairs = match parent.map {
            Some(m) => crate::builder::g_pairs_of(m),
            None => Seq::<GEntry>::empty(),
        };
        if parent.map is Some {
            lemma_pairs_of_wf(parent.map->Some_0);
        }
        let l2 = pairs.push(GEntry::Pair(name, c));
        assert forall|i: int| 0 <= i < l2.len() implies crate::value::g_wf_entry(
            #[trigger] l2[i],
        ) by {
            if i < pairs.len() {
                assert(l2[i] == pairs[i]);
            } else {
                assert(l2[i] == GEntry::Pair(name, c));
            }
        }
    } else {
        let m = match parent.map {
            Some(mm) => mm,
            None => Seq::<(Seq<char>, GValue)>::empty(),
        };
        crate::builder::lemma_map_find_char(m, name);
        match crate::builder::g_map_get(m, name) {
            Some(ex) => {
                let i0 = g_map_find(m, name)->Some_0;
                assert(ex == m[i0].1);
                assert(crate::value::g_wf(ex));
                match ex {
                    GValue::List(l) => {
                        let l2 = l.push(GEntry::Item(c));
                        assert forall|i: int| 0 <= i < l2.len()
                            implies crate::value::g_wf_entry(#[trigger] l2[i]) by {
                            if i < l.len() {
                                assert(l2[i] == l[i]);
                                assert(crate::value::g_wf_entry(l[i]));
                            } else {
                                assert(l2[i] == GEntry::Item(c));
                            }
                        }
                        lemma_map_set_wf(m, name, GValue::List(l2));
                    },
                    _ => {
                        let two = seq![GEntry::Item(ex), GEntry::Item(c)];
                        assert(crate::value::g_wf_entry(two[0]));
                        assert(crate::value::g_wf_entry(two[1]));
                        lemma_map_set_wf(m, name, GValue::List(two));
                    },
                }
            },
            None => {
                if crate::builder::g_in_force_list(name) {
                    let one = seq![GEntry::Item(c)];
                    assert(crate::value::g_wf_entry(one[0]));
                    lemma_map_set_wf(m, name, GValue::List(one));
                } else {
                    lemma_map_set_wf(m, name, c);
                }
            },
        }
    }
}

/// Storing coerced attributes keeps the mapping well formed.
proof fn lemma_add_attrs_wf(
    m: Option<Seq<(Seq<char>, GValue)>>,
    name: Seq<char>,
    attrs: Seq<(Seq<char>, Seq<char>)>,
)
    requires
        g_wf_map_opt(m),
    ensures
        g_add_attrs(m, name, attrs) matches Ok(m2) ==> g_wf_map_opt(m2),
    decreases attrs.len(),
{
    if attrs.len() > 0 {
        match g_coerce(attrs[0].0, attrs[0].1) {
            Err(_) => {},
            Ok(v) => {
                lemma_coerce_wf(attrs[0].0, attrs[0].1);
                let base = match m {
                    Some(mm) => mm,
                    None => Seq::empty(),
                };
                lemma_map_set_wf(base, seq!['@'] + attrs[0].0, v);
                lemma_add_attrs_wf(
                    Some(crate::builder::g_map_set(base, seq!['@'] + attrs[0].0, v)),
                    name,
                    attrs.skip(1),
                );
            },
        }
    }
}

/// One machine step preserves well-formedness of the state.
proof fn lemma_step_wf(st: GBuilder, ev: crate::events::GEvent)
    requires
        g_wf_st(st),
    ensures
        crate::builder::g_step(st, ev) matches Ok(st2) ==> g_wf_st(st2),
{
    match ev {
        crate::events::GEvent::Open(n, attrs) => {
            lemma_open_wf(st, n, attrs);
        },
        crate::events::GEvent::SelfClosed(n, attrs) => {
            lemma_open_wf(st, n, attrs);
            match g_open(st, n, attrs) {
                Ok(st1) => {
                    lemma_close_wf(st1);
                },
                Err(_) => {},
            }
        },
        crate::events::GEvent::Close => {
            lemma_close_wf(st);
        },
        crate::events::GEvent::Text(s) => {
            lemma_text_wf(st, s);
        },
    }
}

proof fn lemma_open_wf(st: GBuilder, n: Seq<char>, attrs: Seq<(Seq<char>, Seq<char>)>)
    requires
        g_wf_st(st),
    ensures
        g_open(st, n, attrs) matches Ok(st2) ==> g_wf_st(st2),
{
    if st.stack.len() < crate::builder::STACK_BOUND as int {
        let stack2 = match st.cur {
            Some(f) => st.stack.push(f),
            None => st.stack,
        };
        assert forall|i: int| 0 <= i < stack2.len() implies g_wf_frame(
            #[trigger] stack2[i],
        ) by {
            if i < st.stack.len() {
                assert(stack2[i] == st.stack[i]);
            }
        }
        lemma_add_attrs_wf(None, n, attrs);
    }
}

proof fn lemma_text_wf(st: GBuilder, s: Seq<char>)
    requires
        g_wf_st(st),
    ensures
        crate::builder::g_text(st, s) matches Ok(st2) ==> g_wf_st(st2),
{
    if !crate::chars::spec_all_space(s) {
        match st.cur {
            None => {},
            Some(f) => {
                match g_coerce(f.name, s) {
                    Err(_) => {},
                    Ok(v) => {
                        lemma_coerce_wf(f.name, s);
                        if f.list is Some {
                            let l = f.list->Some_0;
                            let l2 = l.push(GEntry::Pair(crate::builder::g_text_key(), v));
                            assert forall|i: int| 0 <= i < l2.len()
                                implies crate::value::g_wf_entry(#[trigger] l2[i]) by {
                                if i < l.len() {
                                    assert(l2[i] == l[i]);
                                }
                            }
                        } else {
                            let m = match f.map {
                                Some(mm) => mm,
                                None => Seq::empty(),
                            };
                            if f.text is Some {
                                lemma_map_set_wf(
                                    m,
                                    crate::builder::g_text_key(),
                                    GValue::Str(f.text->Some_0 + crate::builder::g_scalar_txt(v)),
                                );
                            } else {
                                match crate::builder::g_map_get(m, crate::builder::g_text_key()) {
                                    Some(ex) => {
                                        lemma_map_set_wf(
                                            m,
                                            crate::builder::g_text_key(),
                                            GValue::Str(
                                                crate::builder::g_scalar_txt(ex)
                                                    + crate::builder::g_scalar_txt(v),
                                            ),
                                        );
                                    },
                                    None => {
                                        lemma_map_set_wf(m, crate::builder::g_text_key(), v);
                                    },
                                }
                            }
                        }
                    },
                }
            },
        }
    }
}

proof fn lemma_close_wf(st: GBuilder)
    requires
        g_wf_st(st),
    ensures
        g_wf_st(crate::builder::g_close(st)),
{
    match st.cur {
        None => {},
        Some(f) => {
            lemma_reduce_wf(f.map, f.list);
            let child = crate::builder::g_reduce(f.map, f.list);
            if st.stack.len() > 0 {
                let parent = st.stack.last();
                assert(g_wf_frame(parent));
                match child {
                    None => {},
                    Some(c) => {
                        lemma_attach_wf(parent, f.name, c);
                    },
                }
                let stack2 = st.stack.drop_last();
                assert(forall|i: int|
                    0 <= i < stack2.len() ==> #[trigger] stack2[i] == st.stack[i]);
            }
        },
    }
}

/// A successful run of the machine is well formed throughout.
proof fn lemma_run_wf(evs: Seq<crate::events::GEvent>)
    ensures
        crate::builder::g_run(evs) matches Ok(st) ==> g_wf_st(st),
    decreases evs.len(),
{
    if evs.len() == 0 {
    } else {
        lemma_run_wf(evs.drop_last());
        match crate::builder::g_run(evs.drop_last()) {
            Err(_) => {},
            Ok(st) => {
                lemma_step_wf(st, evs.last());
            },
        }
    }
}

/// Every document the builder produces is well formed: every mapping inside
/// it, at any depth, has unique keys.
pub proof fn lemma_build_wf(evs: Seq<crate::events::GEvent>)
    ensures
        crate::builder::g_build(evs) matches Ok(v) ==> crate::value::g_wf(v),
{
    lemma_run_wf(evs);
    match crate::builder::g_run(evs) {
        Err(_) => {},
        Ok(st) => {
            match st.result {
                None => {},
                Some(p) => {
                    let one = seq![(p.0, p.1)];
                    assert(crate::value::g_unique_keys(one));
                    assert(forall|i: int|
                        0 <= i < one.len() ==> crate::value::g_wf((#[trigger] one[i]).1));
                },
            }
        },
    }
}

} // verus!

verus! {

/// Duplicate sibling folding, in general: attaching two children of the
/// same name — one outside both policy tables — into a parent that has no
/// list collector and no entry under that name yet stores them as a list of
/// both values, in arrival order.
pub proof fn lemma_duplicate_fold(
    parent: crate::builder::GFrame,
    n: Seq<char>,
    c1: GValue,
    c2: GValue,
)
    requires
        parent.list is None,
        !crate::builder::g_in_force_items(n),
        !crate::builder::g_in_force_list(n),
        !(c1 is List),
        match parent.map {
            Some(m) => g_map_find(m, n) is None,
            None => true,
        },
    ensures
        ({
            let m2 = crate::builder::g_attach(
                crate::builder::g_attach(parent, n, c1),
                n,
                c2,
            ).map->Some_0;
            crate::builder::g_map_get(m2, n) == Some(
                GValue::List(seq![GEntry::Item(c1), GEntry::Item(c2)]),
            )
        }),
{
    let m0 = match parent.map {
        Some(mm) => mm,
        None => Seq::<(Seq<char>, GValue)>::empty(),
    };
    crate::builder::lemma_map_find_char(m0, n);
    let m1 = m0.push((n, c1));
    assert(crate::builder::g_map_set(m0, n, c1) == m1);
    crate::builder::lemma_map_find_char(m1, n);
    let i1 = g_map_find(m1, n)->Some_0;
    assert(m1[m0.len() as int].0 == n);
    assert(i1 == m0.len());
    assert(crate::builder::g_map_get(m1, n) == Some(c1));
    let both = GValue::List(seq![GEntry::Item(c1), GEntry::Item(c2)]);
    let m2 = m1.update(i1, (n, both));
    assert(crate::builder::g_map_set(m1, n, both) == m2);
    crate::builder::lemma_map_find_char(m2, n);
    let i2 = g_map_find(m2, n)->Some_0;
    assert(m2[i1].0 == n);
    assert(i2 == i1);
    assert(crate::builder::g_map_get(m2, n) == Some(both));
}

/// Force-list wrapping, in general: a first child under a force-list name
/// is stored already wrapped in a one-entry list.
pub proof fn lemma_force_list_first(
    parent: crate::builder::GFrame,
    n: Seq<char>,
    c: GValue,
)
    requires
        parent.list is None,
        !crate::builder::g_in_force_items(n),
        crate::builder::g_in_force_list(n),
        match parent.map {
            Some(m) => g_map_find(m, n) is None,
            None => true,
        },
    ensures
        ({
            let m2 = crate::builder::g_attach(parent, n, c).map->Some_0;
            crate::builder::g_map_get(m2, n) == Some(GValue::List(seq![GEntry::Item(c)]))
        }),
{
    let m0 = match parent.map {
        Some(mm) => mm,
        None => Seq::<(Seq<char>, GValue)>::empty(),
    };
    crate::builder::lemma_map_find_char(m0, n);
    let one = GValue::List(seq![GEntry::Item(c)]);
    let m1 = m0.push((n, one));
    assert(crate::builder::g_map_set(m0, n, one) == m1);
    crate::builder::lemma_map_find_char(m1, n);
    let i1 = g_map_find(m1, n)->Some_0;
    assert(m1[m0.len() as int].0 == n);
    assert(i1 == m0.len());
    assert(crate::builder::g_map_get(m1, n) == Some(one));
}

/// Force-items interleave order, in general: the first force-items child
/// flattens the parent's mapping into the pair-list collector and appends
/// itself; every later sibling — of any name — appends behind it, so
/// document order survives.
pub proof fn lemma_force_items_order(
    parent: crate::builder::GFrame,
    n1: Seq<char>,
    c1: GValue,
    n2: Seq<char>,
    c2: GValue,
)
    requires
        parent.list is None,
        parent.map is None,
        crate::builder::g_in_force_items(n1),
    ensures
        crate::builder::g_attach(crate::builder::g_attach(parent, n1, c1), n2, c2).list == Some(
            seq![GEntry::Pair(n1, c1), GEntry::Pair(n2, c2)],
        ),
{
    let st1 = crate::builder::g_attach(parent, n1, c1);
    assert(st1.list == Some(Seq::<GEntry>::empty().push(GEntry::Pair(n1, c1))));
    assert(Seq::<GEntry>::empty().push(GEntry::Pair(n1, c1)).push(GEntry::Pair(n2, c2)) =~= seq![
        GEntry::Pair(n1, c1),
        GEntry::Pair(n2, c2),
    ]);
}

} // verus!
