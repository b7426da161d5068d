//! Enums of a component: `Enum { name: "..."; values: { "A": 0, ... } }`.
use vstd::prelude::*;
use super::{QmlEnum, QmlEnumSpec, binding_name, quoted_value, values_view, binding_name_of, quoted_value_of};
use crate::syntax::{
    SyntaxNode, MalformedTree, field_child, child_at, span_text, child_by_field, nth_child, node_text,
    kind_is, fold_nodes, lemma_fold_nodes_step, lemma_fold_nodes_prefix_none, lemma_take_all,
};
use crate::text::{rows, text_is, chars_of};

verus! {

/// Whether a digit.
pub open spec fn is_digit(c: char) -> bool {
    '0' <= c && c <= '9'
}

/// The number that decimal digits write.
pub open spec fn digits_value(s: Seq<char>) -> int
    decreases s.len(),
{
    if s.len() == 0 {
        0
    } else {
        digits_value(s.drop_last()) * 10 + (s.last() as int - '0' as int)
    }
}

/// The length of the sign in front of a number: one for a `+` or `-`, else none.
pub open spec fn sign_len(s: Seq<char>) -> int {
    if s.len() > 0 && (s[0] == '-' || s[0] == '+') {
        1
    } else {
        0
    }
}

/// Whether every character is a decimal digit.
pub open spec fn all_digits(d: Seq<char>) -> bool {
    forall|i: int| 0 <= i < d.len() ==> is_digit(#[trigger] d[i])
}

/// What `i32::from_str` reads: an optional `+` or `-`, then one or more decimal digits,
/// whose value must fit in an `i32`.
pub open spec fn decimal_i32(s: Seq<char>) -> Option<i32> {
    let digits = s.skip(sign_len(s));
    let value = if s.len() > 0 && s[0] == '-' {
        -digits_value(digits)
    } else {
        digits_value(digits)
    };
    if digits.len() > 0 && all_digits(digits) && i32::MIN <= value && value <= i32::MAX {
        Some(value as i32)
    } else {
        None
    }
}

proof fn lemma_digits_value_nonneg(s: Seq<char>)
    requires
        forall|i: int| 0 <= i < s.len() ==> is_digit(#[trigger] s[i]),
    ensures
        digits_value(s) >= 0,
    decreases s.len(),
{
    if s.len() > 0 {
        lemma_digits_value_nonneg(s.drop_last());
    }
}

/// The number that `s` writes in decimal, as `str::parse::<i32>` reads it (see
/// [`decimal_i32`]): `None` when it writes none or one out of range.
fn parse_i32(s: &str) -> (r: Option<i32>)
    ensures
        r == decimal_i32(s@),
{
    let cs = chars_of(s);
    let n = cs.len();
    let negative = n > 0 && cs[0] == '-';
    let start: usize = if n > 0 && (cs[0] == '-' || cs[0] == '+') { 1 } else { 0 };
    let ghost digits = s@.skip(start as int);
    assert(start == sign_len(s@));
    assert(negative == (s@.len() > 0 && s@[0] == '-'));
    if start == n {
        return None;
    }
    let mut value: i64 = 0;
    let mut big = false;
    let mut i: usize = start;
    while i < n
        invariant
            cs@ == s@,
            n == cs.len(),
            start <= i <= n,
            digits == s@.skip(start as int),
            start == sign_len(s@),
            forall|k: int| 0 <= k < i - start ==> is_digit(#[trigger] digits[k]),
            !big ==> value == digits_value(digits.take(i - start)) && 0 <= value <= 2147483648,
            big ==> digits_value(digits.take(i - start)) > 2147483648,
        decreases n - i,
    {
        let c = cs[i];
        if !('0' <= c && c <= '9') {
            assert(digits[i - start] == c);
            assert(!is_digit(digits[i - start]));
            assert(!all_digits(digits));
            return None;
        }
        let ghost k = i - start;
        assert(digits.take(k + 1).drop_last() == digits.take(k));
        assert(digits.take(k + 1).last() == c);
        proof { lemma_digits_value_nonneg(digits.take(k)); }
        if !big {
            let d: i64 = (c as u32 - '0' as u32) as i64;
            let next = value * 10 + d;
            if next > 2147483648 {
                big = true;
            } else {
                value = next;
            }
        }
        i = i + 1;
    }
    assert(digits.take(n - start) == digits);
    assert(digits.len() > 0);
    assert(all_digits(digits));
    if big {
        assert(digits_value(digits) > 2147483648);
        return None;
    }
    assert(value == digits_value(digits));
    if negative {
        Some((0 - value) as i32)
    } else if value <= 2147483647 {
        Some(value as i32)
    } else {
        None
    }
}

/// One entry of an enum's values: a `pair` adds its key's quoted text and its value's
/// number; other nodes add nothing.
pub open spec fn value_step(lines: Seq<Seq<u8>>) -> spec_fn(Seq<(Seq<char>, i32)>, SyntaxNode) -> Option<Seq<(Seq<char>, i32)>> {
    |st: Seq<(Seq<char>, i32)>, c: SyntaxNode|
        if c.kind@ == "pair"@ {
            match field_child(c, "key"@) {
                None => None,
                Some(k) => match child_at(k, 1) {
                    None => None,
                    Some(kn) => match span_text(lines, kn) {
                        None => None,
                        Some(key) => match field_child(c, "value"@) {
                            None => None,
                            Some(v) => match span_text(lines, v) {
                                None => None,
                                Some(vt) => match decimal_i32(vt) {
                                    None => None,
                                    Some(x) => Some(st.push((key, x))),
                                },
                            },
                        },
                    },
                },
            }
        } else {
            Some(st)
        }
}

/// The values of an enum, read from the nodes of its values object.
pub open spec fn enum_values(lines: Seq<Seq<u8>>, cs: Seq<SyntaxNode>) -> Option<Seq<(Seq<char>, i32)>> {
    fold_nodes(cs, Seq::empty(), value_step(lines))
}

/// One binding of an enum: `name` sets the name, `values` the values; the last one wins.
pub open spec fn enum_step(lines: Seq<Seq<u8>>) -> spec_fn(QmlEnumSpec, SyntaxNode) -> Option<QmlEnumSpec> {
    |st: QmlEnumSpec, c: SyntaxNode|
        if c.kind@ == "ui_binding"@ {
            match binding_name(lines, c) {
                None => None,
                Some(idname) => if idname == "name"@ {
                    match quoted_value(lines, c) {
                        None => None,
                        Some(v) => Some(QmlEnumSpec { name: v, ..st }),
                    }
                } else if idname == "values"@ {
                    match field_child(c, "value"@) {
                        None => None,
                        Some(v) => match child_at(v, 0) {
                            None => None,
                            Some(obj) => match enum_values(lines, obj.children@) {
                                None => None,
                                Some(vals) => Some(QmlEnumSpec { values: vals, ..st }),
                            },
                        },
                    }
                } else {
                    Some(st)
                },
            }
        } else {
            Some(st)
        }
}

/// The enum that an `Enum` object's initializer describes.
pub open spec fn enum_of(lines: Seq<Seq<u8>>, node: SyntaxNode) -> Option<QmlEnumSpec> {
    fold_nodes(
        node.children@,
        QmlEnumSpec { name: Seq::empty(), values: Seq::empty() },
        enum_step(lines),
    )
}

fn value_entry(lines: &Vec<Vec<u8>>, values: &mut Vec<(String, i32)>, c: &SyntaxNode) -> (r: Result<(), MalformedTree>)
    ensures
        match r {
            Ok(_) => (value_step(rows(lines@)))(values_view(old(values)@), *c) == Some(
                values_view(final(values)@),
            ),
            Err(_) => (value_step(rows(lines@)))(values_view(old(values)@), *c) is None,
        },
{
    if !kind_is(c, "pair") {
        return Ok(());
    }
    let key = match child_by_field(c, "key") {
        Some(k) => k,
        None => return Err(MalformedTree),
    };
    let key = match nth_child(key, 1) {
        Some(k) => k,
        None => return Err(MalformedTree),
    };
    let key_name = match node_text(lines, key) {
        Some(t) => t,
        None => return Err(MalformedTree),
    };
    let value = match child_by_field(c, "value") {
        Some(v) => v,
        None => return Err(MalformedTree),
    };
    let value_name = match node_text(lines, value) {
        Some(t) => t,
        None => return Err(MalformedTree),
    };
    let number = match parse_i32(value_name.as_str()) {
        Some(x) => x,
        None => return Err(MalformedTree),
    };
    let ghost before = values@;
    values.push((key_name, number));
    assert(values_view(values@) =~= values_view(before).push((key_name@, number)));
    Ok(())
}

/// The values of an enum, read from the children of its values object `node`.
fn get_enum_values_from_source(lines: &Vec<Vec<u8>>, node: &SyntaxNode) -> (r: Result<Vec<(String, i32)>, MalformedTree>)
    ensures
        match r {
            Ok(v) => enum_values(rows(lines@), node.children@) == Some(values_view(v@)),
            Err(_) => enum_values(rows(lines@), node.children@) is None,
        },
{
    let ghost cs = node.children@;
    let ghost step = value_step(rows(lines@));
    let mut enumvalues: Vec<(String, i32)> = Vec::new();
    let mut i: usize = 0;
    assert(values_view(enumvalues@) == Seq::<(Seq<char>, i32)>::empty());
    while i < node.children.len()
        invariant
            cs == node.children@,
            step == value_step(rows(lines@)),
            i <= cs.len(),
            fold_nodes(cs.take(i as int), Seq::empty(), step) == Some(values_view(enumvalues@)),
        decreases cs.len() - i,
    {
        proof { lemma_fold_nodes_step(cs, Seq::empty(), step, i as int); }
        match value_entry(lines, &mut enumvalues, &node.children[i]) {
            Ok(_) => {},
            Err(e) => {
                proof { lemma_fold_nodes_prefix_none(cs, Seq::empty(), step, i + 1); }
                return Err(e);
            },
        }
        i = i + 1;
    }
    proof { lemma_take_all(cs); }
    Ok(enumvalues)
}

fn enum_entry(lines: &Vec<Vec<u8>>, st: &mut QmlEnum, c: &SyntaxNode) -> (r: Result<(), MalformedTree>)
    ensures
        match r {
            Ok(_) => (enum_step(rows(lines@)))(old(st)@, *c) == Some(final(st)@),
            Err(_) => (enum_step(rows(lines@)))(old(st)@, *c) is None,
        },
{
    if !kind_is(c, "ui_binding") {
        return Ok(());
    }
    let idname = binding_name_of(lines, c)?;
    if text_is(idname.as_str(), "name") {
        st.name = quoted_value_of(lines, c)?;
    } else if text_is(idname.as_str(), "values") {
        let value = match child_by_field(c, "value") {
            Some(v) => v,
            None => return Err(MalformedTree),
        };
        let obj = match nth_child(value, 0) {
            Some(o) => o,
            None => return Err(MalformedTree),
        };
        st.values = get_enum_values_from_source(lines, obj)?;
    }
    Ok(())
}

/// The enum that the `Enum` object whose initializer is `node` describes.
pub(crate) fn get_enum_from_source(lines: &Vec<Vec<u8>>, node: &SyntaxNode) -> (r: Result<QmlEnum, MalformedTree>)
    ensures
        match r {
            Ok(e) => enum_of(rows(lines@), *node) == Some(e@),
            Err(_) => enum_of(rows(lines@), *node) is None,
        },
{
    let ghost cs = node.children@;
    let ghost step = enum_step(rows(lines@));
    let ghost init = QmlEnumSpec { name: Seq::empty(), values: Seq::empty() };
    let mut st = QmlEnum { name: String::new(), values: Vec::new() };
    assert(values_view(st.values@) =~= Seq::<(Seq<char>, i32)>::empty());
    assert(st@ == init);
    let mut i: usize = 0;
    while i < node.children.len()
        invariant
            cs == node.children@,
            step == enum_step(rows(lines@)),
            init == (QmlEnumSpec { name: Seq::empty(), values: Seq::empty() }),
            i <= cs.len(),
            fold_nodes(cs.take(i as int), init, step) == Some(st@),
        decreases cs.len() - i,
    {
        proof { lemma_fold_nodes_step(cs, init, step, i as int); }
        match enum_entry(lines, &mut st, &node.children[i]) {
            Ok(_) => {},
            Err(e) => {
                proof { lemma_fold_nodes_prefix_none(cs, init, step, i + 1); }
                return Err(e);
            },
        }
        i = i + 1;
    }
    proof { lemma_take_all(cs); }
    Ok(st)
}

} // verus!
