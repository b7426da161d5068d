//! Properties of a component: `Property { name: "..."; type: "..."; isPointer: true }`.
use vstd::prelude::*;
use super::{QmlProperty, QmlPropertySpec, binding_name, value_text, binding_name_of};
use crate::syntax::{
    SyntaxNode, MalformedTree, child_by_field, nth_child, node_text, kind_is, fold_nodes,
    lemma_fold_nodes_step, lemma_fold_nodes_prefix_none, lemma_take_all,
};
use crate::text::{rows, lines_of, split_lines, split_seq, split_string, text_is, views};

verus! {

/// The piece of `s` at index `k` when split at `sep`, if there is one.
pub open spec fn nth_piece(s: Seq<char>, sep: char, k: int) -> Option<Seq<char>> {
    let pieces = split_seq(s, sep);
    if 0 <= k < pieces.len() {
        Some(pieces[k])
    } else {
        None
    }
}

/// One binding of a property: `name` and `type` take what their value holds between the
/// first two double quotes, `isPointer` and `isReadonly` whether their value is `true`.
/// The value of every binding is read.
pub open spec fn property_step(lines: Seq<Seq<u8>>) -> spec_fn(QmlPropertySpec, SyntaxNode) -> Option<QmlPropertySpec> {
    |st: QmlPropertySpec, c: SyntaxNode|
        if c.kind@ == "ui_binding"@ {
            match binding_name(lines, c) {
                None => None,
                Some(idname) => match value_text(lines, c) {
                    None => None,
                    Some(value) => if idname == "name"@ {
                        match nth_piece(value, '"', 1) {
                            None => None,
                            Some(n) => Some(QmlPropertySpec { name: n, ..st }),
                        }
                    } else if idname == "type"@ {
                        match nth_piece(value, '"', 1) {
                            None => None,
                            Some(t) => Some(QmlPropertySpec { qmltype: t, ..st }),
                        }
                    } else if idname == "isPointer"@ {
                        Some(QmlPropertySpec { ispointer: value == "true"@, ..st })
                    } else if idname == "isReadonly"@ {
                        Some(QmlPropertySpec { isreadonly: value == "true"@, ..st })
                    } else {
                        Some(st)
                    },
                },
            }
        } else {
            Some(st)
        }
}

/// The property that a `Property` object's initializer `node` describes.
pub open spec fn property_of(lines: Seq<Seq<u8>>, node: SyntaxNode) -> Option<QmlPropertySpec> {
    fold_nodes(
        node.children@,
        QmlPropertySpec { name: Seq::empty(), qmltype: Seq::empty(), isreadonly: false, ispointer: false },
        property_step(lines),
    )
}

/// The text of the first child of the `value` of the binding `node`.
pub(crate) fn get_value_from_statement(lines: &Vec<Vec<u8>>, node: &SyntaxNode) -> (r: Result<String, MalformedTree>)
    ensures
        match r {
            Ok(s) => value_text(rows(lines@), *node) == Some(s@),
            Err(_) => value_text(rows(lines@), *node) is None,
        },
{
    match child_by_field(node, "value") {
        None => Err(MalformedTree),
        Some(v) => match nth_child(v, 0) {
            None => Err(MalformedTree),
            Some(e) => match node_text(lines, e) {
                Some(t) => Ok(t),
                None => Err(MalformedTree),
            },
        },
    }
}

/// The piece of `s` at index `k` when split at `sep` (see [`nth_piece`]).
pub(crate) fn piece_of(s: &str, sep: char, k: usize) -> (r: Option<String>)
    ensures
        match r {
            Some(p) => nth_piece(s@, sep, k as int) == Some(p@),
            None => nth_piece(s@, sep, k as int) is None,
        },
{
    let pieces = split_string(s, sep);
    if k < pieces.len() {
        assert(views(pieces@)[k as int] == pieces@[k as int]@);
        Some(pieces[k].clone())
    } else {
        None
    }
}

fn property_entry(lines: &Vec<Vec<u8>>, st: &mut QmlProperty, c: &SyntaxNode) -> (r: Result<(), MalformedTree>)
    ensures
        match r {
            Ok(_) => (property_step(rows(lines@)))(old(st)@, *c) == Some(final(st)@),
            Err(_) => (property_step(rows(lines@)))(old(st)@, *c) is None,
        },
{
    if !kind_is(c, "ui_binding") {
        return Ok(());
    }
    let idname = binding_name_of(lines, c)?;
    let value = get_value_from_statement(lines, c)?;
    if text_is(idname.as_str(), "name") {
        st.name = match piece_of(value.as_str(), '"', 1) {
            Some(p) => p,
            None => return Err(MalformedTree),
        };
    } else if text_is(idname.as_str(), "type") {
        st.qmltype = match piece_of(value.as_str(), '"', 1) {
            Some(p) => p,
            None => return Err(MalformedTree),
        };
    } else if text_is(idname.as_str(), "isPointer") {
        st.ispointer = text_is(value.as_str(), "true");
    } else if text_is(idname.as_str(), "isReadonly") {
        st.isreadonly = text_is(value.as_str(), "true");
    }
    Ok(())
}

/// The property that the `Property` object whose initializer is `node` describes.
pub(crate) fn property_from(lines: &Vec<Vec<u8>>, node: &SyntaxNode) -> (r: Result<QmlProperty, MalformedTree>)
    ensures
        match r {
            Ok(p) => property_of(rows(lines@), *node) == Some(p@),
            Err(_) => property_of(rows(lines@), *node) is None,
        },
{
    let ghost cs = node.children@;
    let ghost step = property_step(rows(lines@));
    let ghost init = QmlPropertySpec { name: Seq::empty(), qmltype: Seq::empty(), isreadonly: false, ispointer: false };
    let mut st = QmlProperty { name: String::new(), qmltype: String::new(), isreadonly: false, ispointer: false };
    let mut i: usize = 0;
    while i < node.children.len()
        invariant
            cs == node.children@,
            step == property_step(rows(lines@)),
            init == (QmlPropertySpec { name: Seq::empty(), qmltype: Seq::empty(), isreadonly: false, ispointer: false }),
            i <= cs.len(),
            fold_nodes(cs.take(i as int), init, step) == Some(st@),
        decreases cs.len() - i,
    {
        proof { lemma_fold_nodes_step(cs, init, step, i as int); }
        match property_entry(lines, &mut st, &node.children[i]) {
            Ok(_) => {},
            Err(e) => {
                proof { lemma_fold_nodes_prefix_none(cs, init, step, i + 1); }
                return Err(e);
            },
        }
        i = i + 1;
    }
    proof { lemma_take_all(cs); }
    Ok(st)
}

/// The property that the `Property` object whose initializer is `node` describes, in
/// the document `content` (see [`property_of`]), or why it cannot be read.
pub fn try_get_property_from_source(content: &str, node: &SyntaxNode) -> (r: Result<QmlProperty, MalformedTree>)
    ensures
        match r {
            Ok(p) => property_of(lines_of(content@), *node) == Some(p@),
            Err(_) => property_of(lines_of(content@), *node) is None,
        },
{
    let lines = split_lines(content);
    property_from(&lines, node)
}

/// The property that the `Property` object whose initializer is `node` describes, in
/// the document `content` (see [`property_of`]).
pub fn get_property_from_source(content: &str, node: &SyntaxNode) -> (r: QmlProperty)
    requires
        property_of(lines_of(content@), *node) is Some,
    ensures
        property_of(lines_of(content@), *node) == Some(r@),
{
    let lines = split_lines(content);
    match property_from(&lines, node) {
        Ok(p) => p,
        Err(_) => QmlProperty { name: String::new(), qmltype: String::new(), isreadonly: false, ispointer: false },
    }
}

} // verus!
