//! Signals of a component: `Signal { name: "..."; Parameter { ... } }`.
use vstd::prelude::*;
use super::{QmlSignal, QmlParmater, QmlFunctionSpec, binding_name, quoted_value, parmaters_view, binding_name_of, quoted_value_of};
use super::qmlparmatergenerate::{parmater_of, get_parmater_from_source};
use crate::syntax::{
    SyntaxNode, MalformedTree, field_child, child_by_field, kind_is, fold_nodes,
    lemma_fold_nodes_step, lemma_fold_nodes_prefix_none, lemma_take_all,
};
use crate::text::{rows, text_is};

verus! {

/// One node of a signal or method: a binding `name` sets the name (the quoted text of its
/// value); an object definition adds the parameter its initializer describes.
pub open spec fn function_step(lines: Seq<Seq<u8>>) -> spec_fn(QmlFunctionSpec, SyntaxNode) -> Option<QmlFunctionSpec> {
    |st: QmlFunctionSpec, c: SyntaxNode|
        if c.kind@ == "ui_binding"@ {
            match binding_name(lines, c) {
                None => None,
                Some(idname) => if idname == "name"@ {
                    match quoted_value(lines, c) {
                        None => None,
                        Some(v) => Some(QmlFunctionSpec { name: v, ..st }),
                    }
                } else {
                    Some(st)
                },
            }
        } else if c.kind@ == "ui_object_definition"@ {
            match field_child(c, "initializer"@) {
                None => None,
                Some(init) => match parmater_of(lines, init) {
                    None => None,
                    Some(p) => Some(QmlFunctionSpec { parmaters: st.parmaters.push(p), ..st }),
                },
            }
        } else {
            Some(st)
        }
}

/// The signal or method that a `Signal` or `Method` object's initializer `node` describes.
pub open spec fn function_of(lines: Seq<Seq<u8>>, node: SyntaxNode) -> Option<QmlFunctionSpec> {
    fold_nodes(
        node.children@,
        QmlFunctionSpec { name: Seq::empty(), parmaters: Seq::empty() },
        function_step(lines),
    )
}

fn function_entry(
    lines: &Vec<Vec<u8>>,
    name: &mut String,
    parmaters: &mut Vec<QmlParmater>,
    c: &SyntaxNode,
) -> (r: Result<(), MalformedTree>)
    ensures
        match r {
            Ok(_) => (function_step(rows(lines@)))(
                QmlFunctionSpec { name: old(name)@, parmaters: parmaters_view(old(parmaters)@) },
                *c,
            ) == Some(QmlFunctionSpec { name: final(name)@, parmaters: parmaters_view(final(parmaters)@) }),
            Err(_) => (function_step(rows(lines@)))(
                QmlFunctionSpec { name: old(name)@, parmaters: parmaters_view(old(parmaters)@) },
                *c,
            ) is None,
        },
{
    if kind_is(c, "ui_binding") {
        let idname = binding_name_of(lines, c)?;
        if text_is(idname.as_str(), "name") {
            *name = quoted_value_of(lines, c)?;
        }
    } else if kind_is(c, "ui_object_definition") {
        let object_init = match child_by_field(c, "initializer") {
            Some(o) => o,
            None => return Err(MalformedTree),
        };
        let p = get_parmater_from_source(lines, object_init)?;
        let ghost before = parmaters@;
        parmaters.push(p);
        assert(parmaters_view(parmaters@) =~= parmaters_view(before).push(p@));
    }
    Ok(())
}

/// The name and parameters of the signal or method whose initializer is `node`.
pub(crate) fn function_from_source(lines: &Vec<Vec<u8>>, node: &SyntaxNode) -> (r: Result<(String, Vec<QmlParmater>), MalformedTree>)
    ensures
        match r {
            Ok((name, parmaters)) => function_of(rows(lines@), *node) == Some(
                QmlFunctionSpec { name: name@, parmaters: parmaters_view(parmaters@) },
            ),
            Err(_) => function_of(rows(lines@), *node) is None,
        },
{
    let ghost cs = node.children@;
    let ghost step = function_step(rows(lines@));
    let ghost init = QmlFunctionSpec { name: Seq::empty(), parmaters: Seq::empty() };
    let mut name = String::new();
    let mut parmaters: Vec<QmlParmater> = Vec::new();
    assert(parmaters_view(parmaters@) =~= Seq::<super::QmlParmaterSpec>::empty());
    let mut i: usize = 0;
    while i < node.children.len()
        invariant
            cs == node.children@,
            step == function_step(rows(lines@)),
            init == (QmlFunctionSpec { name: Seq::empty(), parmaters: Seq::empty() }),
            i <= cs.len(),
            fold_nodes(cs.take(i as int), init, step) == Some(
                QmlFunctionSpec { name: name@, parmaters: parmaters_view(parmaters@) },
            ),
        decreases cs.len() - i,
    {
        proof { lemma_fold_nodes_step(cs, init, step, i as int); }
        match function_entry(lines, &mut name, &mut parmaters, &node.children[i]) {
            Ok(_) => {},
            Err(e) => {
                proof { lemma_fold_nodes_prefix_none(cs, init, step, i + 1); }
                return Err(e);
            },
        }
        i = i + 1;
    }
    proof { lemma_take_all(cs); }
    Ok((name, parmaters))
}

/// The signal that the `Signal` object whose initializer is `node` describes.
pub(crate) fn get_signal_from_source(lines: &Vec<Vec<u8>>, node: &SyntaxNode) -> (r: Result<QmlSignal, MalformedTree>)
    ensures
        match r {
            Ok(s) => function_of(rows(lines@), *node) == Some(s@),
            Err(_) => function_of(rows(lines@), *node) is None,
        },
{
    let (name, parmaters) = function_from_source(lines, node)?;
    Ok(QmlSignal { name, parmaters })
}

} // verus!
