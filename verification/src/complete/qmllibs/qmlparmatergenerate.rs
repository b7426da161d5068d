//! Parameters of signals and methods: `Parameter { name: "..."; type: "..."; isPointer: true }`.
use vstd::prelude::*;
use super::{QmlParmater, QmlParmaterSpec, binding_name, value_text, binding_name_of};
use super::qmlpropertygenerate::{nth_piece, get_value_from_statement, piece_of};
use crate::syntax::{
    SyntaxNode, MalformedTree, kind_is, fold_nodes, lemma_fold_nodes_step,
    lemma_fold_nodes_prefix_none, lemma_take_all,
};
use crate::text::{rows, text_is};

verus! {

/// One binding of a parameter: `name` and `type` take what their value holds between
/// the first two double quotes, `isPointer` whether its value is `true`. The value of
/// every binding is read.
pub open spec fn parmater_step(lines: Seq<Seq<u8>>) -> spec_fn(QmlParmaterSpec, SyntaxNode) -> Option<QmlParmaterSpec> {
    |st: QmlParmaterSpec, c: SyntaxNode|
        if c.kind@ == "ui_binding"@ {
            match binding_name(lines, c) {
                None => None,
                Some(idname) => match value_text(lines, c) {
                    None => None,
                    Some(value) => if idname == "name"@ {
                        match nth_piece(value, '"', 1) {
                            None => None,
                            Some(n) => Some(QmlParmaterSpec { name: n, ..st }),
                        }
                    } else if idname == "type"@ {
                        match nth_piece(value, '"', 1) {
                            None => None,
                            Some(t) => Some(QmlParmaterSpec { qmltype: t, ..st }),
                        }
                    } else if idname == "isPointer"@ {
                        Some(QmlParmaterSpec { ispointer: value == "true"@, ..st })
                    } else {
                        Some(st)
                    },
                },
            }
        } else {
            Some(st)
        }
}

/// The parameter that a `Parameter` object's initializer `node` describes.
pub open spec fn parmater_of(lines: Seq<Seq<u8>>, node: SyntaxNode) -> Option<QmlParmaterSpec> {
    fold_nodes(
        node.children@,
        QmlParmaterSpec { name: Seq::empty(), qmltype: Seq::empty(), ispointer: false },
        parmater_step(lines),
    )
}

fn parmater_entry(lines: &Vec<Vec<u8>>, st: &mut QmlParmater, c: &SyntaxNode) -> (r: Result<(), MalformedTree>)
    ensures
        match r {
            Ok(_) => (parmater_step(rows(lines@)))(old(st)@, *c) == Some(final(st)@),
            Err(_) => (parmater_step(rows(lines@)))(old(st)@, *c) is None,
        },
{
    if !kind_is(c, "ui_binding") {
        return Ok(());
    }
    let idname = binding_name_of(lines, c)?;
    let value = get_value_from_statement(lines, c)?;
    if text_is(idname.as_str(), "name") {
        st.name = match piece_of(value.as_str(), '"', 1) {
            Some(p) => p,
            None => return Err(MalformedTree),
        };
    } else if text_is(idname.as_str(), "type") {
        st.qmltype = match piece_of(value.as_str(), '"', 1) {
            Some(p) => p,
            None => return Err(MalformedTree),
        };
    } else if text_is(idname.as_str(), "isPointer") {
        st.ispointer = text_is(value.as_str(), "true");
    }
    Ok(())
}

/// The parameter that the `Parameter` object whose initializer is `node` describes.
pub(crate) fn get_parmater_from_source(lines: &Vec<Vec<u8>>, node: &SyntaxNode) -> (r: Result<QmlParmater, MalformedTree>)
    ensures
        match r {
            Ok(p) => parmater_of(rows(lines@), *node) == Some(p@),
            Err(_) => parmater_of(rows(lines@), *node) is None,
        },
{
    let ghost cs = node.children@;
    let ghost step = parmater_step(rows(lines@));
    let ghost init = QmlParmaterSpec { name: Seq::empty(), qmltype: Seq::empty(), ispointer: false };
    let mut st = QmlParmater { name: String::new(), qmltype: String::new(), ispointer: false };
    let mut i: usize = 0;
    while i < node.children.len()
        invariant
            cs == node.children@,
            step == parmater_step(rows(lines@)),
            init == (QmlParmaterSpec { name: Seq::empty(), qmltype: Seq::empty(), ispointer: false }),
            i <= cs.len(),
            fold_nodes(cs.take(i as int), init, step) == Some(st@),
        decreases cs.len() - i,
    {
        proof { lemma_fold_nodes_step(cs, init, step, i as int); }
        match parmater_entry(lines, &mut st, &node.children[i]) {
            Ok(_) => {},
            Err(e) => {
                proof { lemma_fold_nodes_prefix_none(cs, init, step, i + 1); }
                return Err(e);
            },
        }
        i = i + 1;
    }
    proof { lemma_take_all(cs); }
    Ok(st)
}

} // verus!
