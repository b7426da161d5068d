//! Methods of a component: `Method { name: "..."; Parameter { ... } }`, read as signals are.
use vstd::prelude::*;
use super::QmlMethod;
use super::qmlsignalgenerate::{function_of, function_from_source};
use crate::syntax::{SyntaxNode, MalformedTree};
use crate::text::rows;

verus! {

/// The method that the `Method` object whose initializer is `node` describes.
pub(crate) fn get_method_from_source(lines: &Vec<Vec<u8>>, node: &SyntaxNode) -> (r: Result<QmlMethod, MalformedTree>)
    ensures
        match r {
            Ok(m) => function_of(rows(lines@), *node) == Some(m@),
            Err(_) => function_of(rows(lines@), *node) is None,
        },
{
    let (name, parmaters) = function_from_source(lines, node)?;
    Ok(QmlMethod { name, parmaters })
}

} // verus!
