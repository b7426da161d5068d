//! Finding the text under a position.
use vstd::prelude::*;
use crate::lsp::Position;
use crate::syntax::{SyntaxNode, Point, MalformedTree, span_text, node_text};
use crate::text::{rows, lines_of, split_lines};

verus! {

/// The text of the first leaf among `cs` (depth first, in source order) whose rows hold
/// `loc`'s row and, the leaf being on one row, whose columns hold `loc`'s column:
/// `Some(None)` when there is none, `None` when that leaf's text cannot be read.
pub open spec fn position_text(lines: Seq<Seq<u8>>, loc: Point, cs: Seq<SyntaxNode>) -> Option<Option<Seq<char>>>
    decreases cs,
{
    if cs.len() == 0 {
        Some(None)
    } else {
        match position_text(lines, loc, cs.subrange(0, cs.len() - 1)) {
            None => None,
            Some(Some(t)) => Some(Some(t)),
            Some(None) => {
                let c = cs[cs.len() - 1];
                if c.start.row <= loc.row && loc.row <= c.end.row {
                    if c.children.len() != 0 {
                        position_text(lines, loc, c.children@)
                    } else if c.start.row == c.end.row && c.start.column <= loc.column && loc.column
                        <= c.end.column {
                        match span_text(lines, c) {
                            None => None,
                            Some(t) => Some(Some(t)),
                        }
                    } else {
                        Some(None)
                    }
                } else {
                    Some(None)
                }
            },
        }
    }
}

pub open spec fn location_point(location: Position) -> Point {
    Point { row: location.line as usize, column: location.character as usize }
}

proof fn lemma_position_text_prefix(lines: Seq<Seq<u8>>, loc: Point, cs: Seq<SyntaxNode>, k: int)
    requires
        0 <= k <= cs.len(),
        position_text(lines, loc, cs.subrange(0, k)) != Some(None::<Seq<char>>),
    ensures
        position_text(lines, loc, cs) == position_text(lines, loc, cs.subrange(0, k)),
    decreases cs.len(),
{
    if k < cs.len() {
        assert(cs.subrange(0, cs.len() - 1).subrange(0, k) == cs.subrange(0, k));
        lemma_position_text_prefix(lines, loc, cs.subrange(0, cs.len() - 1), k);
    } else {
        assert(cs.subrange(0, k) == cs);
    }
}

/// The text under `loc` among the children of `root` (see [`position_text`]).
pub(crate) fn position_text_in(lines: &Vec<Vec<u8>>, loc: Point, root: &SyntaxNode) -> (r: Result<Option<String>, MalformedTree>)
    ensures
        match r {
            Ok(Some(s)) => position_text(rows(lines@), loc, root.children@) == Some(Some(s@)),
            Ok(None) => position_text(rows(lines@), loc, root.children@) == Some(None::<Seq<char>>),
            Err(_) => position_text(rows(lines@), loc, root.children@) is None,
        },
    decreases root,
{
    let ghost cs = root.children@;
    let ghost ls = rows(lines@);
    let mut i: usize = 0;
    while i < root.children.len()
        invariant
            cs == root.children@,
            ls == rows(lines@),
            i <= cs.len(),
            position_text(ls, loc, cs.subrange(0, i as int)) == Some(None::<Seq<char>>),
        decreases cs.len() - i,
    {
        let child = &root.children[i];
        assert(cs.subrange(0, i + 1).subrange(0, i as int) == cs.subrange(0, i as int));
        assert(cs.subrange(0, i + 1)[i as int] == *child);
        if child.start.row <= loc.row && loc.row <= child.end.row {
            if child.children.len() != 0 {
                match position_text_in(lines, loc, child) {
                    Ok(None) => {},
                    other => {
                        proof { lemma_position_text_prefix(ls, loc, cs, i + 1); }
                        return other;
                    },
                }
            } else if child.start.row == child.end.row && child.start.column <= loc.column
                && loc.column <= child.end.column {
                proof { lemma_position_text_prefix(ls, loc, cs, i + 1); }
                return match node_text(lines, child) {
                    Some(t) => Ok(Some(t)),
                    None => Err(MalformedTree),
                };
            }
        }
        i = i + 1;
    }
    assert(cs.subrange(0, i as int) == cs);
    Ok(None)
}

/// The text under `location` among the children of `root` (see [`position_text`]).
pub fn get_positon_string(location: Position, root: &SyntaxNode, source: &str) -> (r: Option<String>)
    requires
        position_text(lines_of(source@), location_point(location), root.children@) is Some,
    ensures
        match r {
            Some(s) => position_text(lines_of(source@), location_point(location), root.children@)
                == Some(Some(s@)),
            None => position_text(lines_of(source@), location_point(location), root.children@)
                == Some(None::<Seq<char>>),
        },
{
    let lines = split_lines(source);
    let loc = Point { row: location.line as usize, column: location.character as usize };
    match position_text_in(&lines, loc, root) {
        Ok(o) => o,
        Err(_) => None,
    }
}

} // verus!
