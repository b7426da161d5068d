//! The syntax tree that the library works on: the kind, field name, position and
//! children of every node, as plain values.
use vstd::prelude::*;
use crate::text::{rows, text_is, utf8_slice, utf8_text};

verus! {

/// A position in a source text: a zero-based row and a zero-based byte column.
#[derive(Clone, Copy, Debug, PartialEq, Eq, Structural)]
pub struct Point {
    pub row: usize,
    pub column: usize,
}

/// A node of a concrete syntax tree.
///
/// `field` is the name of the field under which the node hangs from its parent, if any.
/// `children` holds every child, named or anonymous, in source order.
#[derive(Debug)]
pub struct SyntaxNode {
    pub kind: String,
    pub field: Option<String>,
    pub start: Point,
    pub end: Point,
    pub is_error: bool,
    pub has_error: bool,
    pub children: Vec<SyntaxNode>,
}

/// What a [`SyntaxNode`] holds, as mathematical values.
pub struct NodeSpec {
    pub kind: Seq<char>,
    pub field: Option<Seq<char>>,
    pub start: Point,
    pub end: Point,
    pub is_error: bool,
    pub has_error: bool,
    pub children: Seq<NodeSpec>,
}

pub open spec fn node_view(n: SyntaxNode) -> NodeSpec
    decreases n,
{
    NodeSpec {
        kind: n.kind@,
        field: opt_view(n.field),
        start: n.start,
        end: n.end,
        is_error: n.is_error,
        has_error: n.has_error,
        children: nodes_view(n.children@),
    }
}

pub open spec fn nodes_view(s: Seq<SyntaxNode>) -> Seq<NodeSpec>
    decreases s,
{
    if s.len() == 0 {
        Seq::empty()
    } else {
        nodes_view(s.subrange(0, s.len() - 1)).push(node_view(s[s.len() - 1]))
    }
}

impl View for SyntaxNode {
    type V = NodeSpec;

    open spec fn view(&self) -> NodeSpec {
        node_view(*self)
    }
}

pub proof fn lemma_nodes_view_push(s: Seq<SyntaxNode>, d: SyntaxNode)
    ensures
        nodes_view(s.push(d)) == nodes_view(s).push(node_view(d)),
{
    assert(s.push(d).subrange(0, s.len() as int) == s);
}

/// The node that `path` leads to from `n`, each step the index of a child.
pub open spec fn spec_node_at(n: NodeSpec, path: Seq<int>) -> Option<NodeSpec>
    decreases path.len(),
{
    if path.len() == 0 {
        Some(n)
    } else if 0 <= path[0] < n.children.len() {
        spec_node_at(n.children[path[0]], path.skip(1))
    } else {
        None
    }
}

/// A path one step further leads to a child of the node it extends.
pub proof fn lemma_spec_node_at_push(n: NodeSpec, path: Seq<int>, i: int)
    requires
        spec_node_at(n, path) is Some,
    ensures
        spec_node_at(n, path.push(i)) == (if 0 <= i < spec_node_at(n, path).unwrap().children.len() {
            Some(spec_node_at(n, path).unwrap().children[i])
        } else {
            None
        }),
    decreases path.len(),
{
    if path.len() > 0 {
        assert(path.push(i).skip(1) == path.skip(1).push(i));
        assert(path.push(i)[0] == path[0]);
        lemma_spec_node_at_push(n.children[path[0]], path.skip(1), i);
    } else {
        assert(path.push(i).skip(1) == Seq::<int>::empty());
        assert(path.push(i)[0] == i);
        if 0 <= i < n.children.len() {
            assert(spec_node_at(n.children[i], Seq::<int>::empty()) == Some(n.children[i]));
        }
    }
}

/// The reason why a tree walk gave up: a node it relies on is absent, or a node's text
/// cannot be read from the source (its position lies outside the source lines, or the
/// bytes there are not whole characters).
#[derive(Clone, Copy, Debug, PartialEq, Eq, Structural)]
pub struct MalformedTree;

pub open spec fn has_field(n: SyntaxNode, name: Seq<char>) -> bool {
    n.field matches Some(f) && f@ == name
}

/// The index of the first node in `cs` that hangs under the field `name`.
pub open spec fn first_field_index(cs: Seq<SyntaxNode>, name: Seq<char>) -> Option<int>
    decreases cs.len(),
{
    if cs.len() == 0 {
        None
    } else {
        match first_field_index(cs.drop_last(), name) {
            Some(i) => Some(i),
            None => if has_field(cs.last(), name) {
                Some(cs.len() - 1)
            } else {
                None
            },
        }
    }
}

/// The index of the child of `n` under the field `name`.
pub open spec fn field_index(n: SyntaxNode, name: Seq<char>) -> Option<int> {
    first_field_index(n.children@, name)
}

/// The child of `n` under the field `name` (`Node::child_by_field_name`).
pub open spec fn field_child(n: SyntaxNode, name: Seq<char>) -> Option<SyntaxNode> {
    match field_index(n, name) {
        Some(i) => Some(n.children@[i]),
        None => None,
    }
}

pub proof fn lemma_first_field_index_bounds(cs: Seq<SyntaxNode>, name: Seq<char>)
    ensures
        first_field_index(cs, name) matches Some(i) ==> 0 <= i < cs.len() && has_field(cs[i], name),
    decreases cs.len(),
{
    if cs.len() > 0 {
        lemma_first_field_index_bounds(cs.drop_last(), name);
    }
}

pub proof fn lemma_field_index_bounds(n: SyntaxNode, name: Seq<char>)
    ensures
        field_index(n, name) matches Some(i) ==> 0 <= i < n.children@.len(),
{
    lemma_first_field_index_bounds(n.children@, name);
}

/// The child of `n` at index `i` (`Node::child`).
pub open spec fn child_at(n: SyntaxNode, i: int) -> Option<SyntaxNode> {
    if 0 <= i < n.children.len() {
        Some(n.children@[i])
    } else {
        None
    }
}

/// The text of a node: on the node's start row, from its
/// start column to its end column. `None` when that slice does not exist or does not hold
/// whole characters.
pub open spec fn span_text(lines: Seq<Seq<u8>>, n: SyntaxNode) -> Option<Seq<char>> {
    let row = n.start.row as int;
    let x = n.start.column as int;
    let y = n.end.column as int;
    if row < lines.len() && x <= y && y <= lines[row].len() {
        utf8_text(lines[row].subrange(x, y))
    } else {
        None
    }
}

pub open spec fn opt_view(o: Option<String>) -> Option<Seq<char>> {
    match o {
        Some(s) => Some(s@),
        None => None,
    }
}

/// The child of `n` under the field `name`.
pub fn child_by_field<'a>(n: &'a SyntaxNode, name: &str) -> (r: Option<&'a SyntaxNode>)
    ensures
        r matches Some(c) ==> field_child(*n, name@) == Some(*c),
        r is None ==> field_child(*n, name@) is None,
{
    let mut i: usize = 0;
    while i < n.children.len()
        invariant
            i <= n.children.len(),
            first_field_index(n.children@.take(i as int), name@) is None,
        decreases n.children.len() - i,
    {
        assert(n.children@.take(i + 1).drop_last() == n.children@.take(i as int));
        let c = &n.children[i];
        let hit = match &c.field {
            Some(f) => text_is(f.as_str(), name),
            None => false,
        };
        if hit {
            proof { lemma_first_field_index_prefix(n.children@, i as int + 1, name@); }
            return Some(c);
        }
        i = i + 1;
    }
    assert(n.children@.take(i as int) == n.children@);
    None
}

proof fn lemma_first_field_index_prefix(cs: Seq<SyntaxNode>, k: int, name: Seq<char>)
    requires
        0 < k <= cs.len(),
        first_field_index(cs.take(k), name) is Some,
    ensures
        first_field_index(cs, name) == first_field_index(cs.take(k), name),
    decreases cs.len(),
{
    if k < cs.len() {
        assert(cs.drop_last().take(k) == cs.take(k));
        lemma_first_field_index_prefix(cs.drop_last(), k, name);
    } else {
        assert(cs.take(k) == cs);
    }
}

/// Whether the node's kind is `kind`.
pub fn kind_is(n: &SyntaxNode, kind: &str) -> (r: bool)
    ensures
        r == (n.kind@ == kind@),
{
    text_is(n.kind.as_str(), kind)
}

/// The text of a node (see [`span_text`]).
pub fn node_text(lines: &Vec<Vec<u8>>, n: &SyntaxNode) -> (r: Option<String>)
    ensures
        opt_view(r) == span_text(rows(lines@), *n),
{
    let row = n.start.row;
    if row >= lines.len() {
        return None;
    }
    let line = &lines[row];
    assert(rows(lines@)[row as int] == line@);
    utf8_slice(line, n.start.column, n.end.column)
}

/// The child of `n` at index `i`.
pub fn nth_child(n: &SyntaxNode, i: usize) -> (r: Option<&SyntaxNode>)
    ensures
        r matches Some(c) ==> child_at(*n, i as int) == Some(*c),
        r is None ==> child_at(*n, i as int) is None,
{
    if i < n.children.len() {
        Some(&n.children[i])
    } else {
        None
    }
}

/// Runs `step` over the nodes `cs` in order from `init`; `None` as soon as a step gives
/// `None`.
pub open spec fn fold_nodes<S>(cs: Seq<SyntaxNode>, init: S, step: spec_fn(S, SyntaxNode) -> Option<S>) -> Option<S>
    decreases cs.len(),
{
    if cs.len() == 0 {
        Some(init)
    } else {
        match fold_nodes(cs.drop_last(), init, step) {
            None => None,
            Some(st) => step(st, cs.last()),
        }
    }
}

pub proof fn lemma_fold_nodes_step<S>(
    cs: Seq<SyntaxNode>,
    init: S,
    step: spec_fn(S, SyntaxNode) -> Option<S>,
    i: int,
)
    requires
        0 <= i < cs.len(),
    ensures
        fold_nodes(cs.take(i + 1), init, step) == match fold_nodes(cs.take(i), init, step) {
            None => None,
            Some(st) => step(st, cs[i]),
        },
{
    assert(cs.take(i + 1).drop_last() == cs.take(i));
}

pub proof fn lemma_fold_nodes_prefix_none<S>(
    cs: Seq<SyntaxNode>,
    init: S,
    step: spec_fn(S, SyntaxNode) -> Option<S>,
    k: int,
)
    requires
        0 <= k <= cs.len(),
        fold_nodes(cs.take(k), init, step) is None,
    ensures
        fold_nodes(cs, init, step) is None,
    decreases cs.len(),
{
    if k < cs.len() {
        assert(cs.drop_last().take(k) == cs.take(k));
        lemma_fold_nodes_prefix_none(cs.drop_last(), init, step, k);
    } else {
        assert(cs.take(k) == cs);
    }
}

pub proof fn lemma_take_all(cs: Seq<SyntaxNode>)
    ensures
        cs.take(cs.len() as int) == cs,
{
}

/// The node that the child indices `path` lead to from `n`.
pub open spec fn node_at(n: SyntaxNode, path: Seq<int>) -> Option<SyntaxNode>
    decreases path.len(),
{
    if path.len() == 0 {
        Some(n)
    } else if 0 <= path[0] < n.children@.len() {
        node_at(n.children@[path[0]], path.skip(1))
    } else {
        None
    }
}

/// A path into a child leads, with the child's index in front, from the parent.
pub proof fn lemma_node_at_child(n: SyntaxNode, i: int, path: Seq<int>)
    requires
        0 <= i < n.children@.len(),
    ensures
        node_at(n, seq![i] + path) == node_at(n.children@[i], path),
{
    assert((seq![i] + path).skip(1) == path);
}

} // verus!
