//! Parsing QML with tree-sitter, and reading the tree it builds into a [`SyntaxNode`].
use vstd::prelude::*;
use crate::syntax::{Point, SyntaxNode, NodeSpec, spec_node_at, opt_view, lemma_nodes_view_push, lemma_spec_node_at_push};

verus! {

#[verifier::external_type_specification]
#[verifier::external_body]
pub struct ExParser(tree_sitter::Parser);

#[verifier::external_type_specification]
#[verifier::external_body]
pub struct ExTree(tree_sitter::Tree);

#[verifier::external_type_specification]
#[verifier::external_body]
pub struct ExNode<'a>(tree_sitter::Node<'a>);

#[verifier::external_type_specification]
#[verifier::external_body]
pub struct ExTreeCursor<'a>(tree_sitter::TreeCursor<'a>);

#[verifier::external_type_specification]
#[verifier::external_body]
pub struct ExLanguageError(tree_sitter::LanguageError);

/// Why a source text could not be parsed.
#[derive(Clone, Copy, Debug, PartialEq, Eq, Structural)]
pub enum ParseFailure {
    /// The QML grammar does not fit the tree-sitter library (`Parser::set_language` failed).
    Language,
    /// The parser gave no tree (`Parser::parse` returned `None`).
    NoTree,
}

/// The syntax tree that tree-sitter's QML grammar builds for a text, as mathematical
/// values: the node under which each node hangs, its kind, field, position, error flags
/// and children, as a cursor walks them.
pub uninterp spec fn qml_tree(source: Seq<char>) -> NodeSpec;

/// The node of the tree of `source` that `path` leads to from its root.
pub open spec fn tree_node(source: Seq<char>, path: Seq<int>) -> Option<NodeSpec> {
    spec_node_at(qml_tree(source), path)
}

/// A tree-sitter parser whose language is QML; only [`ts_set_qml_language`] makes one.
struct QmlParser {
    parser: tree_sitter::Parser,
}

/// A tree that tree-sitter parsed from the text `source`; only [`ts_parse`] makes one.
struct ParsedTree {
    tree: tree_sitter::Tree,
    source: Ghost<Seq<char>>,
}

/// A cursor on the tree of the text `source`, at the node that `path` leads to; only
/// [`ts_tree_walk`] makes one, and the cursor moves change `path` as they move it.
struct TreeWalker<'a> {
    cursor: tree_sitter::TreeCursor<'a>,
    source: Ghost<Seq<char>>,
    path: Ghost<Seq<int>>,
}

/// The node under a [`TreeWalker`], with the text and path it was taken at.
struct TreeNode<'a> {
    node: tree_sitter::Node<'a>,
    source: Ghost<Seq<char>>,
    path: Ghost<Seq<int>>,
}

spec fn walker_at(w: TreeWalker) -> Option<NodeSpec> {
    tree_node(w.source@, w.path@)
}

/// `tree_sitter::Parser::new`: a parser with no language. Nothing is stated of the value.
#[verifier::external_body]
fn ts_parser_new() -> tree_sitter::Parser {
    tree_sitter::Parser::new()
}

/// `tree_sitter::Parser::set_language` with `tree_sitter_qmljs::language()`. It fails only
/// on a grammar version outside what the library accepts; tree-sitter 0.20.10 accepts
/// versions 13 to 14, and the QML grammar 0.1.2 is of version 14, so it succeeds.
#[verifier::external_body]
fn ts_set_qml_language(parser: tree_sitter::Parser) -> (r: Result<QmlParser, tree_sitter::LanguageError>)
    ensures
        r is Ok,
{
    let mut parser = parser;
    match parser.set_language(tree_sitter_qmljs::language()) {
        Ok(()) => Ok(QmlParser { parser }),
        Err(e) => Err(e),
    }
}

/// `tree_sitter::Parser::parse`: the syntax tree of `source`. It gives none only when the
/// parser has no language, or a timeout or cancellation flag set; a [`QmlParser`] has
/// its language and neither of the others, so a tree comes.
#[verifier::external_body]
fn ts_parse(parser: &mut QmlParser, source: &str) -> (r: Option<ParsedTree>)
    ensures
        r is Some,
        r is Some ==> r.unwrap().source@ == source@,
{
    match parser.parser.parse(source, None) {
        Some(tree) => Some(ParsedTree { tree, source: Ghost(source@) }),
        None => None,
    }
}

/// `tree_sitter::Tree::walk`: a cursor on the root node.
#[verifier::external_body]
fn ts_tree_walk<'a>(tree: &'a ParsedTree) -> (r: TreeWalker<'a>)
    ensures
        r.source@ == tree.source@,
        r.path@ == Seq::<int>::empty(),
{
    TreeWalker { cursor: tree.tree.walk(), source: Ghost(tree.source@), path: Ghost(Seq::empty()) }
}

/// `tree_sitter::TreeCursor::node`: the node under the cursor.
#[verifier::external_body]
fn ts_cursor_node<'a>(cursor: &TreeWalker<'a>) -> (r: TreeNode<'a>)
    ensures
        r.source@ == cursor.source@,
        r.path@ == cursor.path@,
{
    TreeNode { node: cursor.cursor.node(), source: Ghost(cursor.source@), path: Ghost(cursor.path@) }
}

/// `tree_sitter::TreeCursor::field_name`: the field under which the current node hangs
/// from its parent; none at the root.
#[verifier::external_body]
fn ts_cursor_field_name(cursor: &TreeWalker<'_>) -> (r: Option<String>)
    requires
        spec_node_at(qml_tree(cursor.source@), cursor.path@) is Some,
    ensures
        opt_view(r) == spec_node_at(qml_tree(cursor.source@), cursor.path@).unwrap().field,
        cursor.path@.len() == 0 ==> r is None,
{
    cursor.cursor.field_name().map(|name| name.to_string())
}

/// `tree_sitter::TreeCursor::goto_first_child`: moves to the first child; `false`, and no
/// move, when there is none.
#[verifier::external_body]
fn ts_cursor_goto_first_child(cursor: &mut TreeWalker<'_>) -> (r: bool)
    requires
        spec_node_at(qml_tree(old(cursor).source@), old(cursor).path@) is Some,
    ensures
        r == (spec_node_at(qml_tree(old(cursor).source@), old(cursor).path@).unwrap().children.len() > 0),
        final(cursor).source@ == old(cursor).source@,
        final(cursor).path@ == (if r { old(cursor).path@.push(0) } else { old(cursor).path@ }),
{
    cursor.cursor.goto_first_child()
}

/// `tree_sitter::TreeCursor::goto_next_sibling`: moves to the next sibling; `false`, and no
/// move, at the root or at the last child.
#[verifier::external_body]
fn ts_cursor_goto_next_sibling(cursor: &mut TreeWalker<'_>) -> (r: bool)
    requires
        spec_node_at(qml_tree(old(cursor).source@), old(cursor).path@) is Some,
    ensures
        ({
            let p = old(cursor).path@;
            r == (p.len() > 0 && p.last() + 1 < spec_node_at(qml_tree(old(cursor).source@), p.drop_last()).unwrap().children.len())
        }),
        final(cursor).source@ == old(cursor).source@,
        final(cursor).path@ == (if r {
            old(cursor).path@.drop_last().push(old(cursor).path@.last() + 1)
        } else {
            old(cursor).path@
        }),
{
    cursor.cursor.goto_next_sibling()
}

/// `tree_sitter::TreeCursor::goto_parent`: moves to the parent; `false`, and no move, at
/// the root.
#[verifier::external_body]
fn ts_cursor_goto_parent(cursor: &mut TreeWalker<'_>) -> (r: bool)
    ensures
        r == (old(cursor).path@.len() > 0),
        final(cursor).source@ == old(cursor).source@,
        final(cursor).path@ == (if r { old(cursor).path@.drop_last() } else { old(cursor).path@ }),
{
    cursor.cursor.goto_parent()
}

/// `tree_sitter::Node::kind`: the grammar name of the node.
#[verifier::external_body]
fn ts_node_kind(node: &TreeNode<'_>) -> (r: String)
    requires
        spec_node_at(qml_tree(node.source@), node.path@) is Some,
    ensures
        r@ == spec_node_at(qml_tree(node.source@), node.path@).unwrap().kind,
{
    node.node.kind().to_string()
}

/// `tree_sitter::Node::start_position`: row and byte column where the node starts.
#[verifier::external_body]
fn ts_node_start_position(node: &TreeNode<'_>) -> (r: Point)
    requires
        spec_node_at(qml_tree(node.source@), node.path@) is Some,
    ensures
        r == spec_node_at(qml_tree(node.source@), node.path@).unwrap().start,
{
    let p = node.node.start_position();
    Point { row: p.row, column: p.column }
}

/// `tree_sitter::Node::end_position`: row and byte column where the node ends.
#[verifier::external_body]
fn ts_node_end_position(node: &TreeNode<'_>) -> (r: Point)
    requires
        spec_node_at(qml_tree(node.source@), node.path@) is Some,
    ensures
        r == spec_node_at(qml_tree(node.source@), node.path@).unwrap().end,
{
    let p = node.node.end_position();
    Point { row: p.row, column: p.column }
}

/// `tree_sitter::Node::is_error`: whether the node is a syntax error.
#[verifier::external_body]
fn ts_node_is_error(node: &TreeNode<'_>) -> (r: bool)
    requires
        spec_node_at(qml_tree(node.source@), node.path@) is Some,
    ensures
        r == spec_node_at(qml_tree(node.source@), node.path@).unwrap().is_error,
{
    node.node.is_error()
}

/// `tree_sitter::Node::has_error`: whether the node's error cost is above zero. That is
/// not tied to [`ts_node_is_error`]: an error leaf that the lexer builds for a character
/// that starts no token has no cost.
#[verifier::external_body]
fn ts_node_has_error(node: &TreeNode<'_>) -> (r: bool)
    requires
        spec_node_at(qml_tree(node.source@), node.path@) is Some,
    ensures
        r == spec_node_at(qml_tree(node.source@), node.path@).unwrap().has_error,
{
    node.node.has_error()
}

/// `tree_sitter::Node::child_count`: the number of children, those a cursor visits.
#[verifier::external_body]
fn ts_node_child_count(node: &TreeNode<'_>) -> (r: usize)
    requires
        spec_node_at(qml_tree(node.source@), node.path@) is Some,
    ensures
        r == spec_node_at(qml_tree(node.source@), node.path@).unwrap().children.len(),
{
    node.node.child_count()
}

/// Reads the node under the cursor, and everything below it, into a [`SyntaxNode`]; the
/// cursor comes back to that node.
fn node_from_cursor(cursor: &mut TreeWalker<'_>) -> (r: SyntaxNode)
    requires
        spec_node_at(qml_tree(old(cursor).source@), old(cursor).path@) is Some,
    ensures
        r@ == spec_node_at(qml_tree(old(cursor).source@), old(cursor).path@).unwrap(),
        old(cursor).path@.len() == 0 ==> r.field is None,
        final(cursor).source@ == old(cursor).source@,
        final(cursor).path@ == old(cursor).path@,
    decreases spec_node_at(qml_tree(old(cursor).source@), old(cursor).path@).unwrap(),
{
    let ghost src = cursor.source@;
    let ghost p0 = cursor.path@;
    let ghost here = walker_at(*cursor).unwrap();
    let node = ts_cursor_node(cursor);
    let kind = ts_node_kind(&node);
    let start = ts_node_start_position(&node);
    let end = ts_node_end_position(&node);
    let is_error = ts_node_is_error(&node);
    let has_error = ts_node_has_error(&node);
    let count = ts_node_child_count(&node);
    let field = ts_cursor_field_name(cursor);
    let mut children: Vec<SyntaxNode> = Vec::new();
    assert(crate::syntax::nodes_view(children@) == here.children.take(0));
    if count > 0 {
        ts_cursor_goto_first_child(cursor);
        let mut i: usize = 0;
        loop
            invariant_except_break
                i < count,
                cursor.path@ == p0.push(i as int),
            invariant
                old(cursor).source@ == src,
                old(cursor).path@ == p0,
                count == here.children.len(),
                tree_node(src, p0) == Some(here),
                cursor.source@ == src,
                crate::syntax::nodes_view(children@) == here.children.take(i as int),
            ensures
                i == count,
                cursor.path@ == p0.push(i - 1),
            decreases count - i,
        {
            proof { lemma_spec_node_at_push(qml_tree(src), p0, i as int); }
            assert(walker_at(*cursor) == Some(here.children[i as int]));
            assert(decreases_to!(here => here.children[i as int]));
            assert(walker_at(*old(cursor)).unwrap() == here);
            let child = node_from_cursor(cursor);
            proof { lemma_nodes_view_push(children@, child); }
            children.push(child);
            assert(here.children.take(i + 1) == here.children.take(i as int).push(here.children[i as int]));
            i = i + 1;
            if i == count {
                break;
            }
            assert(p0.push(i - 1).drop_last() == p0);
            ts_cursor_goto_next_sibling(cursor);
            assert(p0.push(i - 1).drop_last().push(i - 1 + 1) == p0.push(i as int));
        }
        assert(p0.push(i - 1).drop_last() == p0);
        ts_cursor_goto_parent(cursor);
    }
    assert(here.children.take(count as int) == here.children);
    let r = SyntaxNode { kind, field, start, end, is_error, has_error, children };
    assert(r@ == here);
    r
}

/// The syntax tree that tree-sitter's QML grammar gives for `source` (see [`qml_tree`]),
/// read into a [`SyntaxNode`]; its root hangs under no field.
pub fn parse_qml(source: &str) -> (r: Result<SyntaxNode, ParseFailure>)
    ensures
        r is Ok,
        r matches Ok(root) ==> root@ == qml_tree(source@),
        r matches Ok(root) ==> root.field is None,
{
    let parser = ts_parser_new();
    let mut parser = match ts_set_qml_language(parser) {
        Ok(p) => p,
        Err(_) => return Err(ParseFailure::Language),
    };
    let tree = match ts_parse(&mut parser, source) {
        Some(t) => t,
        None => return Err(ParseFailure::NoTree),
    };
    let mut cursor = ts_tree_walk(&tree);
    proof { assert(walker_at(cursor) == Some(qml_tree(source@))); }
    let root = node_from_cursor(&mut cursor);
    Ok(root)
}

} // verus!
