//! The document outline: imports, object definitions and functions.
use vstd::prelude::*;
use crate::lsp::{
    DocumentSymbol, Position, Range, SymbolKind, SymbolSpec, symbols_view, symbol_view,
    lemma_symbols_view_push, lemma_symbols_view_concat,
};
use crate::syntax::{SyntaxNode, MalformedTree, field_child, span_text, child_by_field, kind_is, node_text};
use crate::text::{rows, lines_of, split_lines};

verus! {

/// The range of a node, its row and column taken as `u32` (as `as u32` does).
pub open spec fn node_range(n: SyntaxNode) -> Range {
    Range {
        start: Position { line: n.start.row as u32, character: n.start.column as u32 },
        end: Position { line: n.end.row as u32, character: n.end.column as u32 },
    }
}

/// `None` for an empty sequence, else the sequence.
pub open spec fn nonempty<A>(s: Seq<A>) -> Option<Seq<A>> {
    if s.len() == 0 {
        None
    } else {
        Some(s)
    }
}

pub open spec fn opt_symbols(o: Option<Vec<DocumentSymbol>>) -> Option<Seq<SymbolSpec>> {
    match o {
        Some(v) => Some(symbols_view(v@)),
        None => None,
    }
}

/// The symbol of a declaration `c`, named by the text of its child under `name_field`,
/// with the symbols nested in it as children.
pub open spec fn declared_symbol(
    lines: Seq<Seq<u8>>,
    c: SyntaxNode,
    name_field: Seq<char>,
    kind: SymbolKind,
) -> Option<SymbolSpec>
    decreases c,
{
    match field_child(c, name_field) {
        None => None,
        Some(f) => match span_text(lines, f) {
            None => None,
            Some(name) => match nested_symbols(lines, c.children@) {
                None => None,
                Some(kids) => Some(
                    SymbolSpec {
                        name,
                        kind,
                        range: node_range(c),
                        selection_range: node_range(c),
                        children: nonempty(kids),
                    },
                ),
            },
        },
    }
}

/// The symbols among the nodes `cs` inside an object or function: functions and
/// object definitions, and what object initializers hold.
pub open spec fn nested_symbols(lines: Seq<Seq<u8>>, cs: Seq<SyntaxNode>) -> Option<Seq<SymbolSpec>>
    decreases cs,
{
    if cs.len() == 0 {
        Some(Seq::empty())
    } else {
        let c = cs[cs.len() - 1];
        match nested_symbols(lines, cs.subrange(0, cs.len() - 1)) {
            None => None,
            Some(prev) => if c.kind@ == "ui_object_initializer"@ {
                match nested_symbols(lines, c.children@) {
                    None => None,
                    Some(s) => Some(prev + s),
                }
            } else if c.kind@ == "function_declaration"@ {
                match declared_symbol(lines, c, "name"@, SymbolKind::Function) {
                    None => None,
                    Some(s) => Some(prev.push(s)),
                }
            } else if c.kind@ == "ui_object_definition"@ {
                match declared_symbol(lines, c, "type_name"@, SymbolKind::Variable) {
                    None => None,
                    Some(s) => Some(prev.push(s)),
                }
            } else {
                Some(prev)
            },
        }
    }
}

/// The symbol of an import, named and placed by its `source` child.
pub open spec fn import_symbol(lines: Seq<Seq<u8>>, c: SyntaxNode) -> Option<SymbolSpec> {
    match field_child(c, "source"@) {
        None => None,
        Some(s) => match span_text(lines, s) {
            None => None,
            Some(name) => match nested_symbols(lines, s.children@) {
                None => None,
                Some(kids) => Some(
                    SymbolSpec {
                        name,
                        kind: SymbolKind::Module,
                        range: node_range(s),
                        selection_range: node_range(s),
                        children: nonempty(kids),
                    },
                ),
            },
        },
    }
}

/// The symbols among the top-level nodes `cs`: imports, functions and object definitions.
pub open spec fn outline_symbols(lines: Seq<Seq<u8>>, cs: Seq<SyntaxNode>) -> Option<Seq<SymbolSpec>>
    decreases cs.len(),
{
    if cs.len() == 0 {
        Some(Seq::empty())
    } else {
        let c = cs[cs.len() - 1];
        match outline_symbols(lines, cs.subrange(0, cs.len() - 1)) {
            None => None,
            Some(prev) => {
                let mine = if c.kind@ == "ui_import"@ {
                    import_symbol(lines, c)
                } else if c.kind@ == "function_declaration"@ {
                    declared_symbol(lines, c, "name"@, SymbolKind::Function)
                } else if c.kind@ == "ui_object_definition"@ {
                    declared_symbol(lines, c, "type_name"@, SymbolKind::Variable)
                } else {
                    None
                };
                if c.kind@ == "ui_import"@ || c.kind@ == "function_declaration"@ || c.kind@
                    == "ui_object_definition"@ {
                    match mine {
                        None => None,
                        Some(s) => Some(prev.push(s)),
                    }
                } else {
                    Some(prev)
                }
            },
        }
    }
}

proof fn lemma_nested_prefix_none(lines: Seq<Seq<u8>>, cs: Seq<SyntaxNode>, k: int)
    requires
        0 <= k <= cs.len(),
        nested_symbols(lines, cs.subrange(0, k)) is None,
    ensures
        nested_symbols(lines, cs) is None,
    decreases cs.len(),
{
    if k < cs.len() {
        assert(cs.subrange(0, cs.len() - 1).subrange(0, k) == cs.subrange(0, k));
        lemma_nested_prefix_none(lines, cs.subrange(0, cs.len() - 1), k);
    } else {
        assert(cs.subrange(0, k) == cs);
    }
}

proof fn lemma_outline_prefix_none(lines: Seq<Seq<u8>>, cs: Seq<SyntaxNode>, k: int)
    requires
        0 <= k <= cs.len(),
        outline_symbols(lines, cs.subrange(0, k)) is None,
    ensures
        outline_symbols(lines, cs) is None,
    decreases cs.len(),
{
    if k < cs.len() {
        assert(cs.subrange(0, cs.len() - 1).subrange(0, k) == cs.subrange(0, k));
        lemma_outline_prefix_none(lines, cs.subrange(0, cs.len() - 1), k);
    } else {
        assert(cs.subrange(0, k) == cs);
    }
}

fn range_of(n: &SyntaxNode) -> (r: Range)
    ensures
        r == node_range(*n),
{
    Range {
        start: Position { line: n.start.row as u32, character: n.start.column as u32 },
        end: Position { line: n.end.row as u32, character: n.end.column as u32 },
    }
}

/// The symbol of the declaration `c` (see [`declared_symbol`]).
fn declared(lines: &Vec<Vec<u8>>, c: &SyntaxNode, name_field: &str, kind: SymbolKind) -> (r: Result<DocumentSymbol, MalformedTree>)
    ensures
        match r {
            Ok(d) => declared_symbol(rows(lines@), *c, name_field@, kind) == Some(d@),
            Err(_) => declared_symbol(rows(lines@), *c, name_field@, kind) is None,
        },
    decreases c, 1nat,
{
    let f = match child_by_field(c, name_field) {
        Some(f) => f,
        None => return Err(MalformedTree),
    };
    let name = match node_text(lines, f) {
        Some(t) => t,
        None => return Err(MalformedTree),
    };
    let children = getsubast(lines, c)?;
    let d = DocumentSymbol {
        name,
        kind,
        range: range_of(c),
        selection_range: range_of(c),
        children,
    };
    Ok(d)
}

/// The symbols nested in `input` (see [`nested_symbols`]), `None` when there are none.
fn getsubast(lines: &Vec<Vec<u8>>, input: &SyntaxNode) -> (r: Result<Option<Vec<DocumentSymbol>>, MalformedTree>)
    ensures
        match r {
            Ok(o) => nested_symbols(rows(lines@), input.children@) matches Some(s) && opt_symbols(o)
                == nonempty(s),
            Err(_) => nested_symbols(rows(lines@), input.children@) is None,
        },
    decreases input, 0nat,
{
    let mut asts: Vec<DocumentSymbol> = Vec::new();
    let mut i: usize = 0;
    let ghost cs = input.children@;
    let ghost ls = rows(lines@);
    while i < input.children.len()
        invariant
            cs == input.children@,
            ls == rows(lines@),
            i <= cs.len(),
            nested_symbols(ls, cs.subrange(0, i as int)) == Some(symbols_view(asts@)),
        decreases cs.len() - i,
    {
        let child = &input.children[i];
        assert(cs.subrange(0, i + 1).subrange(0, i as int) == cs.subrange(0, i as int));
        assert(cs.subrange(0, i + 1)[i as int] == *child);
        if kind_is(child, "ui_object_initializer") {
            match getsubast(lines, child) {
                Err(e) => {
                    proof { lemma_nested_prefix_none(ls, cs, i + 1); }
                    return Err(e);
                },
                Ok(Some(mut messages)) => {
                    proof { lemma_symbols_view_concat(asts@, messages@); }
                    asts.append(&mut messages);
                },
                Ok(None) => {
                    assert(symbols_view(asts@) + Seq::empty() == symbols_view(asts@));
                },
            }
        } else if kind_is(child, "function_declaration") {
            let d = match declared(lines, child, "name", SymbolKind::Function) {
                Ok(d) => d,
                Err(e) => {
                    proof { lemma_nested_prefix_none(ls, cs, i + 1); }
                    return Err(e);
                },
            };
            proof { lemma_symbols_view_push(asts@, d); }
            asts.push(d);
        } else if kind_is(child, "ui_object_definition") {
            let d = match declared(lines, child, "type_name", SymbolKind::Variable) {
                Ok(d) => d,
                Err(e) => {
                    proof { lemma_nested_prefix_none(ls, cs, i + 1); }
                    return Err(e);
                },
            };
            proof { lemma_symbols_view_push(asts@, d); }
            asts.push(d);
        }
        i = i + 1;
    }
    assert(cs.subrange(0, i as int) == cs);
    if asts.len() == 0 {
        Ok(None)
    } else {
        Ok(Some(asts))
    }
}

/// The outline of a document whose syntax tree is `input`, or why it cannot be made.
pub fn try_getast(input: &SyntaxNode, source: &str) -> (r: Result<Option<Vec<DocumentSymbol>>, MalformedTree>)
    ensures
        match r {
            Ok(o) => outline_symbols(lines_of(source@), input.children@) matches Some(s) && opt_symbols(o)
                == nonempty(s),
            Err(_) => outline_symbols(lines_of(source@), input.children@) is None,
        },
{
    let lines = split_lines(source);
    let ghost cs = input.children@;
    let ghost ls = lines_of(source@);
    let mut asts: Vec<DocumentSymbol> = Vec::new();
    let mut i: usize = 0;
    while i < input.children.len()
        invariant
            cs == input.children@,
            ls == rows(lines@),
            ls == lines_of(source@),
            i <= cs.len(),
            outline_symbols(ls, cs.subrange(0, i as int)) == Some(symbols_view(asts@)),
        decreases cs.len() - i,
    {
        let child = &input.children[i];
        assert(cs.subrange(0, i + 1).subrange(0, i as int) == cs.subrange(0, i as int));
        assert(cs.subrange(0, i + 1)[i as int] == *child);
        if kind_is(child, "ui_import") {
            let source_node = match child_by_field(child, "source") {
                Some(s) => s,
                None => {
                    proof { lemma_outline_prefix_none(ls, cs, i + 1); }
                    return Err(MalformedTree);
                },
            };
            let name = match node_text(&lines, source_node) {
                Some(t) => t,
                None => {
                    proof { lemma_outline_prefix_none(ls, cs, i + 1); }
                    return Err(MalformedTree);
                },
            };
            let children = match getsubast(&lines, source_node) {
                Ok(c) => c,
                Err(e) => {
                    proof { lemma_outline_prefix_none(ls, cs, i + 1); }
                    return Err(e);
                },
            };
            let d = DocumentSymbol {
                name,
                kind: SymbolKind::Module,
                range: range_of(source_node),
                selection_range: range_of(source_node),
                children,
            };
            proof { lemma_symbols_view_push(asts@, d); }
            asts.push(d);
        } else if kind_is(child, "function_declaration") {
            let d = match declared(&lines, child, "name", SymbolKind::Function) {
                Ok(d) => d,
                Err(e) => {
                    proof { lemma_outline_prefix_none(ls, cs, i + 1); }
                    return Err(e);
                },
            };
            proof { lemma_symbols_view_push(asts@, d); }
            asts.push(d);
        } else if kind_is(child, "ui_object_definition") {
            let d = match declared(&lines, child, "type_name", SymbolKind::Variable) {
                Ok(d) => d,
                Err(e) => {
                    proof { lemma_outline_prefix_none(ls, cs, i + 1); }
                    return Err(e);
                },
            };
            proof { lemma_symbols_view_push(asts@, d); }
            asts.push(d);
        }
        i = i + 1;
    }
    assert(cs.subrange(0, i as int) == cs);
    if asts.len() == 0 {
        Ok(None)
    } else {
        Ok(Some(asts))
    }
}

/// The outline of a document whose syntax tree is `input`: a symbol for each import,
/// function and object definition at the top, functions and object definitions nested
/// as children; `None` when there is no symbol.
pub fn getast(input: &SyntaxNode, source: &str) -> (r: Option<Vec<DocumentSymbol>>)
    requires
        outline_symbols(lines_of(source@), input.children@) is Some,
    ensures
        opt_symbols(r) == nonempty(outline_symbols(lines_of(source@), input.children@).unwrap()),
        r matches Some(v) ==> v.len() > 0,
{
    match try_getast(input, source) {
        Ok(o) => {
            proof {
                if o is Some {
                    crate::lsp::lemma_symbols_view_len(o->0@);
                }
            }
            o
        },
        Err(_) => None,
    }
}

/// The number of symbols in `s` and below it.
pub open spec fn symbol_size(s: SymbolSpec) -> nat
    decreases s,
{
    1 + match s.children {
        Some(k) => symbols_size(k),
        None => 0,
    }
}

/// The number of symbols in `s` and below them.
pub open spec fn symbols_size(s: Seq<SymbolSpec>) -> nat
    decreases s,
{
    if s.len() == 0 {
        0
    } else {
        symbols_size(s.subrange(0, s.len() - 1)) + symbol_size(s[s.len() - 1])
    }
}

/// The number of declarations among `cs` that an outline shows: every function
/// declaration and object definition, with those inside it, and those inside object
/// initializers.
pub open spec fn declaration_count(cs: Seq<SyntaxNode>) -> nat
    decreases cs,
{
    if cs.len() == 0 {
        0
    } else {
        let c = cs[cs.len() - 1];
        declaration_count(cs.subrange(0, cs.len() - 1)) + if c.kind@ == "ui_object_initializer"@ {
            declaration_count(c.children@)
        } else if c.kind@ == "function_declaration"@ || c.kind@ == "ui_object_definition"@ {
            1 + declaration_count(c.children@)
        } else {
            0
        }
    }
}

proof fn lemma_symbols_size_push(s: Seq<SymbolSpec>, d: SymbolSpec)
    ensures
        symbols_size(s.push(d)) == symbols_size(s) + symbol_size(d),
{
    assert(s.push(d).subrange(0, s.len() as int) == s);
}

proof fn lemma_symbols_size_concat(a: Seq<SymbolSpec>, b: Seq<SymbolSpec>)
    ensures
        symbols_size(a + b) == symbols_size(a) + symbols_size(b),
    decreases b.len(),
{
    if b.len() > 0 {
        let b0 = b.subrange(0, b.len() - 1);
        lemma_symbols_size_concat(a, b0);
        assert((a + b).subrange(0, (a + b).len() - 1) == a + b0);
        assert((a + b)[(a + b).len() - 1] == b[b.len() - 1]);
    } else {
        assert(a + b == a);
    }
}

proof fn lemma_declared_size(lines: Seq<Seq<u8>>, c: SyntaxNode, name_field: Seq<char>, kind: SymbolKind)
    requires
        declared_symbol(lines, c, name_field, kind) is Some,
    ensures
        symbol_size(declared_symbol(lines, c, name_field, kind).unwrap()) == 1 + declaration_count(c.children@),
    decreases c, 1nat,
{
    lemma_nested_size(lines, c.children@);
}

proof fn lemma_nested_size(lines: Seq<Seq<u8>>, cs: Seq<SyntaxNode>)
    requires
        nested_symbols(lines, cs) is Some,
    ensures
        symbols_size(nested_symbols(lines, cs).unwrap()) == declaration_count(cs),
    decreases cs, 0nat,
{
    if cs.len() > 0 {
        let prefix = cs.subrange(0, cs.len() - 1);
        let c = cs[cs.len() - 1];
        lemma_nested_size(lines, prefix);
        let prev = nested_symbols(lines, prefix).unwrap();
        reveal_strlit("ui_object_initializer");
        reveal_strlit("function_declaration");
        reveal_strlit("ui_object_definition");
        assert("ui_object_initializer"@.len() != "function_declaration"@.len());
        assert("ui_object_initializer"@[10] != "ui_object_definition"@[10]);
        if c.kind@ == "ui_object_initializer"@ {
            lemma_nested_size(lines, c.children@);
            lemma_symbols_size_concat(prev, nested_symbols(lines, c.children@).unwrap());
        } else if c.kind@ == "function_declaration"@ {
            lemma_declared_size(lines, c, "name"@, SymbolKind::Function);
            lemma_symbols_size_push(prev, declared_symbol(lines, c, "name"@, SymbolKind::Function).unwrap());
        } else if c.kind@ == "ui_object_definition"@ {
            lemma_declared_size(lines, c, "type_name"@, SymbolKind::Variable);
            lemma_symbols_size_push(prev, declared_symbol(lines, c, "type_name"@, SymbolKind::Variable).unwrap());
        }
    }
}

/// The outline of the nodes inside an object or function holds one symbol for each
/// declaration that [`declaration_count`] counts, at every depth: every function and
/// object definition inside an outlined object appears, as a child of its symbol.
pub proof fn outline_keeps_every_declaration(lines: Seq<Seq<u8>>, cs: Seq<SyntaxNode>)
    requires
        nested_symbols(lines, cs) is Some,
    ensures
        symbols_size(nested_symbols(lines, cs).unwrap()) == declaration_count(cs),
{
    lemma_nested_size(lines, cs);
}

} // verus!
