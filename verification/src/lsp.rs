//! The values that the language server hands to its client: positions, ranges,
//! document symbols and completion items.
use vstd::prelude::*;

verus! {

/// A position in a document: zero-based line and character.
#[derive(Clone, Copy, Debug, PartialEq, Eq, Structural)]
pub struct Position {
    pub line: u32,
    pub character: u32,
}

#[derive(Clone, Copy, Debug, PartialEq, Eq, Structural)]
pub struct Range {
    pub start: Position,
    pub end: Position,
}

#[derive(Clone, Copy, Debug, PartialEq, Eq, Structural)]
pub enum SymbolKind {
    Module,
    Function,
    Variable,
}

/// An entry of a document outline.
#[derive(Debug)]
pub struct DocumentSymbol {
    pub name: String,
    pub kind: SymbolKind,
    pub range: Range,
    pub selection_range: Range,
    pub children: Option<Vec<DocumentSymbol>>,
}

/// What a [`DocumentSymbol`] holds, as mathematical values.
pub struct SymbolSpec {
    pub name: Seq<char>,
    pub kind: SymbolKind,
    pub range: Range,
    pub selection_range: Range,
    pub children: Option<Seq<SymbolSpec>>,
}

pub open spec fn symbol_view(d: DocumentSymbol) -> SymbolSpec
    decreases d,
{
    SymbolSpec {
        name: d.name@,
        kind: d.kind,
        range: d.range,
        selection_range: d.selection_range,
        children: match d.children {
            Some(v) => Some(symbols_view(v@)),
            None => None,
        },
    }
}

pub open spec fn symbols_view(s: Seq<DocumentSymbol>) -> Seq<SymbolSpec>
    decreases s,
{
    if s.len() == 0 {
        Seq::empty()
    } else {
        symbols_view(s.subrange(0, s.len() - 1)).push(symbol_view(s[s.len() - 1]))
    }
}

impl View for DocumentSymbol {
    type V = SymbolSpec;

    open spec fn view(&self) -> SymbolSpec {
        symbol_view(*self)
    }
}

pub proof fn lemma_symbols_view_len(s: Seq<DocumentSymbol>)
    ensures
        symbols_view(s).len() == s.len(),
    decreases s.len(),
{
    if s.len() > 0 {
        lemma_symbols_view_len(s.subrange(0, s.len() - 1));
    }
}

pub proof fn lemma_symbols_view_push(s: Seq<DocumentSymbol>, d: DocumentSymbol)
    ensures
        symbols_view(s.push(d)) == symbols_view(s).push(symbol_view(d)),
{
    assert(s.push(d).subrange(0, s.len() as int) == s);
}

pub proof fn lemma_symbols_view_concat(a: Seq<DocumentSymbol>, b: Seq<DocumentSymbol>)
    ensures
        symbols_view(a + b) == symbols_view(a) + symbols_view(b),
    decreases b.len(),
{
    if b.len() == 0 {
        assert(a + b == a);
    } else {
        let b0 = b.subrange(0, b.len() - 1);
        lemma_symbols_view_concat(a, b0);
        assert((a + b).subrange(0, (a + b).len() - 1) == a + b0);
        assert(symbols_view(b) == symbols_view(b0).push(symbol_view(b[b.len() - 1])));
        assert(symbols_view(a + b) == (symbols_view(a) + symbols_view(b0)).push(
            symbol_view(b[b.len() - 1]),
        ));
    }
}

#[derive(Clone, Copy, Debug, PartialEq, Eq, Structural)]
pub enum CompletionItemKind {
    Variable,
    Function,
}

/// A completion proposal.
#[derive(Debug)]
pub struct CompletionItem {
    pub label: String,
    pub kind: CompletionItemKind,
    pub detail: String,
}

/// What a [`CompletionItem`] holds, as mathematical values.
pub struct CompletionSpec {
    pub label: Seq<char>,
    pub kind: CompletionItemKind,
    pub detail: Seq<char>,
}

impl View for CompletionItem {
    type V = CompletionSpec;

    open spec fn view(&self) -> CompletionSpec {
        CompletionSpec { label: self.label@, kind: self.kind, detail: self.detail@ }
    }
}

pub open spec fn items_view(s: Seq<CompletionItem>) -> Seq<CompletionSpec> {
    s.map_values(|c: CompletionItem| c@)
}

} // verus!
