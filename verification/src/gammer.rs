//! Syntax errors, and completion of the ids that a document declares.
use vstd::prelude::*;
use crate::lsp::{CompletionItem, CompletionItemKind, CompletionSpec, items_view};
use crate::syntax::{
    SyntaxNode, Point, MalformedTree, field_child, field_index, span_text, child_by_field, kind_is,
    node_text, lemma_field_index_bounds, node_at, lemma_node_at_child,
};
use crate::text::{rows, lines_of, split_lines, text_is, concat_str};
use crate::ast::nonempty;

verus! {

/// The positions of the syntax errors in `n`: nothing when `n` holds no error, its own
/// range when `n` is an error, else those of its children, in order, and its own range
/// when none of its children reports one (a missing node).
pub open spec fn error_ranges(n: SyntaxNode) -> Seq<(Point, Point)>
    decreases n,
{
    if !n.has_error {
        Seq::empty()
    } else if n.is_error {
        seq![(n.start, n.end)]
    } else if children_error_ranges(n.children@).len() == 0 {
        seq![(n.start, n.end)]
    } else {
        children_error_ranges(n.children@)
    }
}

pub open spec fn children_error_ranges(cs: Seq<SyntaxNode>) -> Seq<(Point, Point)>
    decreases cs,
{
    if cs.len() == 0 {
        Seq::empty()
    } else {
        children_error_ranges(cs.subrange(0, cs.len() - 1)) + error_ranges(cs[cs.len() - 1])
    }
}

pub open spec fn opt_ranges(o: Option<Vec<(Point, Point)>>) -> Option<Seq<(Point, Point)>> {
    match o {
        Some(v) => Some(v@),
        None => None,
    }
}

/// The positions of the syntax errors in `input` (see [`error_ranges`]): some whenever
/// `input` holds an error, `None` when it holds none.
pub fn checkerror(input: &SyntaxNode) -> (r: Option<Vec<(Point, Point)>>)
    ensures
        opt_ranges(r) == nonempty(error_ranges(*input)),
        r is Some <==> input.has_error,
        input.has_error && input.is_error ==> opt_ranges(r) == Some(seq![(input.start, input.end)]),
        r matches Some(v) ==> v.len() > 0,
    decreases input,
{
    if input.has_error {
        if input.is_error {
            let v = vec![(input.start, input.end)];
            assert(v@ == seq![(input.start, input.end)]);
            Some(v)
        } else {
            let mut output: Vec<(Point, Point)> = Vec::new();
            let mut i: usize = 0;
            let ghost cs = input.children@;
            while i < input.children.len()
                invariant
                    cs == input.children@,
                    i <= cs.len(),
                    output@ == children_error_ranges(cs.subrange(0, i as int)),
                decreases cs.len() - i,
            {
                let node = &input.children[i];
                assert(cs.subrange(0, i + 1).subrange(0, i as int) == cs.subrange(0, i as int));
                assert(cs.subrange(0, i + 1)[i as int] == *node);
                match checkerror(node) {
                    Some(mut tran) => {
                        output.append(&mut tran);
                    },
                    None => {
                        assert(output@ + error_ranges(*node) == output@);
                    },
                }
                i = i + 1;
            }
            assert(cs.subrange(0, i as int) == cs);
            if output.len() == 0 {
                let v = vec![(input.start, input.end)];
                assert(v@ == seq![(input.start, input.end)]);
                Some(v)
            } else {
                Some(output)
            }
        }
    } else {
        None
    }
}

/// Whether `d` is where a syntax error sits: it holds an error, and either is an error or
/// has no child that reports one.
pub open spec fn error_site(d: SyntaxNode) -> bool {
    d.has_error && (d.is_error || children_error_ranges(d.children@).len() == 0)
}

/// Whether the node at `path` under `n` is where a syntax error sits, placed at `range`.
pub open spec fn error_site_at(n: SyntaxNode, path: Seq<int>, range: (Point, Point)) -> bool {
    node_at(n, path) matches Some(d) && error_site(d) && (d.start, d.end) == range
}

proof fn error_range_witness(n: SyntaxNode, k: int) -> (path: Seq<int>)
    requires
        0 <= k < error_ranges(n).len(),
    ensures
        error_site_at(n, path, error_ranges(n)[k]),
    decreases n, 1nat,
{
    if n.is_error || children_error_ranges(n.children@).len() == 0 {
        Seq::empty()
    } else {
        let (i, p) = children_error_witness(n.children@, k);
        lemma_node_at_child(n, i, p);
        seq![i] + p
    }
}

proof fn children_error_witness(cs: Seq<SyntaxNode>, k: int) -> (r: (int, Seq<int>))
    requires
        0 <= k < children_error_ranges(cs).len(),
    ensures
        0 <= r.0 < cs.len(),
        node_at(cs[r.0], r.1) matches Some(d) && error_site(d) && (d.start, d.end)
            == children_error_ranges(cs)[k],
    decreases cs, 0nat,
{
    let prefix = cs.subrange(0, cs.len() - 1);
    let last = cs[cs.len() - 1];
    let before = children_error_ranges(prefix);
    if k < before.len() {
        let (i, p) = children_error_witness(prefix, k);
        assert(prefix[i] == cs[i]);
        (i, p)
    } else {
        let p = error_range_witness(last, k - before.len());
        (cs.len() - 1, p)
    }
}

/// Every position that [`checkerror`] reports is that of a node of the tree where a
/// syntax error sits: an error node, or a node that holds an error and has no child that
/// reports one.
pub proof fn checkerror_reports_error_sites(n: SyntaxNode, k: int)
    requires
        0 <= k < error_ranges(n).len(),
    ensures
        exists|path: Seq<int>| #[trigger] error_site_at(n, path, error_ranges(n)[k]),
{
    let path = error_range_witness(n, k);
    assert(error_site_at(n, path, error_ranges(n)[k]));
}

/// Whether every node on the way from `n` down `path`, the end of it included, holds an
/// error.
pub open spec fn error_held_along(n: SyntaxNode, path: Seq<int>) -> bool
    decreases path.len(),
{
    n.has_error && (path.len() == 0 || (0 <= path[0] < n.children@.len() && error_held_along(
        n.children@[path[0]],
        path.skip(1),
    )))
}

/// Whether no node on the way from `n` down `path`, the end of it left out, is an error.
pub open spec fn no_error_above(n: SyntaxNode, path: Seq<int>) -> bool
    decreases path.len(),
{
    path.len() == 0 || (!n.is_error && 0 <= path[0] < n.children@.len() && no_error_above(
        n.children@[path[0]],
        path.skip(1),
    ))
}

proof fn lemma_children_ranges_include(cs: Seq<SyntaxNode>, i: int, x: (Point, Point))
    requires
        0 <= i < cs.len(),
        error_ranges(cs[i]).contains(x),
    ensures
        children_error_ranges(cs).contains(x),
    decreases cs.len(),
{
    let prefix = cs.subrange(0, cs.len() - 1);
    let before = children_error_ranges(prefix);
    let last = error_ranges(cs[cs.len() - 1]);
    assert(children_error_ranges(cs) == before + last);
    if i < cs.len() - 1 {
        assert(prefix[i] == cs[i]);
        lemma_children_ranges_include(prefix, i, x);
        let k = choose|k: int| 0 <= k < before.len() && before[k] == x;
        assert((before + last)[k] == x);
    } else {
        let k = choose|k: int| 0 <= k < last.len() && last[k] == x;
        assert((before + last)[before.len() + k] == x);
    }
}

/// [`checkerror`] reports the range of every error node that has no error node above it
/// and that is reached through nodes that hold an error, itself included.
pub proof fn checkerror_reports_every_error(n: SyntaxNode, path: Seq<int>)
    requires
        node_at(n, path) matches Some(d) && d.is_error,
        no_error_above(n, path),
        error_held_along(n, path),
    ensures
        error_ranges(n).contains((node_at(n, path).unwrap().start, node_at(n, path).unwrap().end)),
    decreases path.len(),
{
    let d = node_at(n, path).unwrap();
    let x = (d.start, d.end);
    if path.len() == 0 {
        assert(error_ranges(n)[0] == x);
    } else {
        let i = path[0];
        let c = n.children@[i];
        assert(node_at(c, path.skip(1)) == node_at(n, path));
        checkerror_reports_every_error(c, path.skip(1));
        assert(c.has_error);
        assert(n.has_error);
        lemma_children_ranges_include(n.children@, i, x);
        let k = choose|k: int| 0 <= k < children_error_ranges(n.children@).len() && children_error_ranges(n.children@)[k] == x;
        assert(error_ranges(n) == children_error_ranges(n.children@));
        assert(error_ranges(n)[k] == x);
    }
}

/// The completion proposed for a declared name.
pub open spec fn variable_item(label: Seq<char>) -> CompletionSpec {
    CompletionSpec {
        label,
        kind: CompletionItemKind::Variable,
        detail: "defined variable"@,
    }
}

/// The completions for the `id` bindings among the nodes `cs` of an object initializer:
/// the value of each binding named `id`, in order.
pub open spec fn binding_ids(lines: Seq<Seq<u8>>, cs: Seq<SyntaxNode>) -> Option<Seq<CompletionSpec>>
    decreases cs.len(),
{
    if cs.len() == 0 {
        Some(Seq::empty())
    } else {
        let c = cs.last();
        match binding_ids(lines, cs.drop_last()) {
            None => None,
            Some(prev) => if c.kind@ == "ui_binding"@ {
                match field_child(c, "name"@) {
                    None => None,
                    Some(t) => match span_text(lines, t) {
                        None => None,
                        Some(ident) => if ident == "id"@ {
                            match field_child(c, "value"@) {
                                None => None,
                                Some(v) => match span_text(lines, v) {
                                    None => None,
                                    Some(idname) => Some(prev.push(variable_item(idname))),
                                },
                            }
                        } else {
                            Some(prev)
                        },
                    },
                }
            } else {
                Some(prev)
            },
        }
    }
}

/// The completions for every id declared in the object definitions among `cs` and,
/// before the ids of an object, those declared in the objects nested in it.
pub open spec fn declared_ids(lines: Seq<Seq<u8>>, cs: Seq<SyntaxNode>) -> Option<Seq<CompletionSpec>>
    decreases cs,
{
    if cs.len() == 0 {
        Some(Seq::empty())
    } else {
        let c = cs[cs.len() - 1];
        match declared_ids(lines, cs.subrange(0, cs.len() - 1)) {
            None => None,
            Some(prev) => if c.kind@ == "ui_object_definition"@ {
                match field_index(c, "initializer"@) {
                    None => None,
                    Some(k) => {
                        proof { lemma_field_index_bounds(c, "initializer"@); }
                        let init = c.children@[k];
                        match declared_ids(lines, init.children@) {
                            None => None,
                            Some(inner) => match binding_ids(lines, init.children@) {
                                None => None,
                                Some(own) => Some(prev + inner + own),
                            },
                        }
                    },
                }
            } else {
                Some(prev)
            },
        }
    }
}

pub open spec fn opt_items(o: Option<Vec<CompletionItem>>) -> Option<Seq<CompletionSpec>> {
    match o {
        Some(v) => Some(items_view(v@)),
        None => None,
    }
}

pub(crate) fn variable_completion(label: String) -> (r: CompletionItem)
    ensures
        r@ == variable_item(label@),
{
    CompletionItem {
        label,
        kind: CompletionItemKind::Variable,
        detail: "defined variable".to_owned(),
    }
}

proof fn lemma_items_view_push(s: Seq<CompletionItem>, c: CompletionItem)
    ensures
        items_view(s.push(c)) == items_view(s).push(c@),
{
    assert(items_view(s.push(c)) =~= items_view(s).push(c@));
}

proof fn lemma_items_view_concat(a: Seq<CompletionItem>, b: Seq<CompletionItem>)
    ensures
        items_view(a + b) == items_view(a) + items_view(b),
{
    assert(items_view(a + b) =~= items_view(a) + items_view(b));
}

proof fn lemma_binding_ids_prefix_none(lines: Seq<Seq<u8>>, cs: Seq<SyntaxNode>, k: int)
    requires
        0 <= k <= cs.len(),
        binding_ids(lines, cs.take(k)) is None,
    ensures
        binding_ids(lines, cs) is None,
    decreases cs.len(),
{
    if k < cs.len() {
        assert(cs.drop_last().take(k) == cs.take(k));
        lemma_binding_ids_prefix_none(lines, cs.drop_last(), k);
    } else {
        assert(cs.take(k) == cs);
    }
}

proof fn lemma_declared_ids_prefix_none(lines: Seq<Seq<u8>>, cs: Seq<SyntaxNode>, k: int)
    requires
        0 <= k <= cs.len(),
        declared_ids(lines, cs.subrange(0, k)) is None,
    ensures
        declared_ids(lines, cs) is None,
    decreases cs.len(),
{
    if k < cs.len() {
        assert(cs.subrange(0, cs.len() - 1).subrange(0, k) == cs.subrange(0, k));
        lemma_declared_ids_prefix_none(lines, cs.subrange(0, cs.len() - 1), k);
    } else {
        assert(cs.subrange(0, k) == cs);
    }
}

/// The completions for the `id` bindings among the children of `init`.
fn ids_of_bindings(lines: &Vec<Vec<u8>>, init: &SyntaxNode, complete: &mut Vec<CompletionItem>) -> (r: Result<(), MalformedTree>)
    ensures
        match r {
            Ok(_) => binding_ids(rows(lines@), init.children@) matches Some(s) && items_view(
                final(complete)@,
            ) == items_view(old(complete)@) + s,
            Err(_) => binding_ids(rows(lines@), init.children@) is None,
        },
{
    let ghost cs = init.children@;
    let ghost ls = rows(lines@);
    let ghost start = items_view(complete@);
    let mut i: usize = 0;
    while i < init.children.len()
        invariant
            cs == init.children@,
            ls == rows(lines@),
            i <= cs.len(),
            binding_ids(ls, cs.take(i as int)) matches Some(s) && items_view(complete@) == start + s,
        decreases cs.len() - i,
    {
        let neochild = &init.children[i];
        assert(cs.take(i + 1).drop_last() == cs.take(i as int));
        assert(cs.take(i + 1).last() == *neochild);
        if kind_is(neochild, "ui_binding") {
            let temp = match child_by_field(neochild, "name") {
                Some(t) => t,
                None => {
                    proof { lemma_binding_ids_prefix_none(ls, cs, i + 1); }
                    return Err(MalformedTree);
                },
            };
            let identerfy = match node_text(lines, temp) {
                Some(t) => t,
                None => {
                    proof { lemma_binding_ids_prefix_none(ls, cs, i + 1); }
                    return Err(MalformedTree);
                },
            };
            if text_is(identerfy.as_str(), "id") {
                let name = match child_by_field(neochild, "value") {
                    Some(v) => v,
                    None => {
                        proof { lemma_binding_ids_prefix_none(ls, cs, i + 1); }
                        return Err(MalformedTree);
                    },
                };
                let idname = match node_text(lines, name) {
                    Some(t) => t,
                    None => {
                        proof { lemma_binding_ids_prefix_none(ls, cs, i + 1); }
                        return Err(MalformedTree);
                    },
                };
                let item = variable_completion(idname);
                proof { lemma_items_view_push(complete@, item); }
                complete.push(item);
            }
        }
        i = i + 1;
    }
    assert(cs.take(i as int) == cs);
    Ok(())
}

/// The completions for the ids declared in the object definitions among the children
/// of `input` (see [`declared_ids`]), `None` when there is none.
pub(crate) fn getsubcoplete(lines: &Vec<Vec<u8>>, input: &SyntaxNode) -> (r: Result<Option<Vec<CompletionItem>>, MalformedTree>)
    ensures
        match r {
            Ok(o) => declared_ids(rows(lines@), input.children@) matches Some(s) && opt_items(o)
                == nonempty(s),
            Err(_) => declared_ids(rows(lines@), input.children@) is None,
        },
    decreases input,
{
    let ghost cs = input.children@;
    let ghost ls = rows(lines@);
    let mut complete: Vec<CompletionItem> = Vec::new();
    let mut i: usize = 0;
    while i < input.children.len()
        invariant
            cs == input.children@,
            ls == rows(lines@),
            i <= cs.len(),
            declared_ids(ls, cs.subrange(0, i as int)) == Some(items_view(complete@)),
        decreases cs.len() - i,
    {
        let child = &input.children[i];
        assert(cs.subrange(0, i + 1).subrange(0, i as int) == cs.subrange(0, i as int));
        assert(cs.subrange(0, i + 1)[i as int] == *child);
        if kind_is(child, "ui_object_definition") {
            let init = match child_by_field(child, "initializer") {
                Some(c) => c,
                None => {
                    proof { lemma_declared_ids_prefix_none(ls, cs, i + 1); }
                    return Err(MalformedTree);
                },
            };
            proof {
                lemma_field_index_bounds(*child, "initializer"@);
            }
            match getsubcoplete(lines, init) {
                Err(e) => {
                    proof { lemma_declared_ids_prefix_none(ls, cs, i + 1); }
                    return Err(e);
                },
                Ok(Some(mut completes)) => {
                    proof { lemma_items_view_concat(complete@, completes@); }
                    complete.append(&mut completes);
                },
                Ok(None) => {
                    assert(items_view(complete@) + Seq::empty() == items_view(complete@));
                },
            }
            match ids_of_bindings(lines, init, &mut complete) {
                Ok(_) => {},
                Err(e) => {
                    proof { lemma_declared_ids_prefix_none(ls, cs, i + 1); }
                    return Err(e);
                },
            }
        }
        i = i + 1;
    }
    assert(cs.subrange(0, i as int) == cs);
    if complete.len() == 0 {
        Ok(None)
    } else {
        Ok(Some(complete))
    }
}

/// The completions for the ids declared in the object definitions of a document whose
/// syntax tree is `input`, or why they cannot be read.
pub fn try_getcoplete(input: &SyntaxNode, source: &str) -> (r: Result<Option<Vec<CompletionItem>>, MalformedTree>)
    ensures
        match r {
            Ok(o) => declared_ids(lines_of(source@), input.children@) matches Some(s) && opt_items(o)
                == nonempty(s),
            Err(_) => declared_ids(lines_of(source@), input.children@) is None,
        },
{
    let lines = split_lines(source);
    getsubcoplete(&lines, input)
}

/// The completions for the ids declared in the object definitions of a document whose
/// syntax tree is `input` (see [`declared_ids`]), `None` when there is none.
pub fn getcoplete(input: &SyntaxNode, source: &str) -> (r: Option<Vec<CompletionItem>>)
    requires
        declared_ids(lines_of(source@), input.children@) is Some,
    ensures
        opt_items(r) == nonempty(declared_ids(lines_of(source@), input.children@).unwrap()),
        r matches Some(v) ==> v.len() > 0,
{
    match try_getcoplete(input, source) {
        Ok(o) => o,
        Err(_) => None,
    }
}


/// The completion proposed for a declared function: its name followed by `()`.
pub open spec fn function_item(name: Seq<char>) -> CompletionSpec {
    CompletionSpec {
        label: name + "()"@,
        kind: CompletionItemKind::Function,
        detail: "defined function"@,
    }
}

/// Where a scan of the bindings of an object stands: whether a binding `id` with the
/// searched value was met, whether an `id` with another value ended the scan, and the
/// completions collected so far.
pub struct IdScan {
    pub found: bool,
    pub stopped: bool,
    pub items: Seq<CompletionSpec>,
}

/// One step of the scan: a binding named `id` sets `found` when its value is the
/// searched text and ends the scan when it is not; any other binding adds its name; a
/// function declaration adds its name when `with_functions` holds.
pub open spec fn id_step(
    lines: Seq<Seq<u8>>,
    st: IdScan,
    c: SyntaxNode,
    tosearch: Seq<char>,
    with_functions: bool,
) -> Option<IdScan> {
    if c.kind@ == "ui_binding"@ {
        match field_child(c, "name"@) {
            None => None,
            Some(t) => match span_text(lines, t) {
                None => None,
                Some(ident) => if ident == "id"@ {
                    match field_child(c, "value"@) {
                        None => None,
                        Some(v) => match span_text(lines, v) {
                            None => None,
                            Some(name) => if name == tosearch {
                                Some(IdScan { found: true, ..st })
                            } else {
                                Some(IdScan { stopped: true, ..st })
                            },
                        },
                    }
                } else {
                    Some(IdScan { items: st.items.push(variable_item(ident)), ..st })
                },
            },
        }
    } else if with_functions && c.kind@ == "function_declaration"@ {
        match field_child(c, "name"@) {
            None => None,
            Some(t) => match span_text(lines, t) {
                None => None,
                Some(ident) => Some(IdScan { items: st.items.push(function_item(ident)), ..st }),
            },
        }
    } else {
        Some(st)
    }
}

/// The scan of the nodes `cs`, from the first, up to the end or to the step that ends it.
pub open spec fn id_scan(
    lines: Seq<Seq<u8>>,
    cs: Seq<SyntaxNode>,
    tosearch: Seq<char>,
    with_functions: bool,
) -> Option<IdScan>
    decreases cs.len(),
{
    if cs.len() == 0 {
        Some(IdScan { found: false, stopped: false, items: Seq::empty() })
    } else {
        match id_scan(lines, cs.drop_last(), tosearch, with_functions) {
            None => None,
            Some(st) => if st.stopped {
                Some(st)
            } else {
                id_step(lines, st, cs.last(), tosearch, with_functions)
            },
        }
    }
}

/// The search for the object definition whose `id` is `tosearch`, from `n` down: the
/// completions of the first such object met (depth first, in source order), `Some(None)`
/// when there is none, `None` when the tree is malformed on the way.
pub open spec fn id_search(
    lines: Seq<Seq<u8>>,
    n: SyntaxNode,
    tosearch: Seq<char>,
    with_functions: bool,
) -> Option<Option<Seq<CompletionSpec>>>
    decreases n,
{
    if n.kind@ != "ui_object_definition"@ {
        Some(None)
    } else {
        match field_index(n, "initializer"@) {
            None => None,
            Some(k) => {
                proof { lemma_field_index_bounds(n, "initializer"@); }
                let init = n.children@[k];
                match id_scan(lines, init.children@, tosearch, with_functions) {
                    None => None,
                    Some(st) => if st.found {
                        Some(Some(st.items))
                    } else if init.kind@ == "ERROR"@ {
                        Some(None)
                    } else {
                        id_search_children(lines, init.children@, tosearch, with_functions)
                    },
                }
            },
        }
    }
}

/// The search among the nodes `cs` that have children, in order, up to the first hit.
pub open spec fn id_search_children(
    lines: Seq<Seq<u8>>,
    cs: Seq<SyntaxNode>,
    tosearch: Seq<char>,
    with_functions: bool,
) -> Option<Option<Seq<CompletionSpec>>>
    decreases cs,
{
    if cs.len() == 0 {
        Some(None)
    } else {
        match id_search_children(lines, cs.subrange(0, cs.len() - 1), tosearch, with_functions) {
            None => None,
            Some(Some(found)) => Some(Some(found)),
            Some(None) => {
                let c = cs[cs.len() - 1];
                if c.children.len() != 0 {
                    id_search(lines, c, tosearch, with_functions)
                } else {
                    Some(None)
                }
            },
        }
    }
}

proof fn lemma_id_scan_prefix(
    lines: Seq<Seq<u8>>,
    cs: Seq<SyntaxNode>,
    k: int,
    tosearch: Seq<char>,
    wf: bool,
)
    requires
        0 <= k <= cs.len(),
        id_scan(lines, cs.take(k), tosearch, wf) matches Some(st) ==> st.stopped,
    ensures
        id_scan(lines, cs, tosearch, wf) == id_scan(lines, cs.take(k), tosearch, wf),
    decreases cs.len(),
{
    if k < cs.len() {
        assert(cs.drop_last().take(k) == cs.take(k));
        lemma_id_scan_prefix(lines, cs.drop_last(), k, tosearch, wf);
    } else {
        assert(cs.take(k) == cs);
    }
}

proof fn lemma_id_search_children_prefix(
    lines: Seq<Seq<u8>>,
    cs: Seq<SyntaxNode>,
    k: int,
    tosearch: Seq<char>,
    wf: bool,
)
    requires
        0 <= k <= cs.len(),
        id_search_children(lines, cs.subrange(0, k), tosearch, wf) != Some(
            None::<Seq<CompletionSpec>>,
        ),
    ensures
        id_search_children(lines, cs, tosearch, wf) == id_search_children(
            lines,
            cs.subrange(0, k),
            tosearch,
            wf,
        ),
    decreases cs.len(),
{
    if k < cs.len() {
        assert(cs.subrange(0, cs.len() - 1).subrange(0, k) == cs.subrange(0, k));
        lemma_id_search_children_prefix(lines, cs.subrange(0, cs.len() - 1), k, tosearch, wf);
    } else {
        assert(cs.subrange(0, k) == cs);
    }
}

fn function_completion(name: &str) -> (r: CompletionItem)
    ensures
        r@ == function_item(name@),
{
    CompletionItem {
        label: concat_str(name, "()"),
        kind: CompletionItemKind::Function,
        detail: "defined function".to_owned(),
    }
}

/// The search of [`id_search`], done.
pub(crate) fn id_sub_complete(
    lines: &Vec<Vec<u8>>,
    input: &SyntaxNode,
    tosearch: &str,
    with_functions: bool,
) -> (r: Result<Option<Vec<CompletionItem>>, MalformedTree>)
    ensures
        match r {
            Ok(o) => id_search(rows(lines@), *input, tosearch@, with_functions) == Some(opt_items(o)),
            Err(_) => id_search(rows(lines@), *input, tosearch@, with_functions) is None,
        },
    decreases input,
{
    let ghost ls = rows(lines@);
    if !kind_is(input, "ui_object_definition") {
        return Ok(None);
    }
    let child = match child_by_field(input, "initializer") {
        Some(c) => c,
        None => return Err(MalformedTree),
    };
    proof { lemma_field_index_bounds(*input, "initializer"@); }
    let ghost cs = child.children@;
    let mut complete: Vec<CompletionItem> = Vec::new();
    let mut finded = false;
    let mut malformed = false;
    let mut stopped = false;
    let mut i: usize = 0;
    assert(cs.take(0) == Seq::<SyntaxNode>::empty());
    assert(items_view(complete@) == Seq::<CompletionSpec>::empty());
    assert(cs.take(cs.len() as int) == cs);
    while i < child.children.len()
        invariant_except_break
            !malformed && !stopped,
            id_scan(ls, cs.take(i as int), tosearch@, with_functions) == Some(
                IdScan { found: finded, stopped: false, items: items_view(complete@) },
            ),
        invariant
            cs == child.children@,
            ls == rows(lines@),
            i <= cs.len(),
            cs.take(cs.len() as int) == cs,
        ensures
            malformed ==> id_scan(ls, cs, tosearch@, with_functions) is None,
            !malformed ==> id_scan(ls, cs, tosearch@, with_functions) == Some(
                IdScan { found: finded, stopped, items: items_view(complete@) },
            ),
        decreases cs.len() - i,
    {
        let neochild = &child.children[i];
        assert(cs.take(i + 1).drop_last() == cs.take(i as int));
        assert(cs.take(i + 1).last() == *neochild);
        let mut label: Option<CompletionItem> = None;
        if kind_is(neochild, "ui_binding") {
            match child_by_field(neochild, "name") {
                None => { malformed = true; },
                Some(temp) => match node_text(lines, temp) {
                    None => { malformed = true; },
                    Some(identerfy) => {
                        if text_is(identerfy.as_str(), "id") {
                            match child_by_field(neochild, "value") {
                                None => { malformed = true; },
                                Some(value) => match node_text(lines, value) {
                                    None => { malformed = true; },
                                    Some(name) => {
                                        if text_is(name.as_str(), tosearch) {
                                            finded = true;
                                        } else {
                                            stopped = true;
                                        }
                                    },
                                },
                            }
                        } else {
                            label = Some(variable_completion(identerfy));
                        }
                    },
                },
            }
        } else if with_functions && kind_is(neochild, "function_declaration") {
            match child_by_field(neochild, "name") {
                None => { malformed = true; },
                Some(temp) => match node_text(lines, temp) {
                    None => { malformed = true; },
                    Some(identerfy) => {
                        label = Some(function_completion(identerfy.as_str()));
                    },
                },
            }
        }
        if malformed || stopped {
            proof { lemma_id_scan_prefix(ls, cs, i + 1, tosearch@, with_functions); }
            break;
        }
        match label {
            Some(item) => {
                proof { lemma_items_view_push(complete@, item); }
                complete.push(item);
            },
            None => {},
        }
        i = i + 1;
    }
    if malformed {
        return Err(MalformedTree);
    }
    if finded {
        return Ok(Some(complete));
    }
    if kind_is(child, "ERROR") {
        return Ok(None);
    }
    let mut j: usize = 0;
    assert(id_search(ls, *input, tosearch@, with_functions) == id_search_children(ls, cs, tosearch@, with_functions));
    assert(cs.subrange(0, 0) == Seq::<SyntaxNode>::empty());
    while j < child.children.len()
        invariant
            id_search(ls, *input, tosearch@, with_functions) == id_search_children(ls, cs, tosearch@, with_functions),
            cs == child.children@,
            ls == rows(lines@),
            j <= cs.len(),
            field_index(*input, "initializer"@) matches Some(k) && 0 <= k < input.children@.len()
                && input.children@[k] == *child,
            id_search_children(ls, cs.subrange(0, j as int), tosearch@, with_functions) == Some(
                None::<Seq<CompletionSpec>>,
            ),
        decreases cs.len() - j,
    {
        let achild = &child.children[j];
        assert(cs.subrange(0, j + 1).subrange(0, j as int) == cs.subrange(0, j as int));
        assert(cs.subrange(0, j + 1)[j as int] == *achild);
        if achild.children.len() != 0 {
            proof {
                let k = field_index(*input, "initializer"@).unwrap();
                assert(decreases_to!(*input => input.children));
                assert(decreases_to!(input.children => input.children@));
                assert(decreases_to!(input.children@ => input.children@[k]));
                assert(decreases_to!(input.children@[k] => child.children));
                assert(decreases_to!(child.children => child.children@));
                assert(decreases_to!(child.children@ => child.children@[j as int]));
            }
            match id_sub_complete(lines, achild, tosearch, with_functions) {
                Err(e) => {
                    proof { lemma_id_search_children_prefix(ls, cs, j + 1, tosearch@, with_functions); }
                    return Err(e);
                },
                Ok(Some(found)) => {
                    proof { lemma_id_search_children_prefix(ls, cs, j + 1, tosearch@, with_functions); }
                    return Ok(Some(found));
                },
                Ok(None) => {},
            }
        }
        j = j + 1;
    }
    assert(cs.subrange(0, j as int) == cs);
    Ok(None)
}

/// Whether the node `b` is a binding `id: t`.
pub open spec fn binds_id(lines: Seq<Seq<u8>>, b: SyntaxNode, t: Seq<char>) -> bool {
    &&& b.kind@ == "ui_binding"@
    &&& field_child(b, "name"@) matches Some(nm) && span_text(lines, nm) == Some("id"@)
    &&& field_child(b, "value"@) matches Some(v) && span_text(lines, v) == Some(t)
}

/// Whether `obj` is an object definition whose initializer holds a binding `id: t`.
pub open spec fn declares_id(lines: Seq<Seq<u8>>, obj: SyntaxNode, t: Seq<char>) -> bool {
    &&& obj.kind@ == "ui_object_definition"@
    &&& field_child(obj, "initializer"@) matches Some(init) && exists|j: int|
        0 <= j < init.children@.len() && #[trigger] binds_id(lines, init.children@[j], t)
}

proof fn scan_found_witness(lines: Seq<Seq<u8>>, cs: Seq<SyntaxNode>, t: Seq<char>, wf: bool) -> (j: int)
    requires
        id_scan(lines, cs, t, wf) matches Some(st) && st.found,
    ensures
        0 <= j < cs.len() && binds_id(lines, cs[j], t),
    decreases cs.len(),
{
    let prev = id_scan(lines, cs.drop_last(), t, wf);
    if prev matches Some(p) && p.found {
        let j = scan_found_witness(lines, cs.drop_last(), t, wf);
        assert(cs.drop_last()[j] == cs[j]);
        j
    } else {
        cs.len() - 1
    }
}

proof fn search_witness(lines: Seq<Seq<u8>>, n: SyntaxNode, t: Seq<char>, wf: bool) -> (path: Seq<int>)
    requires
        id_search(lines, n, t, wf) matches Some(Some(_)),
    ensures
        node_at(n, path) matches Some(obj) && declares_id(lines, obj, t),
    decreases n, 1nat,
{
    lemma_field_index_bounds(n, "initializer"@);
    let k = field_index(n, "initializer"@).unwrap();
    let init = n.children@[k];
    let st = id_scan(lines, init.children@, t, wf).unwrap();
    if st.found {
        let j = scan_found_witness(lines, init.children@, t, wf);
        assert(binds_id(lines, init.children@[j], t));
        Seq::empty()
    } else {
        let (j, p) = search_children_witness(lines, init.children@, t, wf);
        lemma_node_at_child(init, j, p);
        lemma_node_at_child(n, k, seq![j] + p);
        seq![k] + (seq![j] + p)
    }
}

proof fn search_children_witness(lines: Seq<Seq<u8>>, cs: Seq<SyntaxNode>, t: Seq<char>, wf: bool) -> (r: (int, Seq<int>))
    requires
        id_search_children(lines, cs, t, wf) matches Some(Some(_)),
    ensures
        0 <= r.0 < cs.len(),
        node_at(cs[r.0], r.1) matches Some(obj) && declares_id(lines, obj, t),
    decreases cs, 0nat,
{
    let prefix = cs.subrange(0, cs.len() - 1);
    if id_search_children(lines, prefix, t, wf) matches Some(Some(_)) {
        let (j, p) = search_children_witness(lines, prefix, t, wf);
        assert(prefix[j] == cs[j]);
        (j, p)
    } else {
        let p = search_witness(lines, cs[cs.len() - 1], t, wf);
        (cs.len() - 1, p)
    }
}

/// When the search for the object whose `id` is `t` answers, the object it answers for
/// is in the tree: an object definition with a binding `id: t`.
pub proof fn id_answer_comes_from_declaring_object(lines: Seq<Seq<u8>>, n: SyntaxNode, t: Seq<char>, wf: bool)
    requires
        id_search(lines, n, t, wf) matches Some(Some(_)),
    ensures
        exists|path: Seq<int>| #[trigger] node_at(n, path) matches Some(obj) && declares_id(lines, obj, t),
{
    let path = search_witness(lines, n, t, wf);
    assert(node_at(n, path) matches Some(obj) && declares_id(lines, obj, t));
}

/// The search of [`id_search`] from the `root` child of a program node; `Some(None)`
/// when there is no such child.
pub open spec fn id_complete(
    lines: Seq<Seq<u8>>,
    input: SyntaxNode,
    tosearch: Seq<char>,
    with_functions: bool,
) -> Option<Option<Seq<CompletionSpec>>> {
    match field_child(input, "root"@) {
        Some(c) => id_search(lines, c, tosearch, with_functions),
        None => Some(None),
    }
}

/// The search of [`id_complete`], done.
pub(crate) fn id_complete_in(
    lines: &Vec<Vec<u8>>,
    input: &SyntaxNode,
    tosearch: &str,
    with_functions: bool,
) -> (r: Result<Option<Vec<CompletionItem>>, MalformedTree>)
    ensures
        match r {
            Ok(o) => id_complete(rows(lines@), *input, tosearch@, with_functions) == Some(opt_items(o)),
            Err(_) => id_complete(rows(lines@), *input, tosearch@, with_functions) is None,
        },
{
    match child_by_field(input, "root") {
        Some(child) => id_sub_complete(lines, child, tosearch, with_functions),
        None => Ok(None),
    }
}

/// The completions inside the object whose `id` is `tosearch`, searched from the `root`
/// of a program node (see [`id_complete`]), or why the search cannot be made.
pub fn try_get_id_complete(input: &SyntaxNode, source: &str, tosearch: &str) -> (r: Result<Option<Vec<CompletionItem>>, MalformedTree>)
    ensures
        match r {
            Ok(o) => id_complete(lines_of(source@), *input, tosearch@, false) == Some(opt_items(o)),
            Err(_) => id_complete(lines_of(source@), *input, tosearch@, false) is None,
        },
{
    let lines = split_lines(source);
    id_complete_in(&lines, input, tosearch, false)
}

/// The completions inside the object whose `id` is `tosearch`: the names of the other
/// bindings of its initializer, up to a binding `id` with another value.
pub fn get_id_complete(input: &SyntaxNode, source: &str, tosearch: &str) -> (r: Option<Vec<CompletionItem>>)
    requires
        id_complete(lines_of(source@), *input, tosearch@, false) is Some,
    ensures
        opt_items(r) == id_complete(lines_of(source@), *input, tosearch@, false).unwrap(),
{
    match try_get_id_complete(input, source, tosearch) {
        Ok(o) => o,
        Err(_) => None,
    }
}

/// The completions inside the object whose `id` is `tosearch`, searched from `input`
/// down (see [`id_search`]), or why the search cannot be made.
pub fn try_get_id_sub_complete(input: &SyntaxNode, source: &str, tosearch: &str) -> (r: Result<Option<Vec<CompletionItem>>, MalformedTree>)
    ensures
        match r {
            Ok(o) => id_search(lines_of(source@), *input, tosearch@, false) == Some(opt_items(o)),
            Err(_) => id_search(lines_of(source@), *input, tosearch@, false) is None,
        },
{
    let lines = split_lines(source);
    id_sub_complete(&lines, input, tosearch, false)
}

/// The completions inside the object whose `id` is `tosearch`, searched from `input`
/// down (see [`id_search`]).
pub fn get_id_sub_complete(input: &SyntaxNode, source: &str, tosearch: &str) -> (r: Option<Vec<CompletionItem>>)
    requires
        id_search(lines_of(source@), *input, tosearch@, false) is Some,
    ensures
        opt_items(r) == id_search(lines_of(source@), *input, tosearch@, false).unwrap(),
{
    match try_get_id_sub_complete(input, source, tosearch) {
        Ok(o) => o,
        Err(_) => None,
    }
}

proof fn lemma_contains_concat<A>(a: Seq<A>, b: Seq<A>, x: A)
    ensures
        a.contains(x) ==> (a + b).contains(x),
        b.contains(x) ==> (a + b).contains(x),
{
    if a.contains(x) {
        let k = choose|k: int| 0 <= k < a.len() && a[k] == x;
        assert((a + b)[k] == x);
    }
    if b.contains(x) {
        let k = choose|k: int| 0 <= k < b.len() && b[k] == x;
        assert((a + b)[a.len() + k] == x);
    }
}

proof fn lemma_binding_ids_hold(lines: Seq<Seq<u8>>, cs: Seq<SyntaxNode>, j: int, v: Seq<char>)
    requires
        binding_ids(lines, cs) is Some,
        0 <= j < cs.len(),
        binds_id(lines, cs[j], v),
    ensures
        binding_ids(lines, cs).unwrap().contains(variable_item(v)),
    decreases cs.len(),
{
    let prev = binding_ids(lines, cs.drop_last()).unwrap();
    if j < cs.len() - 1 {
        assert(cs.drop_last()[j] == cs[j]);
        lemma_binding_ids_hold(lines, cs.drop_last(), j, v);
        let k = choose|k: int| 0 <= k < prev.len() && prev[k] == variable_item(v);
        assert(binding_ids(lines, cs).unwrap()[k] == variable_item(v));
    } else {
        assert(binding_ids(lines, cs).unwrap() == prev.push(variable_item(v)));
        assert(prev.push(variable_item(v))[prev.len() as int] == variable_item(v));
    }
}

proof fn lemma_declared_ids_include(lines: Seq<Seq<u8>>, cs: Seq<SyntaxNode>, i: int, x: CompletionSpec)
    requires
        declared_ids(lines, cs) is Some,
        0 <= i < cs.len(),
        cs[i].kind@ == "ui_object_definition"@,
        field_child(cs[i], "initializer"@) is Some,
    ensures
        ({
            let init = field_child(cs[i], "initializer"@).unwrap();
            &&& declared_ids(lines, init.children@) is Some
            &&& binding_ids(lines, init.children@) is Some
            &&& declared_ids(lines, init.children@).unwrap().contains(x) ==> declared_ids(lines, cs).unwrap().contains(x)
            &&& binding_ids(lines, init.children@).unwrap().contains(x) ==> declared_ids(lines, cs).unwrap().contains(x)
        }),
    decreases cs.len(),
{
    let prefix = cs.subrange(0, cs.len() - 1);
    let prev = declared_ids(lines, prefix).unwrap();
    let items = declared_ids(lines, cs).unwrap();
    let c = cs[cs.len() - 1];
    let rest = items.subrange(prev.len() as int, items.len() as int);
    if c.kind@ == "ui_object_definition"@ {
        let init = field_child(c, "initializer"@).unwrap();
        assert(items == prev + declared_ids(lines, init.children@).unwrap() + binding_ids(lines, init.children@).unwrap());
        assert(items == prev + (declared_ids(lines, init.children@).unwrap() + binding_ids(lines, init.children@).unwrap()));
        assert(rest == declared_ids(lines, init.children@).unwrap() + binding_ids(lines, init.children@).unwrap());
    } else {
        assert(items == prev);
    }
    assert(items == prev + rest);
    if i < cs.len() - 1 {
        assert(prefix[i] == cs[i]);
        lemma_declared_ids_include(lines, prefix, i, x);
        lemma_contains_concat(prev, rest, x);
    } else {
        let init = field_child(c, "initializer"@).unwrap();
        let inner = declared_ids(lines, init.children@).unwrap();
        let own = binding_ids(lines, init.children@).unwrap();
        lemma_contains_concat(inner, own, x);
        lemma_contains_concat(prev, rest, x);
    }
}

/// The object definition that `path` leads to among `cs`: the first step picks one of
/// `cs`, each further step one of the nodes of the previous object's initializer.
pub open spec fn object_at(cs: Seq<SyntaxNode>, path: Seq<int>) -> Option<SyntaxNode>
    decreases path.len(),
{
    if path.len() == 0 || !(0 <= path[0] < cs.len()) || cs[path[0]].kind@ != "ui_object_definition"@ {
        None
    } else if path.len() == 1 {
        Some(cs[path[0]])
    } else {
        match field_child(cs[path[0]], "initializer"@) {
            None => None,
            Some(init) => object_at(init.children@, path.skip(1)),
        }
    }
}

/// The declared ids of a document propose every id: for each object definition reached
/// from the top through object initializers, at any depth, each of its `id: v` bindings
/// gives a proposal labelled `v`.
pub proof fn declared_ids_hold_every_id(lines: Seq<Seq<u8>>, cs: Seq<SyntaxNode>, path: Seq<int>, j: int, v: Seq<char>)
    requires
        declared_ids(lines, cs) is Some,
        object_at(cs, path) matches Some(obj) && field_child(obj, "initializer"@) matches Some(init)
            && 0 <= j < init.children@.len() && binds_id(lines, init.children@[j], v),
    ensures
        declared_ids(lines, cs).unwrap().contains(variable_item(v)),
    decreases path.len(),
{
    let x = variable_item(v);
    let c = cs[path[0]];
    let init = field_child(c, "initializer"@).unwrap();
    lemma_declared_ids_include(lines, cs, path[0], x);
    if path.len() == 1 {
        lemma_binding_ids_hold(lines, init.children@, j, v);
    } else {
        declared_ids_hold_every_id(lines, init.children@, path.skip(1), j, v);
    }
}

proof fn binding_id_witness(lines: Seq<Seq<u8>>, cs: Seq<SyntaxNode>, k: int) -> (j: int)
    requires
        binding_ids(lines, cs) is Some,
        0 <= k < binding_ids(lines, cs).unwrap().len(),
    ensures
        0 <= j < cs.len(),
        binds_id(lines, cs[j], binding_ids(lines, cs).unwrap()[k].label),
        binding_ids(lines, cs).unwrap()[k] == variable_item(binding_ids(lines, cs).unwrap()[k].label),
    decreases cs.len(),
{
    let prev = binding_ids(lines, cs.drop_last()).unwrap();
    if k < prev.len() {
        let j = binding_id_witness(lines, cs.drop_last(), k);
        assert(cs.drop_last()[j] == cs[j]);
        j
    } else {
        cs.len() - 1
    }
}

proof fn declared_id_witness(lines: Seq<Seq<u8>>, cs: Seq<SyntaxNode>, k: int) -> (r: (Seq<int>, int))
    requires
        declared_ids(lines, cs) is Some,
        0 <= k < declared_ids(lines, cs).unwrap().len(),
    ensures
        ({
            let x = declared_ids(lines, cs).unwrap()[k];
            &&& object_at(cs, r.0) matches Some(obj)
            &&& field_child(obj, "initializer"@) matches Some(init)
            &&& 0 <= r.1 < init.children@.len()
            &&& binds_id(lines, init.children@[r.1], x.label)
            &&& x == variable_item(x.label)
        }),
    decreases cs,
{
    let prefix = cs.subrange(0, cs.len() - 1);
    let prev = declared_ids(lines, prefix).unwrap();
    let items = declared_ids(lines, cs).unwrap();
    let c = cs[cs.len() - 1];
    let l = cs.len() - 1;
    if k < prev.len() {
        if c.kind@ == "ui_object_definition"@ {
            let init = field_child(c, "initializer"@).unwrap();
            assert(items == prev + declared_ids(lines, init.children@).unwrap() + binding_ids(lines, init.children@).unwrap());
        }
        assert(items[k] == prev[k]);
        let (path, j) = declared_id_witness(lines, prefix, k);
        assert(prefix[path[0]] == cs[path[0]]);
        (path, j)
    } else {
        let init = field_child(c, "initializer"@).unwrap();
        let inner = declared_ids(lines, init.children@).unwrap();
        let own = binding_ids(lines, init.children@).unwrap();
        assert(items == prev + inner + own);
        if k < prev.len() + inner.len() {
            assert(items[k] == inner[k - prev.len()]);
            lemma_field_index_bounds(c, "initializer"@);
            let fi = field_index(c, "initializer"@).unwrap();
            assert(init == c.children@[fi]);
            assert(decreases_to!(cs => c));
            assert(decreases_to!(c => c.children));
            assert(decreases_to!(c.children => c.children@));
            assert(decreases_to!(c.children@ => c.children@[fi]));
            assert(decreases_to!(init => init.children));
            assert(decreases_to!(init.children => init.children@));
            let (p, j) = declared_id_witness(lines, init.children@, k - prev.len());
            let path = seq![l] + p;
            assert(path.skip(1) == p);
            (path, j)
        } else {
            assert(items[k] == own[k - prev.len() - inner.len()]);
            let j = binding_id_witness(lines, init.children@, k - prev.len() - inner.len());
            (seq![l], j)
        }
    }
}

/// Every declared id that completion proposes comes from the tree: it is labelled with
/// the value of an `id` binding of an object definition reached from the top through
/// object initializers.
pub proof fn declared_ids_come_from_id_bindings(lines: Seq<Seq<u8>>, cs: Seq<SyntaxNode>, k: int)
    requires
        declared_ids(lines, cs) is Some,
        0 <= k < declared_ids(lines, cs).unwrap().len(),
    ensures
        exists|path: Seq<int>, j: int|
            #[trigger] declares_at(lines, cs, path, j, declared_ids(lines, cs).unwrap()[k].label),
        declared_ids(lines, cs).unwrap()[k] == variable_item(declared_ids(lines, cs).unwrap()[k].label),
{
    let (path, j) = declared_id_witness(lines, cs, k);
    assert(declares_at(lines, cs, path, j, declared_ids(lines, cs).unwrap()[k].label));
}

/// Whether the object definition that `path` leads to among `cs` (see [`object_at`]) has
/// a binding `id: v` at index `j` of its initializer.
pub open spec fn declares_at(lines: Seq<Seq<u8>>, cs: Seq<SyntaxNode>, path: Seq<int>, j: int, v: Seq<char>) -> bool {
    &&& object_at(cs, path) matches Some(obj)
    &&& field_child(obj, "initializer"@) matches Some(init)
    &&& 0 <= j < init.children@.len()
    &&& binds_id(lines, init.children@[j], v)
}

/// The proposal that a node of an object's initializer makes as a member of that object:
/// a binding other than `id` its name, a function declaration its name and `()` where
/// functions are proposed, anything else none.
pub open spec fn member_item(lines: Seq<Seq<u8>>, c: SyntaxNode, with_functions: bool) -> Option<CompletionSpec> {
    if c.kind@ == "ui_binding"@ {
        match field_child(c, "name"@) {
            None => None,
            Some(t) => match span_text(lines, t) {
                Some(ident) => if ident != "id"@ {
                    Some(variable_item(ident))
                } else {
                    None
                },
                None => None,
            },
        }
    } else if with_functions && c.kind@ == "function_declaration"@ {
        match field_child(c, "name"@) {
            None => None,
            Some(t) => match span_text(lines, t) {
                Some(ident) => Some(function_item(ident)),
                None => None,
            },
        }
    } else {
        None
    }
}

/// The member proposals of the nodes `cs`, in order.
pub open spec fn member_items(lines: Seq<Seq<u8>>, cs: Seq<SyntaxNode>, with_functions: bool) -> Seq<CompletionSpec>
    decreases cs.len(),
{
    if cs.len() == 0 {
        Seq::empty()
    } else {
        match member_item(lines, cs.last(), with_functions) {
            Some(i) => member_items(lines, cs.drop_last(), with_functions).push(i),
            None => member_items(lines, cs.drop_last(), with_functions),
        }
    }
}

/// Whether `b` is a binding `id` whose value is not `t`.
pub open spec fn binds_other_id(lines: Seq<Seq<u8>>, b: SyntaxNode, t: Seq<char>) -> bool {
    &&& b.kind@ == "ui_binding"@
    &&& field_child(b, "name"@) matches Some(nm) && span_text(lines, nm) == Some("id"@)
    &&& field_child(b, "value"@) matches Some(v) && span_text(lines, v) matches Some(x) && x != t
}

/// Whether `items` are what the nodes `cs` of an object's initializer propose as members
/// when the object searched for has id `t`: the member proposals of the nodes before the
/// first binding of another id, or of all of them when there is none.
pub open spec fn proposes_members(
    lines: Seq<Seq<u8>>,
    cs: Seq<SyntaxNode>,
    t: Seq<char>,
    with_functions: bool,
    items: Seq<CompletionSpec>,
) -> bool {
    exists|j: int|
        0 <= j <= cs.len() && items == #[trigger] member_items(lines, cs.take(j), with_functions)
            && (j < cs.len() ==> binds_other_id(lines, cs[j], t))
            && (forall|i: int| 0 <= i < j ==> !binds_other_id(lines, #[trigger] cs[i], t))
}

/// Whether `obj` declares the id `t` and `items` are what its initializer proposes as
/// members (see [`proposes_members`]).
pub open spec fn object_proposes(
    lines: Seq<Seq<u8>>,
    obj: SyntaxNode,
    t: Seq<char>,
    with_functions: bool,
    items: Seq<CompletionSpec>,
) -> bool {
    &&& declares_id(lines, obj, t)
    &&& match field_child(obj, "initializer"@) {
        Some(init) => proposes_members(lines, init.children@, t, with_functions, items),
        None => false,
    }
}

proof fn lemma_scan_members(lines: Seq<Seq<u8>>, cs: Seq<SyntaxNode>, t: Seq<char>, wf: bool)
    requires
        id_scan(lines, cs, t, wf) is Some,
    ensures
        ({
            let st = id_scan(lines, cs, t, wf).unwrap();
            &&& !st.stopped ==> st.items == member_items(lines, cs, wf)
                && forall|i: int| 0 <= i < cs.len() ==> !binds_other_id(lines, #[trigger] cs[i], t)
            &&& st.stopped ==> exists|j: int|
                0 <= j < cs.len() && st.items == #[trigger] member_items(lines, cs.take(j), wf)
                    && binds_other_id(lines, cs[j], t)
                    && (forall|i: int| 0 <= i < j ==> !binds_other_id(lines, #[trigger] cs[i], t))
        }),
    decreases cs.len(),
{
    if cs.len() > 0 {
        let prefix = cs.drop_last();
        lemma_scan_members(lines, prefix, t, wf);
        let p = id_scan(lines, prefix, t, wf).unwrap();
        let c = cs.last();
        let st = id_scan(lines, cs, t, wf).unwrap();
        reveal_strlit("ui_binding");
        reveal_strlit("function_declaration");
        assert("ui_binding"@.len() != "function_declaration"@.len());
        if p.stopped {
            let j = choose|j: int|
                0 <= j < prefix.len() && p.items == #[trigger] member_items(lines, prefix.take(j), wf)
                    && binds_other_id(lines, prefix[j], t)
                    && (forall|i: int| 0 <= i < j ==> !binds_other_id(lines, #[trigger] prefix[i], t));
            assert(prefix.take(j) == cs.take(j));
            assert(prefix[j] == cs[j]);
            assert forall|i: int| 0 <= i < j implies !binds_other_id(lines, #[trigger] cs[i], t) by {
                assert(prefix[i] == cs[i]);
            }
        } else {
            assert forall|i: int| 0 <= i < prefix.len() implies !binds_other_id(lines, #[trigger] cs[i], t) by {
                assert(prefix[i] == cs[i]);
                assert(!binds_other_id(lines, prefix[i], t));
            }
            assert(member_items(lines, cs, wf) == match member_item(lines, c, wf) {
                Some(i) => member_items(lines, prefix, wf).push(i),
                None => member_items(lines, prefix, wf),
            });
            if st.stopped {
                let j = prefix.len() as int;
                assert(cs.take(j) == prefix);
                assert(binds_other_id(lines, cs[j], t));
                assert(p.items == member_items(lines, cs.take(j), wf));
            } else {
                assert(!binds_other_id(lines, c, t));
            }
        }
    }
}

/// When the search for the object whose id is `t` answers, the answer is what a
/// declaring object proposes as members: every binding other than `id` and, where
/// functions count, every function declaration of its initializer, in source order,
/// up to the first binding of another id, wherever the binding `id: t` stands among them.
pub proof fn id_answer_proposes_members(lines: Seq<Seq<u8>>, n: SyntaxNode, t: Seq<char>, wf: bool)
    requires
        id_search(lines, n, t, wf) matches Some(Some(_)),
    ensures
        exists|path: Seq<int>|
            #[trigger] node_at(n, path) matches Some(obj) && object_proposes(lines, obj, t, wf, id_search(lines, n, t, wf)->Some_0->Some_0),
{
    let path = members_witness(lines, n, t, wf);
    assert(node_at(n, path) matches Some(obj) && object_proposes(lines, obj, t, wf, id_search(lines, n, t, wf)->Some_0->Some_0));
}

proof fn members_witness(lines: Seq<Seq<u8>>, n: SyntaxNode, t: Seq<char>, wf: bool) -> (path: Seq<int>)
    requires
        id_search(lines, n, t, wf) matches Some(Some(_)),
    ensures
        node_at(n, path) matches Some(obj) && object_proposes(lines, obj, t, wf, id_search(lines, n, t, wf)->Some_0->Some_0),
    decreases n, 1nat,
{
    lemma_field_index_bounds(n, "initializer"@);
    let k = field_index(n, "initializer"@).unwrap();
    let init = n.children@[k];
    let st = id_scan(lines, init.children@, t, wf).unwrap();
    if st.found {
        let j = scan_found_witness(lines, init.children@, t, wf);
        assert(binds_id(lines, init.children@[j], t));
        lemma_scan_members(lines, init.children@, t, wf);
        let cs = init.children@;
        if !st.stopped {
            assert(cs.take(cs.len() as int) == cs);
            assert(st.items == member_items(lines, cs.take(cs.len() as int), wf));
            assert(proposes_members(lines, cs, t, wf, st.items));
        } else {
            let j = choose|j: int|
                0 <= j < cs.len() && st.items == #[trigger] member_items(lines, cs.take(j), wf)
                    && binds_other_id(lines, cs[j], t)
                    && (forall|i: int| 0 <= i < j ==> !binds_other_id(lines, #[trigger] cs[i], t));
            assert(proposes_members(lines, cs, t, wf, st.items));
        }
        Seq::empty()
    } else {
        let (j, p) = members_children_witness(lines, init.children@, t, wf);
        lemma_node_at_child(init, j, p);
        lemma_node_at_child(n, k, seq![j] + p);
        seq![k] + (seq![j] + p)
    }
}

proof fn members_children_witness(lines: Seq<Seq<u8>>, cs: Seq<SyntaxNode>, t: Seq<char>, wf: bool) -> (r: (int, Seq<int>))
    requires
        id_search_children(lines, cs, t, wf) matches Some(Some(_)),
    ensures
        0 <= r.0 < cs.len(),
        node_at(cs[r.0], r.1) matches Some(obj) && object_proposes(lines, obj, t, wf, id_search_children(lines, cs, t, wf)->Some_0->Some_0),
    decreases cs, 0nat,
{
    let prefix = cs.subrange(0, cs.len() - 1);
    if id_search_children(lines, prefix, t, wf) matches Some(Some(_)) {
        let (j, p) = members_children_witness(lines, prefix, t, wf);
        assert(prefix[j] == cs[j]);
        (j, p)
    } else {
        let p = members_witness(lines, cs[cs.len() - 1], t, wf);
        (cs.len() - 1, p)
    }
}

} // verus!
