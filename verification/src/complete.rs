//! Completion at a position of a QML document.
pub mod qmllibs;

use vstd::prelude::*;
use crate::cppregister::CppQml;
use crate::gammer::{
    declared_ids, id_complete, id_search, opt_items, variable_item, variable_completion, getsubcoplete, id_complete_in,
    id_sub_complete, object_proposes, id_answer_proposes_members,
};
use crate::ast::nonempty;
use crate::lsp::{CompletionItem, CompletionItemKind, CompletionSpec, Position, items_view};
use crate::parse::{parse_qml, qml_tree};
use crate::syntax::{SyntaxNode, Point, MalformedTree, field_child, node_at};
use crate::text::{rows, lines_of, split_lines};
use crate::treehelper::{position_text, position_text_in};

verus! {

/// The completions for the registered C++ types: one for each name, in order.
pub open spec fn registered_items(registered: Seq<CppQml>) -> Seq<CompletionSpec> {
    registered.map_values(|c: CppQml| variable_item(c.name@))
}

/// What completion gives on a document whose syntax tree is `root`. Triggered by a
/// character typed at `location`: the text two columns before it names an object id,
/// and the completions inside that object come (see [`id_complete`]); at a column below
/// 2, nothing. Else: the registered types, then every declared id (see [`declared_ids`]).
pub open spec fn completion(
    lines: Seq<Seq<u8>>,
    root: SyntaxNode,
    location: Position,
    triggered: bool,
    registered: Seq<CppQml>,
) -> Option<Option<Seq<CompletionSpec>>> {
    if triggered {
        if location.character > 1 {
            let loc = Point { row: location.line as usize, column: (location.character - 2) as usize };
            match position_text(lines, loc, root.children@) {
                None => None,
                Some(None) => Some(None),
                Some(Some(tomatch)) => id_complete(lines, root, tomatch, true),
            }
        } else {
            Some(None)
        }
    } else {
        match declared_ids(lines, root.children@) {
            None => None,
            Some(ids) => Some(Some(registered_items(registered) + ids)),
        }
    }
}

/// The ids declared in the object definitions among the children of `input`, `None`
/// when there is none.
pub fn getsubbasecomplete(lines: &Vec<Vec<u8>>, input: &SyntaxNode) -> (r: Result<Option<Vec<CompletionItem>>, MalformedTree>)
    ensures
        match r {
            Ok(o) => declared_ids(rows(lines@), input.children@) matches Some(s) && opt_items(o)
                == nonempty(s),
            Err(_) => declared_ids(rows(lines@), input.children@) is None,
        },
{
    getsubcoplete(lines, input)
}

/// Completion on a document whose syntax tree is `tree` (see [`completion`]).
pub fn complete_in_tree(
    tree: &SyntaxNode,
    source: &str,
    location: Position,
    triggered: bool,
    registered: &Vec<CppQml>,
) -> (r: Result<Option<Vec<CompletionItem>>, MalformedTree>)
    ensures
        match r {
            Ok(o) => completion(lines_of(source@), *tree, location, triggered, registered@) == Some(
                opt_items(o),
            ),
            Err(_) => completion(lines_of(source@), *tree, location, triggered, registered@) is None,
        },
{
    let lines = split_lines(source);
    if triggered {
        if location.character > 1 {
            let character = location.character - 2;
            let loc = Point { row: location.line as usize, column: character as usize };
            match position_text_in(&lines, loc, tree)? {
                Some(tomatch) => {
                    return id_complete_in(&lines, tree, tomatch.as_str(), true);
                },
                None => {},
            }
        }
        Ok(None)
    } else {
        let mut completes: Vec<CompletionItem> = Vec::new();
        let mut i: usize = 0;
        while i < registered.len()
            invariant
                i <= registered@.len(),
                items_view(completes@) == registered_items(registered@.take(i as int)),
            decreases registered@.len() - i,
        {
            let item = variable_completion(registered[i].name.clone());
            let ghost prev = completes@;
            completes.push(item);
            assert(registered@.take(i + 1) == registered@.take(i as int).push(registered@[i as int]));
            assert(items_view(completes@) =~= items_view(prev).push(item@));
            assert(registered_items(registered@.take(i + 1)) =~= registered_items(registered@.take(i as int)).push(
                variable_item(registered@[i as int].name@)));
            i = i + 1;
        }
        assert(registered@.take(i as int) == registered@);
        match getsubbasecomplete(&lines, tree)? {
            Some(mut subbasecomplete) => {
                assert(items_view(completes@ + subbasecomplete@) =~= items_view(completes@)
                    + items_view(subbasecomplete@));
                completes.append(&mut subbasecomplete);
            },
            None => {
                assert(items_view(completes@) + Seq::empty() == items_view(completes@));
            },
        }
        Ok(Some(completes))
    }
}

/// Without a trigger and with no registered types, completion proposes the declared ids
/// that [`crate::gammer::getcoplete`] proposes, in the same order.
pub proof fn untriggered_completion_is_declared_ids(lines: Seq<Seq<u8>>, root: SyntaxNode, location: Position)
    ensures
        completion(lines, root, location, false, Seq::empty()) == (match declared_ids(lines, root.children@) {
            None => None,
            Some(ids) => Some(Some(ids)),
        }),
{
    assert(registered_items(Seq::<CppQml>::empty()) == Seq::<CompletionSpec>::empty());
    if let Some(ids) = declared_ids(lines, root.children@) {
        assert(Seq::<CompletionSpec>::empty() + ids == ids);
    }
}

/// Whether `out` is the completion that [`completion`] gives on the tree that the QML
/// parser builds for `source` (see [`qml_tree`]); `None` where that tree is malformed.
pub open spec fn completion_of_text(
    source: Seq<char>,
    location: Position,
    triggered: bool,
    registered: Seq<CppQml>,
    out: Option<Seq<CompletionSpec>>,
) -> bool {
    exists|tree: SyntaxNode|
        tree@ == qml_tree(source) && match #[trigger] completion(lines_of(source), tree, location, triggered, registered) {
            Some(o) => out == o,
            None => out is None,
        }
}

/// Completion at `location` of `source`: triggered by a character when `triggertype`
/// holds one, else the registered types and the declared ids (see [`completion`]).
/// `None` where that completion gives none, or the tree is malformed.
pub fn getcomplete(
    source: &str,
    location: Position,
    triggertype: Option<String>,
    registered: &Vec<CppQml>,
) -> (r: Option<Vec<CompletionItem>>)
    ensures
        triggertype is Some && location.character <= 1 ==> r is None,
        triggertype is None && r is Some ==> ({
            let v = r.unwrap()@;
            &&& registered@.len() <= v.len()
            &&& forall|i: int|
                0 <= i < registered@.len() ==> (#[trigger] v[i])@ == variable_item(registered@[i].name@)
        }),
        completion_of_text(source@, location, triggertype is Some, registered@, opt_items(r)),
{
    let tree = match parse_qml(source) {
        Ok(t) => t,
        Err(_) => return None,
    };
    match complete_in_tree(&tree, source, location, triggertype.is_some(), registered) {
        Ok(o) => {
            proof {
                assert(completion(lines_of(source@), tree, location, triggertype is Some, registered@)
                    == Some(opt_items(o)));
                if triggertype is None && o is Some {
                    let v = o->0@;
                    let ids = declared_ids(lines_of(source@), tree.children@).unwrap();
                    assert(items_view(v) == registered_items(registered@) + ids);
                    assert forall|i: int| 0 <= i < registered@.len() implies (#[trigger] v[i])@
                        == variable_item(registered@[i].name@) by {
                        assert(items_view(v)[i] == v[i]@);
                        assert((registered_items(registered@) + ids)[i] == registered_items(registered@)[i]);
                    }
                }
            }
            o
        },
        Err(_) => {
            proof {
                assert(completion(lines_of(source@), tree, location, triggertype is Some, registered@) is None);
            }
            None
        },
    }
}

/// The completions inside the object whose `id` is `tosearch`, searched from the `root`
/// of a program node; functions declared in that object come too (see [`id_complete`]).
pub fn try_get_id_complete(input: &SyntaxNode, source: &str, tosearch: &str) -> (r: Result<Option<Vec<CompletionItem>>, MalformedTree>)
    ensures
        match r {
            Ok(o) => id_complete(lines_of(source@), *input, tosearch@, true) == Some(opt_items(o)),
            Err(_) => id_complete(lines_of(source@), *input, tosearch@, true) is None,
        },
{
    let lines = split_lines(source);
    id_complete_in(&lines, input, tosearch, true)
}

/// The completions inside the object whose `id` is `tosearch`, searched from the `root`
/// of a program node; functions declared in that object come too.
pub fn get_id_complete(input: &SyntaxNode, source: &str, tosearch: &str) -> (r: Option<Vec<CompletionItem>>)
    requires
        id_complete(lines_of(source@), *input, tosearch@, true) is Some,
    ensures
        opt_items(r) == id_complete(lines_of(source@), *input, tosearch@, true).unwrap(),
{
    match try_get_id_complete(input, source, tosearch) {
        Ok(o) => o,
        Err(_) => None,
    }
}

/// The completions inside the object whose `id` is `tosearch`, searched from `input`
/// down; functions declared in that object come too (see [`id_search`]).
pub fn try_get_id_sub_complete(input: &SyntaxNode, source: &str, tosearch: &str) -> (r: Result<Option<Vec<CompletionItem>>, MalformedTree>)
    ensures
        match r {
            Ok(o) => id_search(lines_of(source@), *input, tosearch@, true) == Some(opt_items(o)),
            Err(_) => id_search(lines_of(source@), *input, tosearch@, true) is None,
        },
{
    let lines = split_lines(source);
    id_sub_complete(&lines, input, tosearch, true)
}

/// The completions inside the object whose `id` is `tosearch`, searched from `input`
/// down; functions declared in that object come too.
pub fn get_id_sub_complete(input: &SyntaxNode, source: &str, tosearch: &str) -> (r: Option<Vec<CompletionItem>>)
    requires
        id_search(lines_of(source@), *input, tosearch@, true) is Some,
    ensures
        opt_items(r) == id_search(lines_of(source@), *input, tosearch@, true).unwrap(),
{
    match try_get_id_sub_complete(input, source, tosearch) {
        Ok(o) => o,
        Err(_) => None,
    }
}

/// Whether the object at `path` under the `root` child of `root` declares the id `t` and
/// `items` are what it proposes as members, functions included.
pub open spec fn proposed_by_object(
    lines: Seq<Seq<u8>>,
    root: SyntaxNode,
    path: Seq<int>,
    t: Seq<char>,
    items: Seq<CompletionSpec>,
) -> bool {
    &&& field_child(root, "root"@) matches Some(top)
    &&& node_at(top, path) matches Some(obj)
    &&& object_proposes(lines, obj, t, true, items)
}

/// Triggered completion whose text two columns before the cursor names the id `t` of an
/// object proposes that object's members: each binding other than `id`, and for each
/// function declaration its name followed by `()` (kind Function, detail "defined
/// function"), in source order, up to the first binding of another id.
pub proof fn triggered_completion_proposes_members(
    lines: Seq<Seq<u8>>,
    root: SyntaxNode,
    location: Position,
    registered: Seq<CppQml>,
)
    requires
        location.character > 1,
        completion(lines, root, location, true, registered) matches Some(Some(_)),
    ensures
        ({
            let loc = Point { row: location.line as usize, column: (location.character - 2) as usize };
            let t = position_text(lines, loc, root.children@)->Some_0->Some_0;
            let items = completion(lines, root, location, true, registered)->Some_0->Some_0;
            exists|path: Seq<int>| #[trigger] proposed_by_object(lines, root, path, t, items)
        }),
{
    let loc = Point { row: location.line as usize, column: (location.character - 2) as usize };
    let t = position_text(lines, loc, root.children@)->Some_0->Some_0;
    let items = completion(lines, root, location, true, registered)->Some_0->Some_0;
    let top = field_child(root, "root"@).unwrap();
    assert(id_search(lines, top, t, true) == Some(Some(items)));
    id_answer_proposes_members(lines, top, t, true);
    let path = choose|path: Seq<int>| #[trigger] node_at(top, path) matches Some(obj) && object_proposes(lines, obj, t, true, items);
    assert(proposed_by_object(lines, root, path, t, items));
}

} // verus!
