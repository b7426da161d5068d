use neoqmllsp::complete::{self, getcomplete};
use neoqmllsp::cppregister::CppQml;
use neoqmllsp::gammer::{get_id_complete, get_id_sub_complete, getcoplete, try_getcoplete};
use neoqmllsp::lsp::{CompletionItem, CompletionItemKind, Position};
use neoqmllsp::syntax::{Point, SyntaxNode};
use neoqmllsp::treehelper::get_positon_string;

fn span(src: &str, row: usize, text: &str) -> (Point, Point) {
    let line = src.lines().nth(row).unwrap();
    let col = line.find(text).unwrap();
    (Point { row, column: col }, Point { row, column: col + text.len() })
}

fn node(kind: &str, field: Option<&str>, at: (Point, Point), children: Vec<SyntaxNode>) -> SyntaxNode {
    SyntaxNode {
        kind: kind.to_string(),
        field: field.map(|f| f.to_string()),
        start: at.0,
        end: at.1,
        is_error: false,
        has_error: false,
        children,
    }
}

const DOC: &str = "Item {\n    id: root\n    width: 100\n    function foo() {}\n    Rectangle {\n        id: rect\n    }\n}\n";

fn binding(src: &str, row: usize, name: &str, value: &str) -> SyntaxNode {
    let (s, _) = span(src, row, name);
    let (_, e) = span(src, row, value);
    node(
        "ui_binding",
        None,
        (s, e),
        vec![
            node("identifier", Some("name"), span(src, row, name), vec![]),
            node("expression_statement", Some("value"), span(src, row, value), vec![]),
        ],
    )
}

fn doc_tree() -> SyntaxNode {
    let rect = node(
        "ui_object_definition",
        None,
        (Point { row: 4, column: 4 }, Point { row: 6, column: 5 }),
        vec![
            node("identifier", Some("type_name"), span(DOC, 4, "Rectangle"), vec![]),
            node(
                "ui_object_initializer",
                Some("initializer"),
                (Point { row: 4, column: 14 }, Point { row: 6, column: 5 }),
                vec![binding(DOC, 5, "id", "rect")],
            ),
        ],
    );
    let func = node(
        "function_declaration",
        None,
        (Point { row: 3, column: 4 }, Point { row: 3, column: 21 }),
        vec![node("identifier", Some("name"), span(DOC, 3, "foo"), vec![])],
    );
    let item = node(
        "ui_object_definition",
        Some("root"),
        (Point { row: 0, column: 0 }, Point { row: 7, column: 1 }),
        vec![
            node("identifier", Some("type_name"), span(DOC, 0, "Item"), vec![]),
            node(
                "ui_object_initializer",
                Some("initializer"),
                (Point { row: 0, column: 5 }, Point { row: 7, column: 1 }),
                vec![binding(DOC, 1, "id", "root"), binding(DOC, 2, "width", "100"), func, rect],
            ),
        ],
    );
    node("program", None, (Point { row: 0, column: 0 }, Point { row: 8, column: 0 }), vec![item])
}

fn labels(v: &Vec<CompletionItem>) -> Vec<String> {
    v.iter().map(|c| c.label.clone()).collect()
}

#[test]
fn declared_ids_nested_first() {
    let tree = doc_tree();
    let items = getcoplete(&tree, DOC).unwrap();
    assert_eq!(labels(&items), vec!["rect".to_string(), "root".to_string()]);
    assert_eq!(items[0].kind, CompletionItemKind::Variable);
    assert_eq!(items[0].detail, "defined variable");
}

#[test]
fn declared_ids_none_without_ids() {
    let tree = node("program", None, (Point { row: 0, column: 0 }, Point { row: 0, column: 0 }), vec![]);
    assert!(try_getcoplete(&tree, "").unwrap().is_none());
}

#[test]
fn id_completion_lists_bindings_of_the_object() {
    let tree = doc_tree();
    let items = get_id_complete(&tree, DOC, "root").unwrap();
    assert_eq!(labels(&items), vec!["width".to_string()]);
}

#[test]
fn id_completion_with_functions() {
    let tree = doc_tree();
    let items = complete::get_id_complete(&tree, DOC, "root").unwrap();
    assert_eq!(labels(&items), vec!["width".to_string(), "foo()".to_string()]);
    assert_eq!(items[1].kind, CompletionItemKind::Function);
    assert_eq!(items[1].detail, "defined function");
}

#[test]
fn id_completion_finds_nested_object() {
    let tree = doc_tree();
    let items = get_id_complete(&tree, DOC, "rect").unwrap();
    assert!(items.is_empty());
}

#[test]
fn id_completion_of_unknown_id_is_none() {
    let tree = doc_tree();
    assert!(get_id_complete(&tree, DOC, "nothing").is_none());
}

#[test]
fn id_sub_completion_from_a_non_object_is_none() {
    let tree = doc_tree();
    assert!(get_id_sub_complete(&tree, DOC, "root").is_none());
}

#[test]
fn text_under_a_position() {
    let tree = doc_tree();
    let found = get_positon_string(Position { line: 2, character: 12 }, &tree, DOC);
    assert_eq!(found, Some("100".to_string()));
    let none = get_positon_string(Position { line: 20, character: 0 }, &tree, DOC);
    assert_eq!(none, None);
}

fn registered(names: &[&str]) -> Vec<CppQml> {
    names
        .iter()
        .map(|n| CppQml { name: n.to_string(), ..Default::default() })
        .collect()
}

#[test]
fn completion_without_trigger_lists_registered_types_then_ids() {
    let tree = doc_tree();
    let reg = registered(&["Backend", "Model"]);
    let items = complete::complete_in_tree(&tree, DOC, Position { line: 0, character: 0 }, false, &reg)
        .unwrap()
        .unwrap();
    assert_eq!(
        labels(&items),
        vec!["Backend".to_string(), "Model".to_string(), "rect".to_string(), "root".to_string()]
    );
}

#[test]
fn completion_triggered_at_column_below_two_is_none() {
    let reg = registered(&[]);
    assert!(getcomplete(DOC, Position { line: 1, character: 1 }, Some(".".to_string()), &reg).is_none());
}

#[test]
fn completion_triggered_after_an_id() {
    let source = "Item {\n    id: root\n    width: 100\n    x: root.\n}\n";
    let tree = {
        let item = node(
            "ui_object_definition",
            Some("root"),
            (Point { row: 0, column: 0 }, Point { row: 4, column: 1 }),
            vec![
                node("identifier", Some("type_name"), span(source, 0, "Item"), vec![]),
                node(
                    "ui_object_initializer",
                    Some("initializer"),
                    (Point { row: 0, column: 5 }, Point { row: 4, column: 1 }),
                    vec![
                        binding(source, 1, "id", "root"),
                        binding(source, 2, "width", "100"),
                        node(
                            "ui_binding",
                            None,
                            (Point { row: 3, column: 4 }, Point { row: 3, column: 12 }),
                            vec![
                                node("identifier", Some("name"), span(source, 3, "x"), vec![]),
                                node("identifier", Some("value"), (Point { row: 3, column: 7 }, Point { row: 3, column: 11 }), vec![]),
                            ],
                        ),
                    ],
                ),
            ],
        );
        node("program", None, (Point { row: 0, column: 0 }, Point { row: 5, column: 0 }), vec![item])
    };
    let reg = registered(&[]);
    let items = complete::complete_in_tree(&tree, source, Position { line: 3, character: 12 }, true, &reg)
        .unwrap()
        .unwrap();
    assert_eq!(labels(&items), vec!["width".to_string(), "x".to_string()]);
}

#[test]
fn completion_of_parsed_document_lists_ids() {
    let reg = registered(&["Backend"]);
    let items = getcomplete(DOC, Position { line: 0, character: 0 }, None, &reg).unwrap();
    assert_eq!(labels(&items), vec!["Backend".to_string(), "rect".to_string(), "root".to_string()]);
}

#[test]
fn declared_ids_agree_with_base_completion() {
    let tree = doc_tree();
    let lines = neoqmllsp::text::split_lines(DOC);
    let base = complete::getsubbasecomplete(&lines, &tree).unwrap().unwrap();
    let ids = getcoplete(&tree, DOC).unwrap();
    assert_eq!(labels(&base), labels(&ids));
    assert_eq!(labels(&base), vec!["rect".to_string(), "root".to_string()]);
}
