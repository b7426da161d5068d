use neoqmllsp::ast::{getast, try_getast};
use neoqmllsp::lsp::{DocumentSymbol, SymbolKind};
use neoqmllsp::parse::parse_qml;
use neoqmllsp::syntax::{MalformedTree, Point, SyntaxNode};

fn span(src: &str, row: usize, text: &str) -> (Point, Point) {
    let line = src.lines().nth(row).unwrap();
    let col = line.find(text).unwrap();
    (Point { row, column: col }, Point { row, column: col + text.len() })
}

fn node(kind: &str, field: Option<&str>, at: (Point, Point), children: Vec<SyntaxNode>) -> SyntaxNode {
    SyntaxNode {
        kind: kind.to_string(),
        field: field.map(|f| f.to_string()),
        start: at.0,
        end: at.1,
        is_error: false,
        has_error: false,
        children,
    }
}

const DOC: &str = "import QtQuick 2.0\nItem {\n    function foo() {}\n    Rectangle {\n    }\n}\n";

fn doc_tree() -> SyntaxNode {
    let whole = (Point { row: 0, column: 0 }, Point { row: 6, column: 0 });
    let import = node(
        "ui_import",
        None,
        (Point { row: 0, column: 0 }, Point { row: 0, column: 18 }),
        vec![node("identifier", Some("source"), span(DOC, 0, "QtQuick"), vec![])],
    );
    let func = node(
        "function_declaration",
        None,
        (Point { row: 2, column: 4 }, Point { row: 2, column: 21 }),
        vec![node("identifier", Some("name"), span(DOC, 2, "foo"), vec![])],
    );
    let rect = node(
        "ui_object_definition",
        None,
        (Point { row: 3, column: 4 }, Point { row: 4, column: 5 }),
        vec![
            node("identifier", Some("type_name"), span(DOC, 3, "Rectangle"), vec![]),
            node("ui_object_initializer", Some("initializer"), (Point { row: 3, column: 14 }, Point { row: 4, column: 5 }), vec![]),
        ],
    );
    let item = node(
        "ui_object_definition",
        Some("root"),
        (Point { row: 1, column: 0 }, Point { row: 5, column: 1 }),
        vec![
            node("identifier", Some("type_name"), span(DOC, 1, "Item"), vec![]),
            node(
                "ui_object_initializer",
                Some("initializer"),
                (Point { row: 1, column: 5 }, Point { row: 5, column: 1 }),
                vec![func, rect],
            ),
        ],
    );
    node("program", None, whole, vec![import, item])
}

fn names(v: &Vec<DocumentSymbol>) -> Vec<String> {
    v.iter().map(|s| s.name.clone()).collect()
}

#[test]
fn outline_lists_imports_objects_and_functions() {
    let tree = doc_tree();
    let symbols = getast(&tree, DOC).unwrap();
    assert_eq!(names(&symbols), vec!["QtQuick".to_string(), "Item".to_string()]);
    assert_eq!(symbols[0].kind, SymbolKind::Module);
    assert!(symbols[0].children.is_none());
    assert_eq!(symbols[0].range.start.line, 0);
    assert_eq!(symbols[0].range.start.character, 7);
    assert_eq!(symbols[0].range.end.character, 14);
    assert_eq!(symbols[1].kind, SymbolKind::Variable);
    assert_eq!(symbols[1].range.start.line, 1);
    assert_eq!(symbols[1].range.end.line, 5);
    let kids = symbols[1].children.as_ref().unwrap();
    assert_eq!(names(kids), vec!["foo".to_string(), "Rectangle".to_string()]);
    assert_eq!(kids[0].kind, SymbolKind::Function);
    assert_eq!(kids[1].kind, SymbolKind::Variable);
    assert!(kids[1].children.is_none());
}

#[test]
fn outline_is_none_without_symbols() {
    let tree = node("program", None, (Point { row: 0, column: 0 }, Point { row: 0, column: 0 }), vec![]);
    assert!(getast(&tree, "").is_none());
}

#[test]
fn outline_of_declaration_without_name_is_malformed() {
    let tree = node(
        "program",
        None,
        (Point { row: 0, column: 0 }, Point { row: 0, column: 4 }),
        vec![node("function_declaration", None, (Point { row: 0, column: 0 }, Point { row: 0, column: 4 }), vec![])],
    );
    assert_eq!(try_getast(&tree, "abcd").unwrap_err(), MalformedTree);
}

#[test]
fn outline_of_name_out_of_the_source_is_malformed() {
    let tree = node(
        "program",
        None,
        (Point { row: 0, column: 0 }, Point { row: 0, column: 4 }),
        vec![node(
            "function_declaration",
            None,
            (Point { row: 0, column: 0 }, Point { row: 0, column: 4 }),
            vec![node("identifier", Some("name"), (Point { row: 3, column: 0 }, Point { row: 3, column: 2 }), vec![])],
        )],
    );
    assert!(try_getast(&tree, "abcd").is_err());
}

#[test]
fn outline_of_parsed_document() {
    let tree = parse_qml(DOC).unwrap();
    let symbols = try_getast(&tree, DOC).unwrap().unwrap();
    assert_eq!(names(&symbols), vec!["QtQuick".to_string(), "Item".to_string()]);
    let kids = symbols[1].children.as_ref().unwrap();
    assert_eq!(names(kids), vec!["foo".to_string(), "Rectangle".to_string()]);
}
