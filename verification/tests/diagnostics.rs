use neoqmllsp::gammer::checkerror;
use neoqmllsp::parse::parse_qml;
use neoqmllsp::syntax::{Point, SyntaxNode};

fn p(row: usize, column: usize) -> Point {
    Point { row, column }
}

fn leaf(kind: &str, start: Point, end: Point, is_error: bool, has_error: bool) -> SyntaxNode {
    SyntaxNode {
        kind: kind.to_string(),
        field: None,
        start,
        end,
        is_error,
        has_error,
        children: vec![],
    }
}

#[test]
fn no_error_gives_none() {
    let tree = leaf("program", p(0, 0), p(1, 0), false, false);
    assert!(checkerror(&tree).is_none());
}

#[test]
fn an_error_node_gives_its_range() {
    let tree = leaf("ERROR", p(2, 3), p(2, 9), true, true);
    assert_eq!(checkerror(&tree), Some(vec![(p(2, 3), p(2, 9))]));
}

#[test]
fn errors_come_in_source_order() {
    let mut root = leaf("program", p(0, 0), p(9, 0), false, true);
    let mut middle = leaf("ui_object_definition", p(1, 0), p(5, 0), false, true);
    middle.children = vec![
        leaf("identifier", p(1, 0), p(1, 4), false, false),
        leaf("ERROR", p(2, 0), p(2, 5), true, true),
    ];
    root.children = vec![
        leaf("ERROR", p(0, 0), p(0, 2), true, true),
        middle,
        leaf("ERROR", p(7, 1), p(7, 2), true, true),
    ];
    assert_eq!(
        checkerror(&root),
        Some(vec![(p(0, 0), p(0, 2)), (p(2, 0), p(2, 5)), (p(7, 1), p(7, 2))])
    );
}

#[test]
fn a_missing_node_gives_its_own_range() {
    let mut root = leaf("program", p(0, 0), p(1, 0), false, true);
    root.children = vec![
        leaf("identifier", p(0, 0), p(0, 1), false, false),
        leaf("}", p(0, 4), p(0, 4), false, true),
    ];
    assert_eq!(checkerror(&root), Some(vec![(p(0, 4), p(0, 4))]));
}

#[test]
fn an_error_without_site_below_reports_the_holder() {
    let mut root = leaf("program", p(0, 0), p(1, 0), false, true);
    root.children = vec![leaf("identifier", p(0, 0), p(0, 1), false, false)];
    assert_eq!(checkerror(&root), Some(vec![(p(0, 0), p(1, 0))]));
}

#[test]
fn parsed_document_with_syntax_error_is_reported() {
    let source = "Item {\n    width: 100 +\n}\n";
    let tree = parse_qml(source).unwrap();
    assert!(tree.has_error);
    let errors = checkerror(&tree).unwrap();
    assert!(!errors.is_empty());
    let clean = parse_qml("Item {\n    width: 100\n}\n").unwrap();
    assert!(checkerror(&clean).is_none());
}

#[test]
fn parsed_document_missing_a_brace_is_reported() {
    let tree = parse_qml("Item {\n    width: 100\n").unwrap();
    assert!(tree.has_error);
    assert!(!checkerror(&tree).unwrap().is_empty());
}

#[test]
fn a_stray_control_character_is_handled() {
    let tree = parse_qml("Item {\u{1}}\n").unwrap();
    let errors = checkerror(&tree);
    assert_eq!(errors.is_some(), tree.has_error);
    if let Some(v) = errors {
        assert!(!v.is_empty());
    }
}
