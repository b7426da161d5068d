use neoqmllsp::syntax::{child_by_field, kind_is, node_text, nth_child, Point, SyntaxNode};
use neoqmllsp::text::{chars_of, concat_str, split_lines, split_string, text_is, utf8_slice};

fn lines(src: &str) -> Vec<Vec<u8>> {
    split_lines(src)
}

fn as_strings(v: &Vec<Vec<u8>>) -> Vec<String> {
    v.iter().map(|l| String::from_utf8(l.clone()).unwrap()).collect()
}

#[test]
fn split_lines_follows_str_lines() {
    for src in ["", "a", "a\n", "a\nb", "a\r\nb\r\n", "\n\n", "a\r", "x\n\ny\n", "é\nü"] {
        let expected: Vec<String> = src.lines().map(|l| l.to_string()).collect();
        assert_eq!(as_strings(&lines(src)), expected, "source {:?}", src);
    }
}

#[test]
fn no_line_holds_a_line_feed() {
    for l in lines("one\ntwo\r\n\nthree\n") {
        assert!(!l.contains(&b'\n'));
    }
}

#[test]
fn split_string_follows_str_split() {
    for (s, sep) in [("QtQuick/Item 2.0", ' '), ("QtQuick/Item", '/'), ("", ' '), ("a  b", ' '), ("\"x\"", '"')] {
        let expected: Vec<String> = s.split(sep).map(|p| p.to_string()).collect();
        assert_eq!(split_string(s, sep), expected);
    }
}

#[test]
fn chars_text_and_concat() {
    assert_eq!(chars_of("aé"), vec!['a', 'é']);
    assert!(text_is("width", "width"));
    assert!(!text_is("width", "height"));
    assert_eq!(concat_str("/usr/lib", "/x"), "/usr/lib/x");
    assert_eq!(concat_str("", ""), "");
}

#[test]
fn utf8_slice_checks_bounds_and_encoding() {
    let bytes = "héllo".as_bytes().to_vec();
    assert_eq!(utf8_slice(&bytes, 0, 1).as_deref(), Some("h"));
    assert_eq!(utf8_slice(&bytes, 1, 3).as_deref(), Some("é"));
    assert_eq!(utf8_slice(&bytes, 1, 2), None);
    assert_eq!(utf8_slice(&bytes, 3, 2), None);
    assert_eq!(utf8_slice(&bytes, 0, 99), None);
    assert_eq!(utf8_slice(&bytes, 6, 6).as_deref(), Some(""));
}

fn leaf(kind: &str, field: Option<&str>, row: usize, s: usize, e: usize) -> SyntaxNode {
    SyntaxNode {
        kind: kind.to_string(),
        field: field.map(|f| f.to_string()),
        start: Point { row, column: s },
        end: Point { row, column: e },
        is_error: false,
        has_error: false,
        children: vec![],
    }
}

#[test]
fn nodes_are_found_by_field_and_index() {
    let src = "Item {\n    id: root\n}\n";
    let mut parent = leaf("ui_binding", None, 1, 4, 12);
    parent.children = vec![leaf("identifier", Some("name"), 1, 4, 6), leaf("expression_statement", Some("value"), 1, 8, 12)];
    let ls = lines(src);
    let name = child_by_field(&parent, "name").unwrap();
    assert_eq!(node_text(&ls, name).as_deref(), Some("id"));
    let value = child_by_field(&parent, "value").unwrap();
    assert_eq!(node_text(&ls, value).as_deref(), Some("root"));
    assert!(child_by_field(&parent, "type_name").is_none());
    assert!(kind_is(nth_child(&parent, 1).unwrap(), "expression_statement"));
    assert!(nth_child(&parent, 2).is_none());
    assert_eq!(node_text(&ls, &leaf("identifier", None, 7, 0, 1)), None);
    assert_eq!(node_text(&ls, &leaf("identifier", None, 0, 3, 99)), None);
}
