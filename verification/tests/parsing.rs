use pisnge::string_parser::{parse_label, parse_labels_list, take_until_any};

fn chars(s: &str) -> Vec<char> {
    s.chars().collect()
}

fn rest(s: &Vec<char>, i: usize) -> String {
    s[i..].iter().collect()
}

#[test]
fn test_parse_label() {
    // Test double-quoted string with comma
    let input = chars(r#""A,B""#);
    let (_, label) = parse_label(&input, 0);
    assert_eq!(label, "A,B");

    // Test single-quoted string with comma
    let input = chars(r#"'C,D'"#);
    let (_, label) = parse_label(&input, 0);
    assert_eq!(label, "C,D");

    // Test unquoted string
    let input = chars("SimpleLabel");
    let (_, label) = parse_label(&input, 0);
    assert_eq!(label, "SimpleLabel");
}

#[test]
fn string_parser_test_parse_labels_list() {
    // Test mixed quoted and unquoted labels
    let input = chars(r#""A,B", 'C,D', SimpleLabel, "Another, Label"]"#);
    let result = parse_labels_list(&input, 0);
    assert!(result.is_some());
    let (next, labels) = result.unwrap();
    assert_eq!(rest(&input, next), "]");
    assert_eq!(labels.len(), 4);
    assert_eq!(labels[0], "A,B");
    assert_eq!(labels[1], "C,D");
    assert_eq!(labels[2], "SimpleLabel");
    assert_eq!(labels[3], "Another, Label");
}

#[test]
fn test_take_until_any() {
    let stops = vec![',', ']'];

    let input = chars("hello,world");
    let (next, parsed) = take_until_any(&input, 0, &stops);
    assert_eq!(parsed, "hello");
    assert_eq!(rest(&input, next), ",world");

    let input = chars("hello]world");
    let (next, parsed) = take_until_any(&input, 0, &stops);
    assert_eq!(parsed, "hello");
    assert_eq!(rest(&input, next), "]world");
}

#[test]
fn test_unterminated_labels_list_fails() {
    let input = chars("one, two");
    assert!(parse_labels_list(&input, 0).is_none());
}

#[test]
fn test_parse_label_empty_input() {
    let input = chars("");
    let (next, label) = parse_label(&input, 0);
    assert_eq!(next, 0);
    assert_eq!(label, "");
}

#[test]
fn quoted_strings_stop_at_the_first_close_quote() {
    let input = chars(r#""abc"def"#);
    let (next, content) = pisnge::string_parser::quoted_string(&input, 0).unwrap();
    assert_eq!(content, "abc");
    assert_eq!(rest(&input, next), "def");
    assert!(pisnge::string_parser::quoted_string(&input, 5).is_none());

    let input = chars("'a\"b'x");
    let (next, content) = pisnge::string_parser::quoted_string_single(&input, 0).unwrap();
    assert_eq!(content, "a\"b");
    assert_eq!(rest(&input, next), "x");
}

#[test]
fn numbers_saturate_instead_of_failing() {
    let input = chars("99999999999999999999999");
    let (next, value) = pisnge::numbers::number(&input, 0).unwrap();
    assert_eq!(next, input.len());
    // magnitudes cap at the numeric model's largest value
    assert_eq!(value, 1_000_000_000_000_000);
}
