use sq::query::{parse, parse_identifier, parse_object_tree, Literal, ObjectTree, Operator};

fn roundtrip(input: &str) {
    let query = parse(input).unwrap();
    let output = query.render();
    assert_eq!(input, output, "Roundtrip failed for input: {}", input);
}

#[test]
fn test_minimal_query() {
    roundtrip("a");
}

#[test]
fn test_query_with_child() {
    roundtrip("a>b");
}

#[test]
fn test_query_with_multiple_children() {
    roundtrip("a>b+c");
}

#[test]
fn test_query_with_nested_children() {
    roundtrip("a>b+c>d");
}

#[test]
fn test_query_with_predicates() {
    roundtrip("a>b foo=bar baz>42");
    roundtrip("report>param code=visit.edit");
}

#[test]
fn test_parse_identifier() {
    let input = "testIdentifier123";
    let (remaining, identifier) = parse_identifier(input).unwrap();
    assert_eq!(identifier, "testIdentifier123");
    assert_eq!(remaining, "");
}

#[test]
fn test_parse_identifier_with_invalid_characters() {
    let input = "testIdentifier123!@#";
    let (remaining, identifier) = parse_identifier(input).unwrap();
    assert_eq!(identifier, "testIdentifier123");
    assert_eq!(remaining, "!@#");
}

#[test]
fn test_parse_identifier_empty() {
    let input = "";
    assert!(parse_identifier(input).is_err());
}

fn leaf(name: &str) -> ObjectTree<String> {
    ObjectTree { root: name.to_string(), children: vec![] }
}

#[test]
fn test_parse_object_tree() {
    let input = "report";
    let (remaining, object_tree) = parse_object_tree(input).unwrap();
    assert_eq!(remaining, "");
    assert_eq!(object_tree, leaf("report"));
}

#[test]
fn test_parse_object_tree_with_children() {
    let input = "report>param";
    let (remaining, object_tree) = parse_object_tree(input).unwrap();
    assert_eq!(remaining, "");
    assert_eq!(
        object_tree,
        ObjectTree { root: "report".to_string(), children: vec![leaf("param")] }
    );
}

#[test]
fn test_parse_object_tree_with_multiple_children() {
    let input = "report>param+data";
    let (remaining, object_tree) = parse_object_tree(input).unwrap();
    assert_eq!(remaining, "");
    assert_eq!(
        object_tree,
        ObjectTree {
            root: "report".to_string(),
            children: vec![leaf("param"), leaf("data")],
        }
    );
}

#[test]
fn test_parse_object_tree_with_nested_children() {
    let input = "report>param+data>source";
    let (remaining, object_tree) = parse_object_tree(input).unwrap();
    assert_eq!(remaining, "");
    assert_eq!(
        object_tree,
        ObjectTree {
            root: "report".to_string(),
            children: vec![
                leaf("param"),
                ObjectTree { root: "data".to_string(), children: vec![leaf("source")] },
            ],
        }
    );
}

#[test]
fn parse_rejects_malformed_input() {
    assert!(parse("").is_err());
    assert!(parse(">").is_err());
    assert!(parse("a>").is_err());
    assert!(parse("a>b+").is_err());
    assert!(parse("!start").is_err());
    // Unterminated string literal.
    assert!(parse("a x='b").is_err());
    // Missing operator and missing value.
    assert!(parse("a foo").is_err());
    assert!(parse("a foo=").is_err());
}

#[test]
fn parse_rejects_oversized_integer_literal() {
    assert!(parse("a x=99999999999999999999").is_err());
    // The largest value still in range parses.
    let q = parse("a x=9223372036854775807").unwrap();
    assert_eq!(q.render(), "a x=9223372036854775807");
}

#[test]
fn parse_tolerates_whitespace_between_tokens() {
    let q = parse("  a > b   foo =  bar ").unwrap();
    assert_eq!(q.render(), "a>b foo=bar");
}

#[test]
fn parse_reads_every_operator() {
    let q = parse("a p=1 q!=2 r<3 s>4 t<=5 u>=6").unwrap();
    assert_eq!(q.render(), "a p=1 q!=2 r<3 s>4 t<=5 u>=6");
    assert_eq!(q.predicates[0].operator, Operator::Eq);
    assert_eq!(q.predicates[1].operator, Operator::Ne);
    assert_eq!(q.predicates[2].operator, Operator::Lt);
    assert_eq!(q.predicates[3].operator, Operator::Gt);
    assert_eq!(q.predicates[4].operator, Operator::Le);
    assert_eq!(q.predicates[5].operator, Operator::Ge);
}

#[test]
fn quoted_literal_with_space_stays_quoted() {
    let q = parse("a x='hello world'").unwrap();
    assert_eq!(q.predicates[0].value, Literal::Str("hello world".to_string()));
    assert_eq!(q.render(), "a x='hello world'");
}

#[test]
fn double_quoted_literal_renders_by_content() {
    let q = parse("a x=\"hello world\"").unwrap();
    assert_eq!(q.render(), "a x='hello world'");
}

#[test]
fn integer_literals_render_as_digits() {
    assert_eq!(Literal::Integer(0).render(), "0");
    assert_eq!(Literal::Integer(42).render(), "42");
    assert_eq!(Literal::Integer(-5).render(), "-5");
    assert_eq!(Literal::Integer(i64::MAX).render(), "9223372036854775807");
    assert_eq!(Literal::Integer(i64::MIN).render(), "-9223372036854775808");
}
