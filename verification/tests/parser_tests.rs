use pipequery::errors::InterpError;
use pipequery::parser::{parse, ParseNode, ParseNodeType};
use pipequery::scanner::{scan, CommandKeyword, TokenType};

fn parse_text(text: &str) -> Result<ParseNode, InterpError> {
    parse(&scan(text))
}

fn node_value(n: &ParseNode) -> &str {
    n.token_value().map(|s| s.as_str()).unwrap_or("")
}

#[test]
fn generate_statement_tree_shape() {
    let root = parse_text("| generate count=3 name=x").unwrap();
    assert_eq!(root.variant, ParseNodeType::Query);
    assert_eq!(root.children().len(), 1);

    let statement = root.child(0).unwrap();
    assert_eq!(statement.variant, ParseNodeType::Statement);
    assert_eq!(statement.children().len(), 1);

    let command = statement.child(0).unwrap();
    assert_eq!(command.variant, ParseNodeType::Command);
    assert_eq!(
        command.token_type(),
        TokenType::CommandKeyword(CommandKeyword::Generate)
    );
    assert_eq!(command.children().len(), 1);

    let argument = command.child(0).unwrap();
    assert_eq!(argument.variant, ParseNodeType::Argument);
    assert_eq!(argument.children().len(), 2);

    let first = argument.child(0).unwrap();
    assert_eq!(first.variant, ParseNodeType::Assignment);
    let ident = first.child(0).unwrap();
    assert_eq!(ident.variant, ParseNodeType::Value);
    assert_eq!(ident.token_type(), TokenType::Identifier);
    assert_eq!(node_value(ident), "count");
    let bound = first.child(1).unwrap();
    assert_eq!(bound.variant, ParseNodeType::Value);
    assert_eq!(node_value(bound), "3");

    let second = argument.child(1).unwrap();
    assert_eq!(second.variant, ParseNodeType::Assignment);
    assert_eq!(node_value(second.child(0).unwrap()), "name");
    assert_eq!(node_value(second.child(1).unwrap()), "x");
}

#[test]
fn expression_is_right_associative() {
    let root = parse_text("| eval a = 1 + 2 + 3").unwrap();
    let assignment = root
        .child(0)
        .unwrap()
        .child(0)
        .unwrap()
        .child(0)
        .unwrap()
        .child(0)
        .unwrap();
    assert_eq!(assignment.variant, ParseNodeType::Assignment);
    let rhs = assignment.child(1).unwrap();
    assert_eq!(rhs.variant, ParseNodeType::Expression);
    assert_eq!(node_value(rhs.child(0).unwrap()), "1");
    assert_eq!(
        rhs.child(1).unwrap().variant,
        ParseNodeType::ArithmeticOperator
    );
    let inner = rhs.child(2).unwrap();
    assert_eq!(inner.variant, ParseNodeType::Expression);
    assert_eq!(node_value(inner.child(0).unwrap()), "2");
    assert_eq!(node_value(inner.child(2).unwrap()), "3");
}

#[test]
fn comparison_tree_shape() {
    let root = parse_text("| where x == 3").unwrap();
    let comparison = root
        .child(0)
        .unwrap()
        .child(0)
        .unwrap()
        .child(0)
        .unwrap()
        .child(0)
        .unwrap();
    assert_eq!(comparison.variant, ParseNodeType::Comparison);
    assert_eq!(comparison.children().len(), 3);
    assert_eq!(node_value(comparison.child(0).unwrap()), "x");
    assert_eq!(
        comparison.child(1).unwrap().variant,
        ParseNodeType::ComparisonOperator
    );
    assert_eq!(comparison.child(1).unwrap().token_type(), TokenType::Eeq);
    assert_eq!(node_value(comparison.child(2).unwrap()), "3");
}

#[test]
fn comment_statement_parses() {
    let root = parse_text("/* note */").unwrap();
    assert_eq!(root.children().len(), 1);
    let statement = root.child(0).unwrap();
    assert_eq!(statement.variant, ParseNodeType::Statement);
    let comment = statement.child(0).unwrap();
    assert_eq!(comment.variant, ParseNodeType::Comment);
    assert_eq!(node_value(comment), "note");
}

#[test]
fn bare_eval_parses_with_no_arguments() {
    let root = parse_text("| eval").unwrap();
    let command = root.child(0).unwrap().child(0).unwrap();
    assert_eq!(command.variant, ParseNodeType::Command);
    assert_eq!(command.children().len(), 0);
}

#[test]
fn commas_separate_arguments() {
    let root = parse_text("| generate count=3, name=x").unwrap();
    let command = root.child(0).unwrap().child(0).unwrap();
    assert_eq!(command.children().len(), 2);
    assert_eq!(command.child(0).unwrap().children().len(), 1);
    assert_eq!(command.child(1).unwrap().children().len(), 1);
}

#[test]
fn statement_must_open_with_separator_or_comment() {
    let r = parse_text("generate count=3");
    assert!(matches!(r, Err(InterpError::SyntaxError { .. })));
}

#[test]
fn separator_must_be_followed_by_a_command() {
    let r = parse_text("| x = 3");
    assert!(matches!(r, Err(InterpError::SyntaxError { .. })));
    let r = parse_text("|");
    assert!(matches!(r, Err(InterpError::SyntaxError { .. })));
}

#[test]
fn bare_comparison_operator_in_argument_fails() {
    let r = parse_text("| where ==");
    assert!(matches!(r, Err(InterpError::SyntaxError { .. })));
}

#[test]
fn missing_end_of_stream_token_fails() {
    let tokens = Vec::new();
    let r = parse(&tokens);
    assert!(matches!(r, Err(InterpError::SyntaxError { .. })));
}

#[test]
fn multiple_statements_parse_in_order() {
    let root = parse_text("| generate count=2 | eval y = 1").unwrap();
    assert_eq!(root.children().len(), 2);
    for statement in root.children() {
        assert_eq!(statement.variant, ParseNodeType::Statement);
    }
}

#[test]
fn bare_value_argument_parses() {
    let root = parse_text("| top 5").unwrap();
    let command = root.child(0).unwrap().child(0).unwrap();
    assert_eq!(command.children().len(), 1);
    let argument = command.child(0).unwrap();
    assert_eq!(argument.children().len(), 1);
    let value = argument.child(0).unwrap();
    assert_eq!(value.variant, ParseNodeType::Value);
    assert_eq!(node_value(value), "5");
}
