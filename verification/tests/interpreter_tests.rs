use pipequery::command::{evaluate_node, CommandExecutor};
use pipequery::command::eval::Eval;
use pipequery::errors::InterpError;
use pipequery::interpreter::{classify_line, Interpreter, ReplAction};
use pipequery::output::{RowEnv, Table};
use pipequery::parser::{parse, ParseNode, ParseNodeType};
use pipequery::scanner::{scan, Token, TokenType};

fn run(interpreter: &mut Interpreter, text: &str) -> Result<(), InterpError> {
    interpreter.run_text(text)
}

fn cell(interpreter: &Interpreter, row: usize, column: usize) -> String {
    interpreter.output().get_cell(row, column).clone()
}

#[test]
fn generate_builds_the_described_table() {
    let mut interpreter = Interpreter::new();
    run(&mut interpreter, "| generate count=3 name=x").unwrap();
    let table = interpreter.output();
    assert_eq!(table.row_count(), 4);
    assert_eq!(table.col_count(), 1);
    assert_eq!(table.get_cell(0, 0).as_str(), "x");
    for row in 1..4 {
        assert_eq!(table.get_cell(row, 0).as_str(), "<Empty>");
    }
}

#[test]
fn generate_defaults_the_column_name() {
    let mut interpreter = Interpreter::new();
    run(&mut interpreter, "| generate count=1").unwrap();
    assert_eq!(cell(&interpreter, 0, 0), "$1");
}

#[test]
fn generate_without_count_is_a_syntax_error() {
    let mut interpreter = Interpreter::new();
    let r = run(&mut interpreter, "| generate name=x");
    assert!(matches!(r, Err(InterpError::SyntaxError { .. })));
    assert_eq!(interpreter.output().row_count(), 1);
}

#[test]
fn generate_with_non_numeric_count_is_a_type_error() {
    let mut interpreter = Interpreter::new();
    let r = run(&mut interpreter, "| generate count=abc");
    assert!(matches!(r, Err(InterpError::TypeError)));
}

#[test]
fn eval_copies_a_column_into_every_row() {
    let mut interpreter = Interpreter::new();
    run(&mut interpreter, "| generate count=3 name=x").unwrap();
    run(&mut interpreter, "| eval y = x").unwrap();
    let table = interpreter.output();
    assert_eq!(table.col_count(), 2);
    for row in 1..4 {
        assert_eq!(table.get_cell(row, 1).as_str(), "<Empty>");
    }
}

#[test]
fn eval_numeric_addition() {
    let mut interpreter = Interpreter::new();
    run(&mut interpreter, "| generate count=2 name=a").unwrap();
    run(&mut interpreter, "| eval x = 5").unwrap();
    run(&mut interpreter, "| eval z = x + x").unwrap();
    for row in 1..3 {
        assert_eq!(cell(&interpreter, row, 1), "5");
        assert_eq!(cell(&interpreter, row, 2), "10");
    }
}

#[test]
fn eval_string_concatenation() {
    let mut interpreter = Interpreter::new();
    run(&mut interpreter, "| generate count=2 name=a").unwrap();
    run(&mut interpreter, "| eval x = \"5a\"").unwrap();
    run(&mut interpreter, "| eval z = x + x").unwrap();
    for row in 1..3 {
        assert_eq!(cell(&interpreter, row, 2), "5a5a");
    }
}

#[test]
fn eval_addition_is_right_associative_and_total() {
    let mut interpreter = Interpreter::new();
    run(&mut interpreter, "| generate count=1 name=a").unwrap();
    run(&mut interpreter, "| eval z = 1 + 2 + 3").unwrap();
    assert_eq!(cell(&interpreter, 1, 1), "6");
}

#[test]
fn eval_addition_of_word_sized_values_does_not_wrap() {
    let mut interpreter = Interpreter::new();
    run(&mut interpreter, "| generate count=1 name=a").unwrap();
    run(
        &mut interpreter,
        "| eval z = 18446744073709551615 + 1",
    )
    .unwrap();
    assert_eq!(cell(&interpreter, 1, 1), "18446744073709551616");
    // The oversized result no longer sniffs as a number, so adding to it
    // concatenates.
    run(&mut interpreter, "| eval w = z + 1").unwrap();
    assert_eq!(cell(&interpreter, 1, 2), "184467440737095516161");
}

#[test]
fn eval_of_unbound_variable_is_a_lookup_error() {
    let mut interpreter = Interpreter::new();
    run(&mut interpreter, "| generate count=1 name=a").unwrap();
    let r = run(&mut interpreter, "| eval y = q");
    assert!(matches!(r, Err(InterpError::LookupError { .. })));
}

#[test]
fn eval_subtraction_is_unsupported() {
    let mut interpreter = Interpreter::new();
    run(&mut interpreter, "| generate count=1 name=a").unwrap();
    let r = run(&mut interpreter, "| eval y = 2 - 1");
    assert!(matches!(r, Err(InterpError::UnsupportedOperation)));
}

#[test]
fn eval_can_use_the_row_ordinal() {
    let mut interpreter = Interpreter::new();
    run(&mut interpreter, "| generate count=3 name=a").unwrap();
    run(&mut interpreter, "| eval x = $rowcount").unwrap();
    assert_eq!(cell(&interpreter, 1, 1), "1");
    assert_eq!(cell(&interpreter, 2, 1), "2");
    assert_eq!(cell(&interpreter, 3, 1), "3");
}

#[test]
fn bare_eval_is_a_syntax_error_and_leaves_the_table_alone() {
    let mut interpreter = Interpreter::new();
    run(&mut interpreter, "| generate count=3 name=x").unwrap();
    let r = run(&mut interpreter, "| eval");
    assert!(matches!(r, Err(InterpError::SyntaxError { .. })));
    let table = interpreter.output();
    assert_eq!(table.row_count(), 4);
    assert_eq!(table.col_count(), 1);
}

#[test]
fn where_keeps_matching_rows_in_order() {
    let mut interpreter = Interpreter::new();
    run(&mut interpreter, "| generate count=3 name=a").unwrap();
    run(&mut interpreter, "| eval x = $rowcount").unwrap();
    run(&mut interpreter, "| where x == 3").unwrap();
    let table = interpreter.output();
    assert_eq!(table.row_count(), 2);
    assert_eq!(table.get_cell(1, 1).as_str(), "3");
}

#[test]
fn where_preserves_relative_order_of_survivors() {
    let mut interpreter = Interpreter::new();
    run(&mut interpreter, "| generate count=3 name=a").unwrap();
    run(&mut interpreter, "| eval x = $rowcount").unwrap();
    run(&mut interpreter, "| where x != 2").unwrap();
    let table = interpreter.output();
    assert_eq!(table.row_count(), 3);
    assert_eq!(table.get_cell(1, 1).as_str(), "1");
    assert_eq!(table.get_cell(2, 1).as_str(), "3");
}

#[test]
fn where_ordering_comparisons_are_numeric() {
    let mut interpreter = Interpreter::new();
    run(&mut interpreter, "| generate count=3 name=a").unwrap();
    run(&mut interpreter, "| eval x = $rowcount").unwrap();
    run(&mut interpreter, "| where x >= 2").unwrap();
    let table = interpreter.output();
    assert_eq!(table.row_count(), 3);
    assert_eq!(table.get_cell(1, 1).as_str(), "2");
    assert_eq!(table.get_cell(2, 1).as_str(), "3");
}

#[test]
fn where_ordering_on_text_is_a_type_error() {
    let mut interpreter = Interpreter::new();
    run(&mut interpreter, "| generate count=2 name=a").unwrap();
    let r = run(&mut interpreter, "| where a < 3");
    assert!(matches!(r, Err(InterpError::TypeError)));
}

#[test]
fn where_sees_row_ordinals_shift_during_removal() {
    // Row 1 never holds ordinal 2 at the moment it is examined: each
    // removal shifts the next row into position 1, so every row fails
    // the predicate in turn.
    let mut interpreter = Interpreter::new();
    run(&mut interpreter, "| generate count=3 name=a").unwrap();
    let r = run(&mut interpreter, "| where $rowcount == 2");
    assert!(r.is_ok());
    assert_eq!(interpreter.output().row_count(), 1);
}

#[test]
fn stubbed_commands_report_unsupported() {
    for text in ["| stats", "| top 5", "| rename a", "| remove 1", "| table"] {
        let mut interpreter = Interpreter::new();
        let r = run(&mut interpreter, text);
        assert!(matches!(r, Err(InterpError::UnsupportedOperation)));
    }
}

#[test]
fn comments_run_as_statements_with_no_effect() {
    let mut interpreter = Interpreter::new();
    run(&mut interpreter, "/* a note */").unwrap();
    assert_eq!(interpreter.output().row_count(), 1);
    run(&mut interpreter, "| generate count=1 /* trailing */").unwrap();
    assert_eq!(interpreter.output().row_count(), 2);
}

#[test]
fn statements_chain_and_stop_at_the_first_failure() {
    let mut interpreter = Interpreter::new();
    run(
        &mut interpreter,
        "| generate count=2 name=x | eval y = x | where y == \"<Empty>\"",
    )
    .unwrap();
    assert_eq!(interpreter.output().row_count(), 3);

    let r = run(
        &mut interpreter,
        "| generate count=2 name=x | eval z = q | eval w = x",
    );
    assert!(matches!(r, Err(InterpError::LookupError { .. })));
    // The failing `eval` had already created its target column (the
    // documented partial-mutation behaviour), but the run stopped there:
    // the final column was never created.
    assert_eq!(interpreter.output().col_count(), 2);
}

#[test]
fn evaluate_substitutes_and_types_values() {
    let mut env = RowEnv::new();
    env.insert(String::from("x"), String::from("41"));
    let node = ParseNode {
        variant: ParseNodeType::Value,
        children: None,
        token: Some(Token {
            token_type: TokenType::Identifier,
            value: Some(String::from("x")),
            line: 1,
            offset: 1,
        }),
    };
    let reduced = evaluate_node(&node, &env).unwrap();
    assert_eq!(reduced.token_type(), TokenType::Number);
    assert_eq!(reduced.token_value().unwrap().as_str(), "41");

    let env = RowEnv::new();
    let literal = ParseNode {
        variant: ParseNodeType::Value,
        children: None,
        token: Some(Token {
            token_type: TokenType::String,
            value: Some(String::from("word")),
            line: 1,
            offset: 1,
        }),
    };
    let reduced = <Eval as CommandExecutor>::evaluate(&literal, &env).unwrap();
    assert_eq!(reduced.token_type(), TokenType::String);
    assert_eq!(reduced.token_value().unwrap().as_str(), "word");
}

#[test]
fn classify_line_handles_the_special_words() {
    assert_eq!(classify_line("table"), ReplAction::ShowTable);
    assert_eq!(classify_line("clear"), ReplAction::ClearScreen);
    assert_eq!(classify_line("quit"), ReplAction::Quit);
    assert_eq!(classify_line(""), ReplAction::Skip);
    assert_eq!(classify_line("| generate count=1"), ReplAction::Run);
    assert_eq!(classify_line("tables"), ReplAction::Run);
}

#[test]
fn where_can_remove_every_data_row() {
    let mut interpreter = Interpreter::new();
    run(&mut interpreter, "| generate count=2 name=x").unwrap();
    let r = run(&mut interpreter, "| where x != \"<Empty>\"");
    assert!(r.is_ok());
    assert_eq!(interpreter.output().row_count(), 1);
}

#[test]
fn eval_on_an_empty_table_is_a_lookup_error() {
    let root = parse(&scan("| eval y = 1")).unwrap();
    let command = root.child(0).unwrap().child(0).unwrap();
    let mut table = Table::new();
    table.clear();
    let r = Eval::execute(command.children(), &mut table);
    assert!(matches!(r, Err(InterpError::LookupError { .. })));
}
