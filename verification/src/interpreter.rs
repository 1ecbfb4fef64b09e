//! The interpreter: dispatch parsed statements to the command executors
//! against one session table. The spec functions here fold the spec of
//! each command over a query's statements, so a whole program's effect
//! on the table is pinned down from the text up.
use vstd::prelude::*;

use crate::command::eval::{eval_cmd_spec, Eval};
use crate::command::generate::{gen_spec, Generate};
use crate::command::where_cmd::{where_cmd_spec, Where};
use crate::errors::{ErrKind, InterpError};
use crate::output::{table_wf, Table, TableV};
use crate::parser::{child_views, parse, parse_spec, NodeV, ParseNode, ParseNodeType};
use crate::scanner::{scan, scan_spec, CommandKeyword, TokenType};
use crate::text::str_eq;

verus! {

/// What one Command node does to the cell grid: `generate`, `eval` and
/// `where` run their specs; the other recognised commands are
/// unsupported; a node with no command-keyword token changes nothing.
pub open spec fn run_command(cmd: NodeV, cells: Seq<Seq<Seq<char>>>) -> (
    Seq<Seq<Seq<char>>>,
    Option<ErrKind>,
) {
    if cmd.variant != ParseNodeType::Command {
        (cells, Option::Some(ErrKind::Syntax))
    } else {
        match cmd.token {
            Option::None => (cells, Option::Some(ErrKind::Syntax)),
            Option::Some(t) => match t.token_type {
                TokenType::CommandKeyword(CommandKeyword::Generate) => {
                    match gen_spec(child_views(cmd)) {
                        Result::Ok(tv) => (tv.cells, Option::None),
                        Result::Err(k) => (cells, Option::Some(k)),
                    }
                },
                TokenType::CommandKeyword(CommandKeyword::Eval) => {
                    eval_cmd_spec(child_views(cmd), cells)
                },
                TokenType::CommandKeyword(CommandKeyword::Where) => {
                    where_cmd_spec(child_views(cmd), cells)
                },
                TokenType::CommandKeyword(_) => (cells, Option::Some(ErrKind::Unsupported)),
                _ => (cells, Option::None),
            },
        }
    }
}

/// Run a statement's children in order, stopping at the first error;
/// only Command children act.
pub open spec fn run_stmt_children(cs: Seq<NodeV>, i: int, cells: Seq<Seq<Seq<char>>>) -> (
    Seq<Seq<Seq<char>>>,
    Option<ErrKind>,
)
    decreases cs.len() - i,
    when 0 <= i
{
    if i >= cs.len() {
        (cells, Option::None)
    } else if cs[i].variant == ParseNodeType::Command {
        match run_command(cs[i], cells) {
            (c, Option::Some(k)) => (c, Option::Some(k)),
            (c, Option::None) => run_stmt_children(cs, i + 1, c),
        }
    } else {
        run_stmt_children(cs, i + 1, cells)
    }
}

/// What one Statement node does to the cell grid.
pub open spec fn run_statement(st: NodeV, cells: Seq<Seq<Seq<char>>>) -> (
    Seq<Seq<Seq<char>>>,
    Option<ErrKind>,
) {
    if st.variant != ParseNodeType::Statement {
        (cells, Option::Some(ErrKind::Syntax))
    } else {
        run_stmt_children(child_views(st), 0, cells)
    }
}

/// Run statements in order, stopping at the first error.
pub open spec fn run_statements(sts: Seq<NodeV>, i: int, cells: Seq<Seq<Seq<char>>>) -> (
    Seq<Seq<Seq<char>>>,
    Option<ErrKind>,
)
    decreases sts.len() - i,
    when 0 <= i
{
    if i >= sts.len() {
        (cells, Option::None)
    } else {
        match run_statement(sts[i], cells) {
            (c, Option::Some(k)) => (c, Option::Some(k)),
            (c, Option::None) => run_statements(sts, i + 1, c),
        }
    }
}

/// What a whole Query parse tree does to the cell grid.
pub open spec fn run_query(root: NodeV, cells: Seq<Seq<Seq<char>>>) -> (
    Seq<Seq<Seq<char>>>,
    Option<ErrKind>,
) {
    if root.variant != ParseNodeType::Query {
        (cells, Option::Some(ErrKind::Syntax))
    } else {
        run_statements(child_views(root), 0, cells)
    }
}

/// What a whole program text does to the cell grid: scan, parse, run;
/// a rejected parse is a syntax error that changes nothing.
pub open spec fn run_program(text: Seq<char>, cells: Seq<Seq<Seq<char>>>) -> (
    Seq<Seq<Seq<char>>>,
    Option<ErrKind>,
) {
    match parse_spec(scan_spec(text)) {
        Option::None => (cells, Option::Some(ErrKind::Syntax)),
        Option::Some(q) => run_query(q, cells),
    }
}

/// Whether an Expression subtree has the shape the vestigial expression
/// walker accepts: three children at every Expression node it visits.
pub open spec fn expr_walk_ok(n: NodeV) -> bool
    decreases n,
{
    match n.children {
        Option::None => false,
        Option::Some(cs) => cs.len() >= 3 && (cs[0].variant == ParseNodeType::Expression
            ==> expr_walk_ok(cs[0])) && (cs[2].variant == ParseNodeType::Expression
            ==> expr_walk_ok(cs[2])),
    }
}

/// The interpreting session: one mutable table shared by the commands.
pub struct Interpreter {
    output: Table,
}

impl Interpreter {
    /// The session table's mathematical image.
    pub closed spec fn table_view(&self) -> TableV {
        self.output@
    }

    pub fn new() -> (r: Interpreter)
        ensures
            table_wf(r.table_view()),
            r.table_view().cells =~~= seq![Seq::<Seq<char>>::empty()],
    {
        Interpreter { output: Table::new() }
    }

    /// The session table, for rendering.
    pub fn output(&self) -> (r: &Table)
        ensures
            r@ == self.table_view(),
    {
        &self.output
    }

    /// A value needs no work of its own.
    pub fn execute_value(&mut self, value: &ParseNode) -> (r: Result<(), InterpError>)
        ensures
            *final(self) == *old(self),
            r is Ok,
    {
        Ok(())
    }

    /// Walk an expression tree without reducing it; fails only on a
    /// malformed shape.
    pub fn execute_expression(&mut self, expression: &ParseNode) -> (r: Result<(), InterpError>)
        ensures
            *final(self) == *old(self),
            (r is Ok) == expr_walk_ok(expression@),
            r matches Err(e) ==> e.kind() == ErrKind::Syntax,
        decreases *expression,
    {
        let children = match &expression.children {
            Some(cs) => cs,
            None => {
                return Err(InterpError::SyntaxError { line: 0, offset: 0 });
            },
        };
        proof {
            crate::parser::lemma_node_views(children@);
        }
        if children.len() < 3 {
            return Err(InterpError::SyntaxError { line: 0, offset: 0 });
        }
        proof {
            assert(expression.children->0 == *children);
            assert(decreases_to!(*expression => expression.children));
            assert(decreases_to!(expression.children => expression.children->0));
            assert(decreases_to!(expression.children->0 => expression.children->0@));
            assert(decreases_to!(expression.children->0@ => expression.children->0@[0]));
            assert(decreases_to!(expression.children->0@ => expression.children->0@[2]));
        }
        if matches!(children[0].variant, ParseNodeType::Expression) {
            match self.execute_expression(&children[0]) {
                Ok(_) => {},
                Err(e) => {
                    return Err(e);
                },
            }
        } else {
            match self.execute_value(&children[0]) {
                Ok(_) => {},
                Err(e) => {
                    return Err(e);
                },
            }
        }
        if matches!(children[2].variant, ParseNodeType::Expression) {
            match self.execute_expression(&children[2]) {
                Ok(_) => {},
                Err(e) => {
                    return Err(e);
                },
            }
        } else {
            match self.execute_value(&children[2]) {
                Ok(_) => {},
                Err(e) => {
                    return Err(e);
                },
            }
        }
        Ok(())
    }

    /// Read an assignment's target name; fails only on a malformed
    /// shape.
    pub fn execute_assignment(&mut self, argument: &ParseNode) -> (r: Result<(), InterpError>)
        ensures
            *final(self) == *old(self),
            (r is Ok) == (argument@.children is Some && argument@.children->0.len() >= 1
                && argument@.children->0[0].token is Some
                && argument@.children->0[0].token->0.value is Some),
            r matches Err(e) ==> e.kind() == ErrKind::Syntax,
    {
        let children = match &argument.children {
            Some(cs) => cs,
            None => {
                return Err(InterpError::SyntaxError { line: 0, offset: 0 });
            },
        };
        proof {
            crate::parser::lemma_node_views(children@);
        }
        if children.len() < 1 {
            return Err(InterpError::SyntaxError { line: 0, offset: 0 });
        }
        match &children[0].token {
            Some(t) => match &t.value {
                Some(_) => Ok(()),
                None => Err(InterpError::SyntaxError { line: t.line, offset: t.offset }),
            },
            None => Err(InterpError::SyntaxError { line: 0, offset: 0 }),
        }
    }

    /// Substitution and reduction happen per command; an argument on its
    /// own only has its assignment shape checked.
    pub fn execute_argument(&mut self, argument: &ParseNode) -> (r: Result<(), InterpError>)
        ensures
            *final(self) == *old(self),
            (r is Ok) == (argument@.variant == ParseNodeType::Assignment ==> (argument@.children
                is Some && argument@.children->0.len() >= 1 && argument@.children->0[0].token
                is Some && argument@.children->0[0].token->0.value is Some)),
            r matches Err(e) ==> e.kind() == ErrKind::Syntax,
    {
        if matches!(argument.variant, ParseNodeType::Assignment) {
            return self.execute_assignment(argument);
        }
        Ok(())
    }

    /// Run one Command node against the session table.
    pub fn execute_command(&mut self, command_tree: &ParseNode) -> (r: Result<(), InterpError>)
        requires
            table_wf(old(self).table_view()),
        ensures
            table_wf(final(self).table_view()),
            final(self).table_view().cells =~~= run_command(
                command_tree@,
                old(self).table_view().cells,
            ).0,
            (r is Ok) == (run_command(command_tree@, old(self).table_view().cells).1 is None),
            r matches Err(e) ==> run_command(command_tree@, old(self).table_view().cells).1
                == Option::Some(e.kind()),
    {
        if !matches!(command_tree.variant, ParseNodeType::Command) {
            return Err(InterpError::SyntaxError { line: 0, offset: 0 });
        }
        let args = command_tree.children();
        let token = match &command_tree.token {
            Some(t) => t,
            None => {
                return Err(InterpError::SyntaxError { line: 0, offset: 0 });
            },
        };
        match token.token_type {
            TokenType::CommandKeyword(CommandKeyword::Generate) => Generate::execute(
                args,
                &mut self.output,
            ),
            TokenType::CommandKeyword(CommandKeyword::Eval) => Eval::execute(
                args,
                &mut self.output,
            ),
            TokenType::CommandKeyword(CommandKeyword::Where) => Where::execute(
                args,
                &mut self.output,
            ),
            TokenType::CommandKeyword(_) => Err(InterpError::UnsupportedOperation),
            _ => Ok(()),
        }
    }

    /// Run one Statement node: its Command children in order.
    #[verifier::loop_isolation(false)]
    pub fn execute_statement(&mut self, statement_tree: &ParseNode) -> (r: Result<
        (),
        InterpError,
    >)
        requires
            table_wf(old(self).table_view()),
        ensures
            table_wf(final(self).table_view()),
            final(self).table_view().cells =~~= run_statement(
                statement_tree@,
                old(self).table_view().cells,
            ).0,
            (r is Ok) == (run_statement(statement_tree@, old(self).table_view().cells).1 is None),
            r matches Err(e) ==> run_statement(statement_tree@, old(self).table_view().cells).1
                == Option::Some(e.kind()),
    {
        let ghost cells0 = self.table_view().cells;
        if !matches!(statement_tree.variant, ParseNodeType::Statement) {
            return Err(InterpError::SyntaxError { line: 0, offset: 0 });
        }
        let child_nodes = statement_tree.children();
        let ghost cv = child_views(statement_tree@);
        proof {
            crate::parser::lemma_node_views(child_nodes@);
        }
        let mut k: usize = 0;
        while k < child_nodes.len()
            invariant
                0 <= k <= child_nodes@.len(),
                table_wf(self.table_view()),
                run_stmt_children(cv, k as int, self.table_view().cells) == run_stmt_children(
                    cv,
                    0,
                    cells0,
                ),
            decreases child_nodes@.len() - k,
        {
            if matches!(child_nodes[k].variant, ParseNodeType::Command) {
                match self.execute_command(&child_nodes[k]) {
                    Ok(_) => {},
                    Err(e) => {
                        return Err(e);
                    },
                }
            }
            k = k + 1;
        }
        Ok(())
    }

    /// Run a whole Query parse tree: its statements in order, stopping
    /// at the first failure.
    #[verifier::loop_isolation(false)]
    pub fn execute(&mut self, parse_tree: ParseNode) -> (r: Result<(), InterpError>)
        requires
            table_wf(old(self).table_view()),
        ensures
            table_wf(final(self).table_view()),
            final(self).table_view().cells =~~= run_query(
                parse_tree@,
                old(self).table_view().cells,
            ).0,
            (r is Ok) == (run_query(parse_tree@, old(self).table_view().cells).1 is None),
            r matches Err(e) ==> run_query(parse_tree@, old(self).table_view().cells).1
                == Option::Some(e.kind()),
    {
        let ghost cells0 = self.table_view().cells;
        if !matches!(parse_tree.variant, ParseNodeType::Query) {
            return Err(InterpError::SyntaxError { line: 0, offset: 0 });
        }
        let children = parse_tree.children();
        let ghost cv = child_views(parse_tree@);
        proof {
            crate::parser::lemma_node_views(children@);
        }
        let mut k: usize = 0;
        while k < children.len()
            invariant
                0 <= k <= children@.len(),
                table_wf(self.table_view()),
                run_statements(cv, k as int, self.table_view().cells) == run_statements(
                    cv,
                    0,
                    cells0,
                ),
            decreases children@.len() - k,
        {
            match self.execute_statement(&children[k]) {
                Ok(_) => {},
                Err(e) => {
                    return Err(e);
                },
            }
            k = k + 1;
        }
        Ok(())
    }

    /// Scan, parse and run one program text against the session table.
    pub fn run_text(&mut self, text: &str) -> (r: Result<(), InterpError>)
        requires
            table_wf(old(self).table_view()),
            text@.len() < usize::MAX,
        ensures
            table_wf(final(self).table_view()),
            final(self).table_view().cells =~~= run_program(
                text@,
                old(self).table_view().cells,
            ).0,
            (r is Ok) == (run_program(text@, old(self).table_view().cells).1 is None),
            r matches Err(e) ==> run_program(text@, old(self).table_view().cells).1
                == Option::Some(e.kind()),
    {
        let tokens = scan(text);
        let parse_tree = match parse(&tokens) {
            Ok(t) => t,
            Err(e) => {
                return Err(e);
            },
        };
        self.execute(parse_tree)
    }
}

/// How the interactive shell treats one trimmed input line.
#[derive(Debug, Clone, Copy, PartialEq, Eq, Structural)]
pub enum ReplAction {
    ShowTable,
    ClearScreen,
    Quit,
    Skip,
    Run,
}

/// Which action a trimmed input line asks for.
pub open spec fn classify_line_spec(s: Seq<char>) -> ReplAction {
    if s == "table"@ {
        ReplAction::ShowTable
    } else if s == "clear"@ {
        ReplAction::ClearScreen
    } else if s == "quit"@ {
        ReplAction::Quit
    } else if s.len() == 0 {
        ReplAction::Skip
    } else {
        ReplAction::Run
    }
}

/// Decide what the interactive shell does with one trimmed input line:
/// the bare words `table`, `clear` and `quit` and the empty line are
/// handled specially; anything else runs as a statement batch.
pub fn classify_line(line: &str) -> (r: ReplAction)
    ensures
        r == classify_line_spec(line@),
{
    if str_eq(line, "table") {
        ReplAction::ShowTable
    } else if str_eq(line, "clear") {
        ReplAction::ClearScreen
    } else if str_eq(line, "quit") {
        ReplAction::Quit
    } else if line.unicode_len() == 0 {
        ReplAction::Skip
    } else {
        ReplAction::Run
    }
}

} // verus!
