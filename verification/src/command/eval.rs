//! The `eval` command: resolve or create a target column and write the
//! evaluated right-hand side into it for every data row.
use vstd::prelude::*;

use crate::command::{eval_result_node, eval_spec, evaluate_node, CommandExecutor, EvalVal};
use crate::errors::{ErrKind, InterpError};
use crate::output::{env_of_cells, find_col, table_wf, Table};
use crate::parser::{child_views, is_name_token, node_views, NodeV, ParseNode, ParseNodeType};

verus! {

/// A cell grid with one fresh column appended: its name on the header,
/// empty text on every data row.
pub open spec fn push_col(cells: Seq<Seq<Seq<char>>>, name: Seq<char>) -> Seq<Seq<Seq<char>>> {
    Seq::new(
        cells.len(),
        |r: int|
            if r == 0 {
                cells[0].push(name)
            } else {
                cells[r].push(Seq::<char>::empty())
            },
    )
}

/// Evaluate the right-hand side against each data row from `i` on,
/// writing the result into column `col` of that row; stops at the first
/// evaluation error, leaving earlier rows updated.
pub open spec fn eval_rows(cells: Seq<Seq<Seq<char>>>, col: int, rhs: NodeV, i: int) -> (
    Seq<Seq<Seq<char>>>,
    Option<ErrKind>,
)
    decreases cells.len() - i,
    when 0 <= i
{
    if i >= cells.len() {
        (cells, Option::None)
    } else {
        match eval_spec(rhs, env_of_cells(cells, i)) {
            Result::Err(k) => (cells, Option::Some(k)),
            Result::Ok(v) => eval_rows(
                cells.update(i, cells[i].update(col, v.text)),
                col,
                rhs,
                i + 1,
            ),
        }
    }
}

/// What `eval` does to a cell grid: the sole argument must be one
/// assignment of an expression or value to a plain or special
/// identifier; the named column is found or created, and every data row
/// gets the evaluated value. A malformed argument shape changes nothing.
pub open spec fn eval_cmd_spec(args: Seq<NodeV>, cells: Seq<Seq<Seq<char>>>) -> (
    Seq<Seq<Seq<char>>>,
    Option<ErrKind>,
) {
    if args.len() == 0 {
        (cells, Option::Some(ErrKind::Syntax))
    } else if args[0].variant != ParseNodeType::Argument {
        (cells, Option::Some(ErrKind::Syntax))
    } else if !(args[0].children is Some && args[0].children->0.len() >= 1) {
        (cells, Option::Some(ErrKind::Syntax))
    } else {
        let assignment = args[0].children->0[0];
        if assignment.variant != ParseNodeType::Assignment {
            (cells, Option::Some(ErrKind::Syntax))
        } else if !(assignment.children is Some && assignment.children->0.len() >= 2) {
            (cells, Option::Some(ErrKind::Syntax))
        } else {
            let ident = assignment.children->0[0];
            if ident.variant != ParseNodeType::Value {
                (cells, Option::Some(ErrKind::Syntax))
            } else if !(ident.token is Some && is_name_token(ident.token->0.token_type)) {
                (cells, Option::Some(ErrKind::Syntax))
            } else if !(ident.token->0.value is Some) {
                (cells, Option::Some(ErrKind::Syntax))
            } else {
                let rhs = assignment.children->0[1];
                if !(rhs.variant == ParseNodeType::Expression || rhs.variant
                    == ParseNodeType::Value) {
                    (cells, Option::Some(ErrKind::Syntax))
                } else if cells.len() == 0 {
                    (cells, Option::Some(ErrKind::Lookup))
                } else {
                    let name = ident.token->0.value->0;
                    match find_col(cells[0], name) {
                        Option::Some(ix) => eval_rows(cells, ix, rhs, 1),
                        Option::None => eval_rows(
                            push_col(cells, name),
                            cells[0].len() as int,
                            rhs,
                            1,
                        ),
                    }
                }
            }
        }
    }
}

pub struct Eval {}

impl Eval {
    /// Run `eval`: modify or create a column, writing the evaluated
    /// right-hand side into every data row; a mid-loop failure leaves
    /// the earlier rows updated.
    #[verifier::loop_isolation(false)]
    pub fn execute(args: &[ParseNode], state: &mut Table) -> (r: Result<(), InterpError>)
        requires
            table_wf(old(state)@),
        ensures
            table_wf(final(state)@),
            final(state)@.cells =~~= eval_cmd_spec(node_views(args@), old(state)@.cells).0,
            (r is Ok) == (eval_cmd_spec(node_views(args@), old(state)@.cells).1 is None),
            r matches Err(e) ==> eval_cmd_spec(node_views(args@), old(state)@.cells).1
                == Option::Some(e.kind()),
    {
        let ghost argvs = node_views(args@);
        let ghost cells0 = old(state)@.cells;
        proof {
            crate::parser::lemma_node_views(args@);
        }
        if args.len() == 0 {
            return Err(InterpError::SyntaxError { line: 0, offset: 0 });
        }
        let argument = &args[0];
        if !matches!(argument.variant, ParseNodeType::Argument) {
            return Err(InterpError::SyntaxError { line: 0, offset: 0 });
        }
        let arg_children = match &argument.children {
            Some(c) => c,
            None => {
                return Err(InterpError::SyntaxError { line: 0, offset: 0 });
            },
        };
        proof {
            crate::parser::lemma_node_views(arg_children@);
        }
        if arg_children.len() < 1 {
            return Err(InterpError::SyntaxError { line: 0, offset: 0 });
        }
        let assignment = &arg_children[0];
        if !matches!(assignment.variant, ParseNodeType::Assignment) {
            return Err(InterpError::SyntaxError { line: 0, offset: 0 });
        }
        let parts = match &assignment.children {
            Some(c) => c,
            None => {
                return Err(InterpError::SyntaxError { line: 0, offset: 0 });
            },
        };
        proof {
            crate::parser::lemma_node_views(parts@);
        }
        if parts.len() < 2 {
            return Err(InterpError::SyntaxError { line: 0, offset: 0 });
        }
        let ident_node = &parts[0];
        if !matches!(ident_node.variant, ParseNodeType::Value) {
            return Err(InterpError::SyntaxError { line: 0, offset: 0 });
        }
        let identifier = match &ident_node.token {
            Some(t) => {
                if !(matches!(t.token_type, crate::scanner::TokenType::Identifier) || matches!(
                    t.token_type,
                    crate::scanner::TokenType::SpecialIdentifier,
                )) {
                    return Err(InterpError::SyntaxError { line: t.line, offset: t.offset });
                }
                match &t.value {
                    Some(v) => v,
                    None => {
                        return Err(InterpError::SyntaxError { line: t.line, offset: t.offset });
                    },
                }
            },
            None => {
                return Err(InterpError::SyntaxError { line: 0, offset: 0 });
            },
        };
        let val_or_expr = &parts[1];
        if !(matches!(val_or_expr.variant, ParseNodeType::Expression) || matches!(
            val_or_expr.variant,
            ParseNodeType::Value,
        )) {
            return Err(InterpError::SyntaxError { line: 0, offset: 0 });
        }
        let ghost rhs = val_or_expr@;
        if state.row_count() == 0 {
            return Err(InterpError::LookupError { name: identifier.clone() });
        }
        let col_index = match state.get_or_create_column(identifier) {
            Ok(ix) => ix,
            Err(e) => {
                proof {
                    assert(false);
                }
                return Err(e);
            },
        };
        let ghost cells1 = state@.cells;
        proof {
            crate::output::lemma_find_col(cells0[0], identifier@);
            match find_col(cells0[0], identifier@) {
                Option::Some(_) => {},
                Option::None => {
                    assert(cells1 =~~= push_col(cells0, identifier@));
                },
            }
        }
        let row_count: usize = state.row_count();
        let mut i: usize = 1;
        while i < row_count
            invariant
                1 <= i <= row_count,
                table_wf(state@),
                state@.cells.len() == row_count,
                col_index < state@.cells[0].len(),
                eval_rows(state@.cells, col_index as int, rhs, i as int) == eval_rows(
                    cells1,
                    col_index as int,
                    rhs,
                    1,
                ),
            decreases row_count - i,
        {
            let ghost cur = state@.cells;
            let env = match state.get_row_env(i) {
                Ok(env) => env,
                Err(e) => {
                    proof {
                        assert(false);
                    }
                    return Err(e);
                },
            };
            let evaluated_val = match evaluate_node(val_or_expr, &env) {
                Ok(v) => v,
                Err(e) => {
                    return Err(e);
                },
            };
            let text = match &evaluated_val.token {
                Some(t) => match &t.value {
                    Some(v) => v,
                    None => {
                        proof {
                            assert(false);
                        }
                        return Err(InterpError::TypeError);
                    },
                },
                None => {
                    proof {
                        assert(false);
                    }
                    return Err(InterpError::TypeError);
                },
            };
            match state.set_cell(col_index, i, text) {
                Ok(_) => {},
                Err(e) => {
                    proof {
                        assert(false);
                    }
                    return Err(e);
                },
            }
            proof {
                assert(state@.cells =~~= cur.update(
                    i as int,
                    cur[i as int].update(col_index as int, text@),
                ));
            }
            i = i + 1;
        }
        Ok(())
    }
}

impl CommandExecutor for Eval {
    fn execute(args: &[ParseNode], state: &mut Table) -> (r: Result<(), InterpError>) {
        Eval::execute(args, state)
    }
}

} // verus!
