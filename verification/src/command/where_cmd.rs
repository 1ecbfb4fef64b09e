//! The `where` command: keep the data rows satisfying a comparison,
//! deleting the rest in place. After a deletion the same row index is
//! examined again, since later rows have shifted down.
use vstd::prelude::*;

use crate::command::{eval_spec, evaluate_node, CommandExecutor, EvalVal};
use crate::errors::{ErrKind, InterpError};
use crate::output::{env_of_cells, table_wf, Table};
use crate::parser::{node_views, NodeV, ParseNode, ParseNodeType};
use crate::scanner::TokenType;
use crate::text::{digits_val, is_numeric_text, parse_dec_u64, str_eq};

verus! {

/// Whether two reduced values satisfy a comparison operator, or a type
/// error when an ordering comparison meets a non-numeric operand.
/// Equality and inequality compare texts; any unexpected operator keeps
/// no row.
pub open spec fn criteria_spec(op: TokenType, l: EvalVal, r: EvalVal) -> Result<bool, ErrKind> {
    if op == TokenType::Eeq {
        Result::Ok(l.text == r.text)
    } else if op == TokenType::Neq {
        Result::Ok(l.text != r.text)
    } else if op == TokenType::Gt || op == TokenType::Lt || op == TokenType::Gte || op
        == TokenType::Lte {
        if !is_numeric_text(l.text) {
            Result::Err(ErrKind::Type)
        } else if !is_numeric_text(r.text) {
            Result::Err(ErrKind::Type)
        } else {
            let ln = digits_val(l.text);
            let rn = digits_val(r.text);
            Result::Ok(
                if op == TokenType::Gt {
                    ln > rn
                } else if op == TokenType::Lt {
                    ln < rn
                } else if op == TokenType::Gte {
                    ln >= rn
                } else {
                    ln <= rn
                },
            )
        }
    } else {
        Result::Ok(false)
    }
}

/// Filter the data rows from index `i` on: a row whose predicate fails
/// is removed and the same index examined again; an evaluation or type
/// error stops the walk, leaving the rows processed so far.
pub open spec fn where_rows(
    cells: Seq<Seq<Seq<char>>>,
    lv: NodeV,
    op: TokenType,
    rv: NodeV,
    i: int,
) -> (Seq<Seq<Seq<char>>>, Option<ErrKind>)
    decreases cells.len() - i,
    when 1 <= i
{
    if i >= cells.len() {
        (cells, Option::None)
    } else {
        let env = env_of_cells(cells, i);
        match eval_spec(lv, env) {
            Result::Err(k) => (cells, Option::Some(k)),
            Result::Ok(l) => match eval_spec(rv, env) {
                Result::Err(k) => (cells, Option::Some(k)),
                Result::Ok(r) => match criteria_spec(op, l, r) {
                    Result::Err(k) => (cells, Option::Some(k)),
                    Result::Ok(met) => if met {
                        where_rows(cells, lv, op, rv, i + 1)
                    } else {
                        where_rows(cells.remove(i), lv, op, rv, i)
                    },
                },
            },
        }
    }
}

/// What `where` does to a cell grid: the sole argument must be one
/// comparison of two values; rows failing it are removed in place.
pub open spec fn where_cmd_spec(args: Seq<NodeV>, cells: Seq<Seq<Seq<char>>>) -> (
    Seq<Seq<Seq<char>>>,
    Option<ErrKind>,
) {
    if args.len() == 0 {
        (cells, Option::Some(ErrKind::Syntax))
    } else if args[0].variant != ParseNodeType::Argument {
        (cells, Option::Some(ErrKind::Syntax))
    } else if !(args[0].children is Some && args[0].children->0.len() >= 1) {
        (cells, Option::Some(ErrKind::Syntax))
    } else {
        let comparison = args[0].children->0[0];
        if comparison.variant != ParseNodeType::Comparison {
            (cells, Option::Some(ErrKind::Syntax))
        } else if !(comparison.children is Some && comparison.children->0.len() >= 3) {
            (cells, Option::Some(ErrKind::Syntax))
        } else {
            let lv = comparison.children->0[0];
            let opn = comparison.children->0[1];
            let rv = comparison.children->0[2];
            if lv.variant != ParseNodeType::Value {
                (cells, Option::Some(ErrKind::Syntax))
            } else if opn.variant != ParseNodeType::ComparisonOperator {
                (cells, Option::Some(ErrKind::Syntax))
            } else if !(opn.token is Some) {
                (cells, Option::Some(ErrKind::Syntax))
            } else if rv.variant != ParseNodeType::Value {
                (cells, Option::Some(ErrKind::Syntax))
            } else {
                where_rows(cells, lv, opn.token->0.token_type, rv, 1)
            }
        }
    }
}

pub struct Where;

impl Where {
    /// Run `where`: delete every data row whose comparison fails,
    /// keeping the surviving rows in their original relative order.
    #[verifier::loop_isolation(false)]
    pub fn execute(args: &[ParseNode], state: &mut Table) -> (r: Result<(), InterpError>)
        requires
            table_wf(old(state)@),
        ensures
            table_wf(final(state)@),
            final(state)@.cells =~~= where_cmd_spec(node_views(args@), old(state)@.cells).0,
            (r is Ok) == (where_cmd_spec(node_views(args@), old(state)@.cells).1 is None),
            r matches Err(e) ==> where_cmd_spec(node_views(args@), old(state)@.cells).1
                == Option::Some(e.kind()),
    {
        let ghost argvs = node_views(args@);
        let ghost cells0 = old(state)@.cells;
        proof {
            crate::parser::lemma_node_views(args@);
        }
        if args.len() == 0 {
            return Err(InterpError::SyntaxError { line: 0, offset: 0 });
        }
        let argument = &args[0];
        if !matches!(argument.variant, ParseNodeType::Argument) {
            return Err(InterpError::SyntaxError { line: 0, offset: 0 });
        }
        let arg_children = match &argument.children {
            Some(c) => c,
            None => {
                return Err(InterpError::SyntaxError { line: 0, offset: 0 });
            },
        };
        proof {
            crate::parser::lemma_node_views(arg_children@);
        }
        if arg_children.len() < 1 {
            return Err(InterpError::SyntaxError { line: 0, offset: 0 });
        }
        let comparison = &arg_children[0];
        if !matches!(comparison.variant, ParseNodeType::Comparison) {
            return Err(InterpError::SyntaxError { line: 0, offset: 0 });
        }
        let parts = match &comparison.children {
            Some(c) => c,
            None => {
                return Err(InterpError::SyntaxError { line: 0, offset: 0 });
            },
        };
        proof {
            crate::parser::lemma_node_views(parts@);
        }
        if parts.len() < 3 {
            return Err(InterpError::SyntaxError { line: 0, offset: 0 });
        }
        let lval = &parts[0];
        if !matches!(lval.variant, ParseNodeType::Value) {
            return Err(InterpError::SyntaxError { line: 0, offset: 0 });
        }
        let op_node = &parts[1];
        if !matches!(op_node.variant, ParseNodeType::ComparisonOperator) {
            return Err(InterpError::SyntaxError { line: 0, offset: 0 });
        }
        let operator = match &op_node.token {
            Some(t) => t.token_type,
            None => {
                return Err(InterpError::SyntaxError { line: 0, offset: 0 });
            },
        };
        let rval = &parts[2];
        if !matches!(rval.variant, ParseNodeType::Value) {
            return Err(InterpError::SyntaxError { line: 0, offset: 0 });
        }
        let ghost lv = lval@;
        let ghost rv = rval@;
        let mut counter: usize = 1;
        while counter < state.row_count()
            invariant
                1 <= counter,
                table_wf(state@),
                counter <= state@.cells.len() || state@.cells.len() == 0,
                where_rows(state@.cells, lv, operator, rv, counter as int) == where_rows(
                    cells0,
                    lv,
                    operator,
                    rv,
                    1,
                ),
            decreases state@.cells.len() - counter,
        {
            let ghost cur = state@.cells;
            let env = match state.get_row_env(counter) {
                Ok(env) => env,
                Err(e) => {
                    proof {
                        assert(false);
                    }
                    return Err(e);
                },
            };
            let lval_evaluated = match evaluate_node(lval, &env) {
                Ok(v) => v,
                Err(e) => {
                    return Err(e);
                },
            };
            let rval_evaluated = match evaluate_node(rval, &env) {
                Ok(v) => v,
                Err(e) => {
                    return Err(e);
                },
            };
            let ltext = match &lval_evaluated.token {
                Some(t) => match &t.value {
                    Some(v) => v,
                    None => {
                        proof {
                            assert(false);
                        }
                        return Err(InterpError::TypeError);
                    },
                },
                None => {
                    proof {
                        assert(false);
                    }
                    return Err(InterpError::TypeError);
                },
            };
            let rtext = match &rval_evaluated.token {
                Some(t) => match &t.value {
                    Some(v) => v,
                    None => {
                        proof {
                            assert(false);
                        }
                        return Err(InterpError::TypeError);
                    },
                },
                None => {
                    proof {
                        assert(false);
                    }
                    return Err(InterpError::TypeError);
                },
            };
            let is_criteria_met: bool = match operator {
                TokenType::Eeq => str_eq(ltext.as_str(), rtext.as_str()),
                TokenType::Neq => !str_eq(ltext.as_str(), rtext.as_str()),
                TokenType::Gt | TokenType::Lt | TokenType::Gte | TokenType::Lte => {
                    let ln = match parse_dec_u64(ltext.as_str()) {
                        Some(x) => x,
                        None => {
                            return Err(InterpError::TypeError);
                        },
                    };
                    let rn = match parse_dec_u64(rtext.as_str()) {
                        Some(x) => x,
                        None => {
                            return Err(InterpError::TypeError);
                        },
                    };
                    match operator {
                        TokenType::Gt => ln > rn,
                        TokenType::Lt => ln < rn,
                        TokenType::Gte => ln >= rn,
                        _ => ln <= rn,
                    }
                },
                _ => false,
            };
            if !is_criteria_met {
                match state.remove_row(counter) {
                    Ok(_) => {},
                    Err(e) => {
                        proof {
                            assert(false);
                        }
                        return Err(e);
                    },
                }
                proof {
                    assert(state@.cells =~~= cur.remove(counter as int));
                }
            } else {
                counter = counter + 1;
            }
        }
        Ok(())
    }
}

impl CommandExecutor for Where {
    fn execute(args: &[ParseNode], state: &mut Table) -> (r: Result<(), InterpError>) {
        Where::execute(args, state)
    }
}

/// One row list is a subsequence of another: the rows that remain stand
/// in their original relative order.
pub open spec fn is_row_subsequence(a: Seq<Seq<Seq<char>>>, b: Seq<Seq<Seq<char>>>) -> bool
    decreases b.len(),
{
    if a.len() == 0 {
        true
    } else if b.len() == 0 {
        false
    } else if a.first() == b.first() {
        is_row_subsequence(a.drop_first(), b.drop_first())
    } else {
        is_row_subsequence(a, b.drop_first())
    }
}

proof fn lemma_subsequence_refl(a: Seq<Seq<Seq<char>>>)
    ensures
        is_row_subsequence(a, a),
    decreases a.len(),
{
    if a.len() > 0 {
        lemma_subsequence_refl(a.drop_first());
    }
}

proof fn lemma_subsequence_drop_first(a: Seq<Seq<Seq<char>>>, b: Seq<Seq<Seq<char>>>)
    requires
        is_row_subsequence(a, b),
        a.len() > 0,
    ensures
        is_row_subsequence(a.drop_first(), b),
    decreases b.len(),
{
    if b.len() > 0 {
        if a.first() == b.first() {
            if a.drop_first().len() > 0 && a.drop_first().first() == b.first() {
                lemma_subsequence_drop_first(a.drop_first(), b.drop_first());
            }
        } else {
            lemma_subsequence_drop_first(a, b.drop_first());
            if a.drop_first().len() > 0 && a.drop_first().first() == b.first() {
                lemma_subsequence_drop_first(a.drop_first(), b.drop_first());
            }
        }
    }
}

proof fn lemma_subsequence_widen(a: Seq<Seq<Seq<char>>>, b: Seq<Seq<Seq<char>>>, x: Seq<Seq<char>>)
    requires
        is_row_subsequence(a, b),
    ensures
        is_row_subsequence(a, b.insert(0, x)),
{
    assert(b.insert(0, x).first() == x);
    assert(b.insert(0, x).drop_first() =~= b);
    if a.len() > 0 && a.first() == x {
        lemma_subsequence_drop_first(a, b);
    }
}

/// The rows `where` keeps stand in their original relative order: below
/// the examined index the grid is untouched, and from it on the result
/// is a subsequence of the rows it started with. This holds whether the
/// walk finishes or stops on an error.
pub proof fn lemma_where_preserves_order(
    cells: Seq<Seq<Seq<char>>>,
    lv: NodeV,
    op: TokenType,
    rv: NodeV,
    i: int,
)
    requires
        1 <= i <= cells.len(),
    ensures
        i <= where_rows(cells, lv, op, rv, i).0.len() <= cells.len(),
        where_rows(cells, lv, op, rv, i).0.take(i) =~= cells.take(i),
        is_row_subsequence(where_rows(cells, lv, op, rv, i).0.skip(i), cells.skip(i)),
    decreases cells.len() - i,
{
    if i >= cells.len() {
        assert(where_rows(cells, lv, op, rv, i).0 == cells);
        assert(cells.skip(i) =~= Seq::<Seq<Seq<char>>>::empty());
    } else {
        let env = env_of_cells(cells, i);
        let stopped = match eval_spec(lv, env) {
            Result::Err(_) => true,
            Result::Ok(l) => match eval_spec(rv, env) {
                Result::Err(_) => true,
                Result::Ok(r) => criteria_spec(op, l, r) is Err,
            },
        };
        if stopped {
            assert(where_rows(cells, lv, op, rv, i).0 == cells);
            lemma_subsequence_refl(cells.skip(i));
        } else {
            let l = eval_spec(lv, env)->Ok_0;
            let r = eval_spec(rv, env)->Ok_0;
            let met = criteria_spec(op, l, r)->Ok_0;
            if met {
                lemma_where_preserves_order(cells, lv, op, rv, i + 1);
                let res = where_rows(cells, lv, op, rv, i + 1).0;
                assert(where_rows(cells, lv, op, rv, i).0 == res);
                assert(res.take(i) =~= cells.take(i)) by {
                    assert(res.take(i + 1) =~= cells.take(i + 1));
                    assert(res.take(i) =~= res.take(i + 1).take(i));
                    assert(cells.take(i) =~= cells.take(i + 1).take(i));
                }
                assert(res[i] == cells[i]) by {
                    assert(res.take(i + 1) =~= cells.take(i + 1));
                    assert(res.take(i + 1)[i] == res[i]);
                    assert(cells.take(i + 1)[i] == cells[i]);
                }
                assert(res.skip(i).len() > 0);
                assert(res.skip(i).first() == res[i]);
                assert(cells.skip(i).first() == cells[i]);
                assert(res.skip(i).drop_first() =~= res.skip(i + 1));
                assert(cells.skip(i).drop_first() =~= cells.skip(i + 1));
                assert(is_row_subsequence(res.skip(i), cells.skip(i)));
            } else {
                let removed = cells.remove(i);
                assert(removed.len() == cells.len() - 1);
                if i < removed.len() || i == removed.len() {
                    lemma_where_preserves_order(removed, lv, op, rv, i);
                }
                let res = where_rows(removed, lv, op, rv, i).0;
                assert(where_rows(cells, lv, op, rv, i).0 == res);
                assert(removed.take(i) =~= cells.take(i));
                assert(removed.skip(i) =~= cells.skip(i + 1));
                assert(is_row_subsequence(res.skip(i), cells.skip(i + 1)));
                lemma_subsequence_widen(res.skip(i), cells.skip(i + 1), cells[i]);
                assert(cells.skip(i + 1).insert(0, cells[i]) =~= cells.skip(i));
            }
        }
    }
}

} // verus!
