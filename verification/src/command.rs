//! The per-row expression evaluator and the command executors'
//! interface. Evaluation is a pure function from a parse node and a row
//! environment to a reduced value: variables are substituted, and `+`
//! reduces left-to-right with naive numeric/string typing.
use vstd::prelude::*;

use crate::errors::{ErrKind, InterpError};
use crate::output::{table_wf, Table, RowEnv};
use crate::parser::{ParseNode, ParseNodeType, NodeV};
use crate::scanner::{Token, TokenType, TokenV};
use crate::text::{
    dec_digits, digits_val, is_digit_seq, is_numeric_text, lemma_dec_digits, parse_dec_u64,
    u128_to_dec_string,
};

pub mod generate;
pub mod eval;
pub mod where_cmd;

verus! {

/// A reduced value: its text and whether it passed the numeric sniff.
pub ghost struct EvalVal {
    pub numeric: bool,
    pub text: Seq<char>,
}

/// How a substituted text is typed: a number exactly when it is a digit
/// run whose value a machine word can hold.
pub open spec fn classify_text(s: Seq<char>) -> EvalVal {
    EvalVal { numeric: is_numeric_text(s), text: s }
}

/// The Value parse node the evaluator returns for a reduced value.
pub open spec fn eval_result_node(v: EvalVal) -> NodeV {
    NodeV {
        variant: ParseNodeType::Value,
        children: Option::None,
        token: Option::Some(
            TokenV {
                token_type: if v.numeric {
                    TokenType::Number
                } else {
                    TokenType::String
                },
                value: Option::Some(v.text),
                line: 0,
                offset: 0,
            },
        ),
    }
}

/// What evaluating a node under a row environment yields.
///
/// A Value node substitutes identifiers through the environment (an
/// unbound name is a lookup error) and types the text; an Expression
/// node reduces its sides and applies `+`: numeric addition when both
/// sides are numbers, else concatenation. Subtraction is accepted by the
/// grammar but unsupported here, and any other node shape is a syntax
/// error.
pub open spec fn eval_spec(n: NodeV, env: Map<Seq<char>, Seq<char>>) -> Result<EvalVal, ErrKind>
    decreases n,
{
    if n.variant == ParseNodeType::Value {
        match n.token {
            Option::None => Result::Err(ErrKind::Syntax),
            Option::Some(t) => match t.value {
                Option::None => Result::Err(ErrKind::Syntax),
                Option::Some(tv) => {
                    if t.token_type == TokenType::Identifier || t.token_type
                        == TokenType::SpecialIdentifier {
                        if env.contains_key(tv) {
                            Result::Ok(classify_text(env[tv]))
                        } else {
                            Result::Err(ErrKind::Lookup)
                        }
                    } else {
                        Result::Ok(classify_text(tv))
                    }
                },
            },
        }
    } else if n.variant == ParseNodeType::Expression {
        match n.children {
            Option::None => Result::Err(ErrKind::Syntax),
            Option::Some(cs) => {
                if cs.len() < 3 {
                    Result::Err(ErrKind::Syntax)
                } else {
                    match eval_spec(cs[0], env) {
                        Result::Err(e) => Result::Err(e),
                        Result::Ok(l) => {
                            if cs[1].variant != ParseNodeType::ArithmeticOperator {
                                Result::Err(ErrKind::Syntax)
                            } else {
                                match eval_spec(cs[2], env) {
                                    Result::Err(e) => Result::Err(e),
                                    Result::Ok(r) => {
                                        if cs[1].token matches Option::Some(t) && t.token_type
                                            == TokenType::Add {
                                            if l.numeric && r.numeric {
                                                if digits_val(l.text) <= u64::MAX && digits_val(
                                                    r.text,
                                                ) <= u64::MAX {
                                                    Result::Ok(
                                                        EvalVal {
                                                            numeric: true,
                                                            text: dec_digits(
                                                                digits_val(l.text) + digits_val(
                                                                    r.text,
                                                                ),
                                                            ),
                                                        },
                                                    )
                                                } else {
                                                    Result::Err(ErrKind::Type)
                                                }
                                            } else {
                                                Result::Ok(
                                                    EvalVal {
                                                        numeric: false,
                                                        text: l.text + r.text,
                                                    },
                                                )
                                            }
                                        } else {
                                            Result::Err(ErrKind::Unsupported)
                                        }
                                    },
                                }
                            }
                        },
                    }
                }
            },
        }
    } else {
        Result::Err(ErrKind::Syntax)
    }
}

/// A value the evaluator types as a number holds digits only.
pub proof fn lemma_eval_numeric_digits(n: NodeV, env: Map<Seq<char>, Seq<char>>)
    ensures
        eval_spec(n, env) matches Ok(v) ==> v.numeric ==> is_digit_seq(v.text),
    decreases n,
{
    if n.variant == ParseNodeType::Expression {
        match n.children {
            Option::None => {},
            Option::Some(cs) => {
                if cs.len() >= 3 {
                    match eval_spec(n, env) {
                        Result::Ok(v) => {
                            if v.numeric {
                                lemma_dec_digits(v.text.len() as nat);
                                match eval_spec(cs[0], env) {
                                    Result::Ok(l) => match eval_spec(cs[2], env) {
                                        Result::Ok(r) => {
                                            lemma_dec_digits(
                                                digits_val(l.text) + digits_val(r.text),
                                            );
                                        },
                                        Result::Err(_) => {},
                                    },
                                    Result::Err(_) => {},
                                }
                            }
                        },
                        Result::Err(_) => {},
                    }
                }
            },
        }
    }
}

/// Evaluate a Value or Expression node against a row environment,
/// yielding a reduced Value node or the first evaluation error.
pub fn evaluate_node(val_or_expr: &ParseNode, env: &RowEnv) -> (r: Result<ParseNode, InterpError>)
    ensures
        r matches Ok(n) ==> eval_spec(val_or_expr@, env@) matches Ok(v) && n@ == eval_result_node(
            v,
        ),
        r matches Err(e) ==> eval_spec(val_or_expr@, env@) matches Err(k) && e.kind() == k,
    decreases *val_or_expr,
{
    if val_or_expr.variant == ParseNodeType::Value {
        let token = match &val_or_expr.token {
            Some(t) => t,
            None => {
                return Err(InterpError::SyntaxError { line: 0, offset: 0 });
            },
        };
        let tvalue = match &token.value {
            Some(v) => v,
            None => {
                return Err(InterpError::SyntaxError { line: token.line, offset: token.offset });
            },
        };
        let is_var = matches!(token.token_type, TokenType::Identifier)
            || matches!(token.token_type, TokenType::SpecialIdentifier);
        let token_value: String = if is_var {
            match env.get(tvalue.as_str()) {
                Some(v) => v.clone(),
                None => {
                    return Err(InterpError::LookupError { name: tvalue.clone() });
                },
            }
        } else {
            tvalue.clone()
        };
        let token_type = if parse_dec_u64(token_value.as_str()).is_some() {
            TokenType::Number
        } else {
            TokenType::String
        };
        Ok(
            ParseNode {
                variant: ParseNodeType::Value,
                children: None,
                token: Some(Token { token_type, value: Some(token_value), line: 0, offset: 0 }),
            },
        )
    } else if val_or_expr.variant == ParseNodeType::Expression {
        let cs = match &val_or_expr.children {
            Some(c) => c,
            None => {
                return Err(InterpError::SyntaxError { line: 0, offset: 0 });
            },
        };
        proof {
            crate::parser::lemma_node_views(cs@);
        }
        if cs.len() < 3 {
            return Err(InterpError::SyntaxError { line: 0, offset: 0 });
        }
        proof {
            assert(val_or_expr.children->0 == *cs);
            assert(decreases_to!(*val_or_expr => val_or_expr.children));
            assert(decreases_to!(val_or_expr.children => val_or_expr.children->0));
            assert(decreases_to!(val_or_expr.children->0 => val_or_expr.children->0@));
            assert(decreases_to!(val_or_expr.children->0@ => val_or_expr.children->0@[0]));
            assert(decreases_to!(val_or_expr.children->0@ => val_or_expr.children->0@[2]));
        }
        let lvalue = match evaluate_node(&cs[0], env) {
            Ok(v) => v,
            Err(e) => {
                return Err(e);
            },
        };
        if cs[1].variant != ParseNodeType::ArithmeticOperator {
            return Err(InterpError::SyntaxError { line: 0, offset: 0 });
        }
        let rvalue = match evaluate_node(&cs[2], env) {
            Ok(v) => v,
            Err(e) => {
                return Err(e);
            },
        };
        let is_add = match &cs[1].token {
            Some(t) => matches!(t.token_type, TokenType::Add),
            None => false,
        };
        if is_add {
            let ltoken = match &lvalue.token {
                Some(t) => t,
                None => {
                    proof {
                        assert(false);
                    }
                    return Err(InterpError::SyntaxError { line: 0, offset: 0 });
                },
            };
            let rtoken = match &rvalue.token {
                Some(t) => t,
                None => {
                    proof {
                        assert(false);
                    }
                    return Err(InterpError::SyntaxError { line: 0, offset: 0 });
                },
            };
            let ltext = match &ltoken.value {
                Some(v) => v,
                None => {
                    proof {
                        assert(false);
                    }
                    return Err(InterpError::SyntaxError { line: 0, offset: 0 });
                },
            };
            let rtext = match &rtoken.value {
                Some(v) => v,
                None => {
                    proof {
                        assert(false);
                    }
                    return Err(InterpError::SyntaxError { line: 0, offset: 0 });
                },
            };
            if matches!(ltoken.token_type, TokenType::Number) && matches!(
                rtoken.token_type,
                TokenType::Number,
            ) {
                proof {
                    lemma_eval_numeric_digits(cs@[0]@, env@);
                    lemma_eval_numeric_digits(cs@[2]@, env@);
                }
                let lnum = match parse_dec_u64(ltext.as_str()) {
                    Some(x) => x,
                    None => {
                        return Err(InterpError::TypeError);
                    },
                };
                let rnum = match parse_dec_u64(rtext.as_str()) {
                    Some(x) => x,
                    None => {
                        return Err(InterpError::TypeError);
                    },
                };
                let total: u128 = lnum as u128 + rnum as u128;
                let res = u128_to_dec_string(total);
                Ok(
                    ParseNode {
                        variant: ParseNodeType::Value,
                        children: None,
                        token: Some(
                            Token {
                                token_type: TokenType::Number,
                                value: Some(res),
                                line: 0,
                                offset: 0,
                            },
                        ),
                    },
                )
            } else {
                let mut res = ltext.clone();
                res.append(rtext.as_str());
                Ok(
                    ParseNode {
                        variant: ParseNodeType::Value,
                        children: None,
                        token: Some(
                            Token {
                                token_type: TokenType::String,
                                value: Some(res),
                                line: 0,
                                offset: 0,
                            },
                        ),
                    },
                )
            }
        } else {
            Err(InterpError::UnsupportedOperation)
        }
    } else {
        Err(InterpError::SyntaxError { line: 0, offset: 0 })
    }
}

/// What every command executor offers: run against the table, and the
/// shared expression evaluator.
pub trait CommandExecutor {
    /// Run the command's argument nodes against the table; the table
    /// invariant is preserved whatever happens.
    fn execute(args: &[ParseNode], state: &mut Table) -> (r: Result<(), InterpError>)
        requires
            table_wf(old(state)@),
        ensures
            table_wf(final(state)@),
    ;

    /// Evaluate a Value or Expression node under a row environment.
    fn evaluate(val_or_expr: &ParseNode, env: &RowEnv) -> (r: Result<ParseNode, InterpError>)
        ensures
            r matches Ok(n) ==> eval_spec(val_or_expr@, env@) matches Ok(v) && n@
                == eval_result_node(v),
            r matches Err(e) ==> eval_spec(val_or_expr@, env@) matches Err(k) && e.kind() == k,
    {
        evaluate_node(val_or_expr, env)
    }
}

} // verus!
