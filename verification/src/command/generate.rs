//! The `generate` command: clear the table, create one column and fill
//! it with a requested number of empty-marker rows.
use vstd::prelude::*;

use crate::command::CommandExecutor;
use crate::errors::{ErrKind, InterpError};
use crate::output::{col_max, empty_marker, table_wf, Table, TableV};
use crate::parser::{child_views, node_views, NodeV, ParseNode, ParseNodeType};
use crate::text::{digits_val, is_numeric_text, parse_dec_u64};

verus! {

/// Walk one argument's assignments, collecting the latest `count` and
/// `name` values; any clause that is not an assignment fails.
pub open spec fn scan_gen_args(
    cs: Seq<NodeV>,
    i: int,
    count: Option<Seq<char>>,
    name: Option<Seq<char>>,
) -> Result<(Option<Seq<char>>, Option<Seq<char>>), ErrKind>
    decreases cs.len() - i,
    when 0 <= i
{
    if i >= cs.len() {
        Result::Ok((count, name))
    } else {
        let a = cs[i];
        if a.variant != ParseNodeType::Assignment {
            Result::Err(ErrKind::Syntax)
        } else if !(a.children is Some && a.children->0.len() >= 2) {
            Result::Err(ErrKind::Syntax)
        } else {
            let ident = a.children->0[0];
            if !(ident.token is Some && ident.token->0.value is Some) {
                Result::Err(ErrKind::Syntax)
            } else {
                let key = ident.token->0.value->0;
                let v1 = a.children->0[1];
                let value = if v1.token is Some && v1.token->0.value is Some {
                    Option::Some(v1.token->0.value->0)
                } else {
                    Option::<Seq<char>>::None
                };
                if key == "count"@ {
                    scan_gen_args(cs, i + 1, value, name)
                } else if key == "name"@ {
                    scan_gen_args(cs, i + 1, count, value)
                } else {
                    scan_gen_args(cs, i + 1, count, name)
                }
            }
        }
    }
}

/// The cell grid `generate` leaves behind: one named header column over
/// `count` empty-marker rows.
pub open spec fn gen_cells(name: Seq<char>, count: nat) -> Seq<Seq<Seq<char>>> {
    Seq::new(
        count + 1,
        |i: int|
            if i == 0 {
                seq![name]
            } else {
                seq![empty_marker()]
            },
    )
}

/// What `generate` does: it requires an integer `count` assignment,
/// accepts an optional `name` (default `$1`), and replaces the whole
/// table.
pub open spec fn gen_spec(args: Seq<NodeV>) -> Result<TableV, ErrKind> {
    if args.len() == 0 {
        Result::Err(ErrKind::Syntax)
    } else {
        match scan_gen_args(child_views(args[0]), 0, Option::None, Option::None) {
            Result::Err(k) => Result::Err(k),
            Result::Ok((copt, nopt)) => match copt {
                Option::None => Result::Err(ErrKind::Syntax),
                Option::Some(ct) => {
                    if !is_numeric_text(ct) {
                        Result::Err(ErrKind::Type)
                    } else {
                        let name = match nopt {
                            Option::Some(nm) => nm,
                            Option::None => "$1"@,
                        };
                        let cells = gen_cells(name, digits_val(ct));
                        Result::Ok(TableV { cells, max_width: seq![col_max(cells, 0)] })
                    }
                },
            },
        }
    }
}

pub struct Generate {}

impl Generate {
    /// Run `generate`: on success the table holds exactly the generated
    /// grid; on failure it is untouched.
    #[verifier::loop_isolation(false)]
    pub fn execute(args: &[ParseNode], state: &mut Table) -> (r: Result<(), InterpError>)
        requires
            table_wf(old(state)@),
        ensures
            table_wf(final(state)@),
            match gen_spec(node_views(args@)) {
                Result::Ok(tv) => r is Ok && final(state)@.cells =~~= tv.cells,
                Result::Err(k) => {
                    &&& r matches Err(e) && e.kind() == k
                    &&& final(state)@ == old(state)@
                },
            },
    {
        let ghost argvs = node_views(args@);
        proof {
            crate::parser::lemma_node_views(args@);
        }
        if args.len() == 0 {
            return Err(InterpError::SyntaxError { line: 0, offset: 0 });
        }
        let mut count_arg: Option<String> = None;
        let mut name_arg: Option<String> = None;
        let children = args[0].children();
        let ghost cv = child_views(argvs[0]);
        proof {
            crate::parser::lemma_node_views(children@);
        }
        let mut k: usize = 0;
        while k < children.len()
            invariant
                0 <= k <= children@.len(),
                scan_gen_args(cv, 0, Option::None, Option::None) == scan_gen_args(
                    cv,
                    k as int,
                    crate::scanner::opt_str_view(count_arg),
                    crate::scanner::opt_str_view(name_arg),
                ),
            decreases children@.len() - k,
        {
            let arg = &children[k];
            proof {
                assert(arg@ == cv[k as int]);
            }
            if !matches!(arg.variant, ParseNodeType::Assignment) {
                return Err(InterpError::SyntaxError { line: 0, offset: 0 });
            }
            let cs = match &arg.children {
                Some(c) => c,
                None => {
                    return Err(InterpError::SyntaxError { line: 0, offset: 0 });
                },
            };
            proof {
                crate::parser::lemma_node_views(cs@);
            }
            if cs.len() < 2 {
                return Err(InterpError::SyntaxError { line: 0, offset: 0 });
            }
            let identifier = match &cs[0].token {
                Some(t) => match &t.value {
                    Some(v) => v,
                    None => {
                        return Err(InterpError::SyntaxError { line: 0, offset: 0 });
                    },
                },
                None => {
                    return Err(InterpError::SyntaxError { line: 0, offset: 0 });
                },
            };
            let value: Option<String> = match &cs[1].token {
                Some(t) => match &t.value {
                    Some(v) => Some(v.clone()),
                    None => None,
                },
                None => None,
            };
            if crate::text::str_eq(identifier.as_str(), "count") {
                count_arg = value;
            } else if crate::text::str_eq(identifier.as_str(), "name") {
                name_arg = value;
            }
            k = k + 1;
        }
        let count_text = match count_arg {
            Some(c) => c,
            None => {
                return Err(InterpError::SyntaxError { line: 0, offset: 0 });
            },
        };
        let count = match parse_dec_u64(count_text.as_str()) {
            Some(c) => c,
            None => {
                return Err(InterpError::TypeError);
            },
        };
        state.clear();
        let name = match name_arg {
            Some(n) => n,
            None => String::from_str("$1"),
        };
        let ghost nm = name@;
        state.add_col(&name, None);
        proof {
            assert(state@.cells =~~= gen_cells(nm, 0));
        }
        let mut i: u64 = 0;
        while i < count
            invariant
                0 <= i <= count,
                table_wf(state@),
                state@.cells =~~= gen_cells(nm, i as nat),
            decreases count - i,
        {
            let mut e: Vec<String> = Vec::new();
            e.push(String::from_str("<Empty>"));
            let ghost before = state@.cells;
            proof {
                crate::output::lemma_row_view(e@);
            }
            match state.try_add_row(e) {
                Ok(_) => {},
                Err(err) => {
                    proof {
                        assert(false);
                    }
                    return Err(err);
                },
            }
            proof {
                assert(state@.cells =~~= gen_cells(nm, i as nat + 1));
            }
            i = i + 1;
        }
        Ok(())
    }
}

impl CommandExecutor for Generate {
    fn execute(args: &[ParseNode], state: &mut Table) -> (r: Result<(), InterpError>) {
        Generate::execute(args, state)
    }
}

} // verus!
