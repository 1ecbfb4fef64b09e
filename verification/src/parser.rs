//! Recursive-descent parser with explicit backtracking over an
//! index-based token cursor. Each grammar rule is defined once as a spec
//! function over the token sequence and once as an executable method
//! proved to return exactly what the spec rule says.
use vstd::prelude::*;

use crate::errors::{ErrKind, InterpError};
use crate::scanner::{lemma_toks_view, toks_view, Token, TokenType, TokenV};

verus! {

/// The kinds of parse-tree node.
#[derive(Debug, Clone, Copy, PartialEq, Eq, Structural)]
pub enum ParseNodeType {
    Value,
    ArithmeticOperator,
    ComparisonOperator,
    Comparison,
    Expression,
    Assignment,
    Argument,
    Command,
    Comment,
    Statement,
    Query,
}

/// One node of the parse tree. Leaf, operator and command kinds carry a
/// token; composite kinds carry children.
#[derive(Debug)]
pub struct ParseNode {
    pub variant: ParseNodeType,
    pub children: Option<Vec<ParseNode>>,
    pub token: Option<Token>,
}

/// The mathematical image of a parse node.
pub ghost struct NodeV {
    pub variant: ParseNodeType,
    pub children: Option<Seq<NodeV>>,
    pub token: Option<TokenV>,
}

/// The views of a sequence of nodes.
pub open spec fn node_views(cs: Seq<ParseNode>) -> Seq<NodeV>
    decreases cs,
{
    if cs.len() == 0 {
        Seq::empty()
    } else {
        node_views(cs.drop_last()).push(cs.last().view())
    }
}

impl View for ParseNode {
    type V = NodeV;

    open spec fn view(&self) -> NodeV
        decreases self,
    {
        NodeV {
            variant: self.variant,
            children: match self.children {
                Option::Some(cs) => Option::Some(node_views(cs@)),
                Option::None => Option::None,
            },
            token: match self.token {
                Option::Some(t) => Option::Some(t@),
                Option::None => Option::None,
            },
        }
    }
}

pub proof fn lemma_node_views(cs: Seq<ParseNode>)
    ensures
        node_views(cs).len() == cs.len(),
        forall|i: int| 0 <= i < cs.len() ==> #[trigger] node_views(cs)[i] == cs[i]@,
    decreases cs.len(),
{
    if cs.len() > 0 {
        lemma_node_views(cs.drop_last());
        assert(node_views(cs) == node_views(cs.drop_last()).push(cs.last()@));
        assert forall|i: int| 0 <= i < cs.len() implies #[trigger] node_views(cs)[i]
            == cs[i]@ by {
            if i < cs.len() - 1 {
                assert(node_views(cs)[i] == node_views(cs.drop_last())[i]);
                assert(cs.drop_last()[i] == cs[i]);
            } else {
                assert(node_views(cs)[i] == cs.last()@);
            }
        }
    }
}

impl Clone for ParseNode {
    fn clone(&self) -> (r: ParseNode)
        ensures
            r@ == self@,
        decreases *self,
    {
        let children = match &self.children {
            Some(cs) => {
                let mut v: Vec<ParseNode> = Vec::new();
                let mut k: usize = 0;
                while k < cs.len()
                    invariant
                        0 <= k <= cs@.len(),
                        v@.len() == k,
                        forall|i: int| 0 <= i < k ==> #[trigger] v@[i]@ == cs@[i]@,
                        self.children is Some,
                        *cs == self.children->0,
                    decreases cs@.len() - k,
                {
                    proof {
                        assert(self.children->0 == *cs);
                        assert(decreases_to!(*self => self.children));
                        assert(decreases_to!(self.children => self.children->0));
                        assert(decreases_to!(self.children->0 => self.children->0@));
                        assert(decreases_to!(self.children->0@ => self.children->0@[k as int]));
                        assert(decreases_to!(*self => cs@[k as int]));
                    }
                    let c = cs[k].clone();
                    v.push(c);
                    k = k + 1;
                }
                proof {
                    lemma_node_views(v@);
                    lemma_node_views(cs@);
                    assert(node_views(v@) =~= node_views(cs@));
                }
                Some(v)
            },
            None => None,
        };
        let token = match &self.token {
            Some(t) => Some(t.clone()),
            None => None,
        };
        ParseNode { variant: self.variant, children, token }
    }
}

/// The children sequence of a node's view: empty when it has none.
pub open spec fn child_views(n: NodeV) -> Seq<NodeV> {
    match n.children {
        Option::Some(cs) => cs,
        Option::None => Seq::empty(),
    }
}

impl ParseNode {
    /// Return child nodes safely.
    pub fn children(&self) -> (r: &[ParseNode])
        ensures
            node_views(r@) == child_views(self@),
    {
        match &self.children {
            Some(v) => v.as_slice(),
            None => &[],
        }
    }

    /// Get first child if it exists.
    pub fn first_child(&self) -> (r: Option<&ParseNode>)
        ensures
            (r is Some) == (self.children is Some && self.children->0@.len() > 0),
            r matches Some(n) ==> *n == self.children->0@[0],
    {
        match &self.children {
            Some(v) => {
                if v.len() > 0 {
                    Some(&v[0])
                } else {
                    None
                }
            },
            None => None,
        }
    }

    /// Get the child at `index`.
    pub fn child(&self, index: usize) -> (r: Option<&ParseNode>)
        ensures
            (r is Some) == (self.children is Some && index < self.children->0@.len()),
            r matches Some(n) ==> *n == self.children->0@[index as int],
    {
        match &self.children {
            Some(v) => {
                if index < v.len() {
                    Some(&v[index])
                } else {
                    None
                }
            },
            None => None,
        }
    }

    /// Get the token's string value, if one is present.
    pub fn token_value(&self) -> (r: Option<&String>)
        ensures
            (r is Some) == (self.token is Some && self.token->0.value is Some),
            r matches Some(v) ==> *v == self.token->0.value->0,
    {
        match &self.token {
            Some(t) => {
                match &t.value {
                    Some(v) => Some(v),
                    None => None,
                }
            },
            None => None,
        }
    }

    /// Get the token's type; the node must carry a token.
    pub fn token_type(&self) -> (r: TokenType)
        requires
            self.token is Some,
        ensures
            r == self.token->0.token_type,
    {
        match &self.token {
            Some(t) => t.token_type,
            None => TokenType::EOF,
        }
    }

    /// Find the first child of a given kind.
    pub fn find_child_of_type(&self, kind: ParseNodeType) -> (r: Option<&ParseNode>)
        ensures
            (r is Some) == (exists|i: int|
                0 <= i < child_views(self@).len() && child_views(self@)[i].variant == kind),
            r matches Some(n) ==> exists|i: int|
                {
                    &&& 0 <= i < child_views(self@).len()
                    &&& #[trigger] child_views(self@)[i].variant == kind
                    &&& n@ == child_views(self@)[i]
                    &&& forall|j: int| 0 <= j < i ==> child_views(self@)[j].variant != kind
                },
    {
        let cs = self.children();
        proof {
            lemma_node_views(cs@);
        }
        let mut k: usize = 0;
        while k < cs.len()
            invariant
                0 <= k <= cs@.len(),
                node_views(cs@) == child_views(self@),
                forall|j: int| 0 <= j < k ==> child_views(self@)[j].variant != kind,
            decreases cs@.len() - k,
        {
            proof {
                lemma_node_views(cs@);
                assert(node_views(cs@)[k as int] == cs@[k as int]@);
                assert(child_views(self@)[k as int].variant == cs@[k as int].variant);
            }
            if cs[k].variant == kind {
                let n = &cs[k];
                proof {
                    assert(n@ == child_views(self@)[k as int]);
                }
                return Some(n);
            }
            k = k + 1;
        }
        None
    }

    /// The node itself when it has the expected kind, else a syntax
    /// error.
    pub fn expect_type(&self, kind: ParseNodeType) -> (r: Result<&ParseNode, InterpError>)
        ensures
            (r is Ok) == (self.variant == kind),
            r matches Ok(n) ==> *n == *self,
            r matches Err(e) ==> e.kind() == ErrKind::Syntax,
    {
        if self.variant == kind {
            Ok(self)
        } else {
            Err(InterpError::SyntaxError { line: 0, offset: 0 })
        }
    }

    /// The node itself when its token has the expected type, else a
    /// syntax error.
    pub fn expect_token_type(&self, kind: TokenType) -> (r: Result<&ParseNode, InterpError>)
        ensures
            (r is Ok) == (self.token is Some && self.token->0.token_type == kind),
            r matches Ok(n) ==> *n == *self,
            r matches Err(e) ==> e.kind() == ErrKind::Syntax,
    {
        match &self.token {
            Some(t) => {
                if t.token_type == kind {
                    Ok(self)
                } else {
                    Err(InterpError::SyntaxError { line: t.line, offset: t.offset })
                }
            },
            None => Err(InterpError::SyntaxError { line: 0, offset: 0 }),
        }
    }
}

// ---------------------------------------------------------------------
// The grammar, one spec function per rule. Each takes the token sequence
// and a cursor position and yields the parsed node and the position after
// it, or `None` when the rule does not match there. Backtracking is
// implicit: a failed alternative leaves no trace.
// ---------------------------------------------------------------------
pub open spec fn leaf_node(variant: ParseNodeType, t: TokenV) -> NodeV {
    NodeV { variant, children: Option::None, token: Option::Some(t) }
}

pub open spec fn branch_node(variant: ParseNodeType, cs: Seq<NodeV>) -> NodeV {
    NodeV { variant, children: Option::Some(cs), token: Option::None }
}

/// Token categories a `value` node accepts.
pub open spec fn is_value_token(t: TokenType) -> bool {
    t == TokenType::Number || t == TokenType::Identifier || t == TokenType::SpecialIdentifier
        || t == TokenType::String
}

/// Token categories naming a variable on an assignment's left side.
pub open spec fn is_name_token(t: TokenType) -> bool {
    t == TokenType::Identifier || t == TokenType::SpecialIdentifier
}

/// Comparison operator tokens.
pub open spec fn is_comparison_token(t: TokenType) -> bool {
    t == TokenType::Eeq || t == TokenType::Neq || t == TokenType::Lt || t == TokenType::Lte || t
        == TokenType::Gt || t == TokenType::Gte
}

/// Tokens that end one argument.
pub open spec fn is_argument_stop(t: TokenType) -> bool {
    t == TokenType::Comma || t == TokenType::Comment || t == TokenType::Separator || t
        == TokenType::EOF
}

/// Tokens that end an argument list.
pub open spec fn is_arguments_stop(t: TokenType) -> bool {
    t == TokenType::Comment || t == TokenType::Separator || t == TokenType::EOF
}

/// `value := Number | Identifier | SpecialIdentifier | String`.
pub open spec fn p_value(ts: Seq<TokenV>, p: int) -> Option<(NodeV, int)> {
    if 0 <= p < ts.len() && is_value_token(ts[p].token_type) {
        Option::Some((leaf_node(ParseNodeType::Value, ts[p]), p + 1))
    } else {
        Option::None
    }
}

/// `arithmetic_operator := '+' | '-'`.
pub open spec fn p_arithmetic_operator(ts: Seq<TokenV>, p: int) -> Option<(NodeV, int)> {
    if 0 <= p < ts.len() && (ts[p].token_type == TokenType::Add || ts[p].token_type
        == TokenType::Sub) {
        Option::Some((leaf_node(ParseNodeType::ArithmeticOperator, ts[p]), p + 1))
    } else {
        Option::None
    }
}

/// `comparison_operator := '==' | '!=' | '<' | '<=' | '>' | '>='`.
pub open spec fn p_comparison_operator(ts: Seq<TokenV>, p: int) -> Option<(NodeV, int)> {
    if 0 <= p < ts.len() && is_comparison_token(ts[p].token_type) {
        Option::Some((leaf_node(ParseNodeType::ComparisonOperator, ts[p]), p + 1))
    } else {
        Option::None
    }
}

/// `expression := value arithmetic_operator (expression | value)`,
/// right-associative, trying the expression alternative first.
pub open spec fn p_expression(ts: Seq<TokenV>, p: int) -> Option<(NodeV, int)>
    decreases ts.len() - p,
    when 0 <= p
{
    match p_value(ts, p) {
        Option::None => Option::None,
        Option::Some((v, p1)) => match p_arithmetic_operator(ts, p1) {
            Option::None => Option::None,
            Option::Some((o, p2)) => match p_expression(ts, p2) {
                Option::Some((e, p3)) => Option::Some(
                    (branch_node(ParseNodeType::Expression, seq![v, o, e]), p3),
                ),
                Option::None => match p_value(ts, p2) {
                    Option::Some((v2, p3)) => Option::Some(
                        (branch_node(ParseNodeType::Expression, seq![v, o, v2]), p3),
                    ),
                    Option::None => Option::None,
                },
            },
        },
    }
}

/// `assignment := (Identifier | SpecialIdentifier) '=' (expression | value)`.
pub open spec fn p_assignment(ts: Seq<TokenV>, p: int) -> Option<(NodeV, int)> {
    match p_value(ts, p) {
        Option::None => Option::None,
        Option::Some((v, p1)) => if !is_name_token(v.token->0.token_type) {
            Option::None
        } else if p1 < ts.len() && ts[p1].token_type == TokenType::Eq {
            let p2 = p1 + 1;
            match p_expression(ts, p2) {
                Option::Some((e, p3)) => Option::Some(
                    (branch_node(ParseNodeType::Assignment, seq![v, e]), p3),
                ),
                Option::None => match p_value(ts, p2) {
                    Option::Some((v2, p3)) => Option::Some(
                        (branch_node(ParseNodeType::Assignment, seq![v, v2]), p3),
                    ),
                    Option::None => Option::None,
                },
            }
        } else {
            Option::None
        },
    }
}

/// `comparison := value comparison_operator value`.
pub open spec fn p_comparison(ts: Seq<TokenV>, p: int) -> Option<(NodeV, int)> {
    match p_value(ts, p) {
        Option::None => Option::None,
        Option::Some((v, p1)) => match p_comparison_operator(ts, p1) {
            Option::None => Option::None,
            Option::Some((o, p2)) => match p_value(ts, p2) {
                Option::Some((v2, p3)) => Option::Some(
                    (branch_node(ParseNodeType::Comparison, seq![v, o, v2]), p3),
                ),
                Option::None => Option::None,
            },
        },
    }
}

/// One clause of an argument: assignment, else comparison, else value,
/// backtracking between the attempts.
pub open spec fn p_clause(ts: Seq<TokenV>, p: int) -> Option<(NodeV, int)> {
    match p_assignment(ts, p) {
        Option::Some(r) => Option::Some(r),
        Option::None => match p_comparison(ts, p) {
            Option::Some(r) => Option::Some(r),
            Option::None => p_value(ts, p),
        },
    }
}

pub proof fn lemma_p_expression_progress(ts: Seq<TokenV>, p: int)
    requires
        0 <= p,
        p_expression(ts, p) is Some,
    ensures
        p < (p_expression(ts, p)->0).1 <= ts.len(),
    decreases ts.len() - p,
{
    let (v, p1) = p_value(ts, p)->0;
    let (o, p2) = p_arithmetic_operator(ts, p1)->0;
    if p_expression(ts, p2) is Some {
        lemma_p_expression_progress(ts, p2);
    }
}

pub proof fn lemma_p_clause_progress(ts: Seq<TokenV>, p: int)
    requires
        0 <= p,
        p_clause(ts, p) is Some,
    ensures
        p < (p_clause(ts, p)->0).1 <= ts.len(),
{
    if p_assignment(ts, p) is Some {
        let (v, p1) = p_value(ts, p)->0;
        if p_expression(ts, p1 + 1) is Some {
            lemma_p_expression_progress(ts, p1 + 1);
        }
    }
}

/// The clauses of one argument: a maximal run, stopped by a comma,
/// comment, statement separator or end-of-stream token.
pub open spec fn p_argument_items(ts: Seq<TokenV>, p: int) -> Option<(Seq<NodeV>, int)>
    decreases ts.len() - p,
    when 0 <= p
    via p_argument_items_decreases
{
    if 0 <= p < ts.len() && is_argument_stop(ts[p].token_type) {
        Option::Some((Seq::empty(), p))
    } else {
        match p_clause(ts, p) {
            Option::None => Option::None,
            Option::Some((n, p1)) => match p_argument_items(ts, p1) {
                Option::None => Option::None,
                Option::Some((rest, pf)) => Option::Some((seq![n] + rest, pf)),
            },
        }
    }
}

#[via_fn]
proof fn p_argument_items_decreases(ts: Seq<TokenV>, p: int) {
    if !(0 <= p < ts.len() && is_argument_stop(ts[p].token_type)) {
        if p_clause(ts, p) is Some {
            lemma_p_clause_progress(ts, p);
        }
    }
}

/// `argument :=` the collected clauses as one Argument node.
pub open spec fn p_argument(ts: Seq<TokenV>, p: int) -> Option<(NodeV, int)> {
    match p_argument_items(ts, p) {
        Option::None => Option::None,
        Option::Some((items, pf)) => Option::Some(
            (branch_node(ParseNodeType::Argument, items), pf),
        ),
    }
}

pub proof fn lemma_p_argument_items_bounds(ts: Seq<TokenV>, p: int)
    requires
        0 <= p,
        p_argument_items(ts, p) is Some,
    ensures
        p <= (p_argument_items(ts, p)->0).1 <= ts.len(),
        !(0 <= p < ts.len() && is_argument_stop(ts[p].token_type)) ==> p < (p_argument_items(ts, p)->0).1,
    decreases ts.len() - p,
{
    if 0 <= p < ts.len() && is_argument_stop(ts[p].token_type) {
    } else {
        lemma_p_clause_progress(ts, p);
        let (n, p1) = p_clause(ts, p)->0;
        lemma_p_argument_items_bounds(ts, p1);
    }
}

/// `arguments := zero or more argument`, separated by commas, stopped by
/// a statement separator, comment or end-of-stream token.
pub open spec fn p_arguments(ts: Seq<TokenV>, p: int) -> Option<(Seq<NodeV>, int)>
    decreases ts.len() - p,
    when 0 <= p
    via p_arguments_decreases
{
    if 0 <= p < ts.len() && is_arguments_stop(ts[p].token_type) {
        Option::Some((Seq::empty(), p))
    } else if 0 <= p < ts.len() && ts[p].token_type == TokenType::Comma {
        p_arguments(ts, p + 1)
    } else {
        match p_argument(ts, p) {
            Option::None => Option::None,
            Option::Some((a, p1)) => match p_arguments(ts, p1) {
                Option::None => Option::None,
                Option::Some((rest, pf)) => Option::Some((seq![a] + rest, pf)),
            },
        }
    }
}

#[via_fn]
proof fn p_arguments_decreases(ts: Seq<TokenV>, p: int) {
    if !(0 <= p < ts.len() && is_arguments_stop(ts[p].token_type)) && !(0 <= p < ts.len() && ts[p].token_type
        == TokenType::Comma) {
        if p_argument(ts, p) is Some {
            lemma_p_argument_items_bounds(ts, p);
        }
    }
}

pub proof fn lemma_p_arguments_bounds(ts: Seq<TokenV>, p: int)
    requires
        0 <= p,
        p_arguments(ts, p) is Some,
    ensures
        p <= (p_arguments(ts, p)->0).1 <= ts.len(),
    decreases ts.len() - p,
{
    if 0 <= p < ts.len() && is_arguments_stop(ts[p].token_type) {
    } else if 0 <= p < ts.len() && ts[p].token_type == TokenType::Comma {
        lemma_p_arguments_bounds(ts, p + 1);
    } else {
        lemma_p_argument_items_bounds(ts, p);
        let (a, p1) = p_argument(ts, p)->0;
        lemma_p_arguments_bounds(ts, p1);
    }
}

/// `command :=` a command-keyword token followed by its arguments.
pub open spec fn p_command(ts: Seq<TokenV>, p: int) -> Option<(NodeV, int)> {
    if 0 <= p < ts.len() && ts[p].token_type matches TokenType::CommandKeyword(_) {
        match p_arguments(ts, p + 1) {
            Option::None => Option::None,
            Option::Some((args, pf)) => Option::Some(
                (
                    NodeV {
                        variant: ParseNodeType::Command,
                        children: Option::Some(args),
                        token: Option::Some(ts[p]),
                    },
                    pf,
                ),
            ),
        }
    } else {
        Option::None
    }
}

/// `comment :=` a single comment token.
pub open spec fn p_comment(ts: Seq<TokenV>, p: int) -> Option<(NodeV, int)> {
    if 0 <= p < ts.len() && ts[p].token_type == TokenType::Comment {
        Option::Some((leaf_node(ParseNodeType::Comment, ts[p]), p + 1))
    } else {
        Option::None
    }
}

/// `statement := (separator command) | comment`.
pub open spec fn p_statement(ts: Seq<TokenV>, p: int) -> Option<(NodeV, int)> {
    if 0 <= p < ts.len() && ts[p].token_type == TokenType::Separator {
        match p_command(ts, p + 1) {
            Option::None => Option::None,
            Option::Some((c, pf)) => Option::Some(
                (branch_node(ParseNodeType::Statement, seq![c]), pf),
            ),
        }
    } else if 0 <= p < ts.len() && ts[p].token_type == TokenType::Comment {
        match p_comment(ts, p) {
            Option::None => Option::None,
            Option::Some((c, pf)) => Option::Some(
                (branch_node(ParseNodeType::Statement, seq![c]), pf),
            ),
        }
    } else {
        Option::None
    }
}

pub proof fn lemma_p_statement_progress(ts: Seq<TokenV>, p: int)
    requires
        0 <= p,
        p_statement(ts, p) is Some,
    ensures
        p < (p_statement(ts, p)->0).1 <= ts.len(),
{
    if 0 <= p < ts.len() && ts[p].token_type == TokenType::Separator {
        lemma_p_arguments_bounds(ts, p + 2);
    }
}

/// `query := zero or more statement` until the end-of-stream token; a
/// missing end-of-stream token, or a statement that opens with anything
/// else, fails the whole parse.
pub open spec fn p_query(ts: Seq<TokenV>, p: int) -> Option<Seq<NodeV>>
    decreases ts.len() - p,
    when 0 <= p
    via p_query_decreases
{
    if p >= ts.len() {
        Option::None
    } else if ts[p].token_type == TokenType::EOF {
        Option::Some(Seq::empty())
    } else {
        match p_statement(ts, p) {
            Option::None => Option::None,
            Option::Some((st, p1)) => match p_query(ts, p1) {
                Option::None => Option::None,
                Option::Some(rest) => Option::Some(seq![st] + rest),
            },
        }
    }
}

#[via_fn]
proof fn p_query_decreases(ts: Seq<TokenV>, p: int) {
    if p < ts.len() && ts[p].token_type != TokenType::EOF {
        if p_statement(ts, p) is Some {
            lemma_p_statement_progress(ts, p);
        }
    }
}

/// What parsing a whole token sequence yields: a Query node over the
/// statements, or nothing when the sequence is rejected.
pub open spec fn parse_spec(ts: Seq<TokenV>) -> Option<NodeV> {
    match p_query(ts, 0) {
        Option::None => Option::None,
        Option::Some(stmts) => Option::Some(branch_node(ParseNodeType::Query, stmts)),
    }
}

// ---------------------------------------------------------------------
// The executable parser.
// ---------------------------------------------------------------------
/// A copy of a token list, element for element.
fn clone_tokens(v: &Vec<Token>) -> (r: Vec<Token>)
    ensures
        r@ == v@,
{
    let mut out: Vec<Token> = Vec::new();
    let mut k: usize = 0;
    while k < v.len()
        invariant
            0 <= k <= v@.len(),
            out@ == v@.take(k as int),
        decreases v@.len() - k,
    {
        out.push(v[k].clone());
        proof {
            assert(v@.take(k + 1).drop_last() =~= v@.take(k as int));
            assert(out@ =~= v@.take(k + 1));
        }
        k = k + 1;
    }
    proof {
        assert(v@.take(v@.len() as int) =~= v@);
    }
    out
}

/// The backtracking cursor over one token list, building the parse tree.
pub struct Parser {
    tokens: Vec<Token>,
    current_index: usize,
    parse_tree: ParseNode,
}

impl Parser {
    /// The cursor never stands past the end of the token list.
    pub closed spec fn wf(&self) -> bool {
        self.current_index <= self.tokens@.len()
    }

    /// The views of the tokens being parsed.
    pub closed spec fn tv(&self) -> Seq<TokenV> {
        toks_view(self.tokens@)
    }

    /// The cursor position.
    pub closed spec fn pos(&self) -> int {
        self.current_index as int
    }

    /// The view of the parse tree built so far.
    pub closed spec fn tree_view(&self) -> NodeV {
        self.parse_tree@
    }

    pub fn new() -> (r: Parser)
        ensures
            r.wf(),
            r.tv() =~= Seq::<TokenV>::empty(),
            r.tree_view() == branch_node(ParseNodeType::Query, Seq::<NodeV>::empty()),
    {
        let r = Parser {
            tokens: Vec::new(),
            current_index: 0,
            parse_tree: ParseNode {
                variant: ParseNodeType::Query,
                children: Some(Vec::new()),
                token: None,
            },
        };
        proof {
            assert(toks_view(r.tokens@) =~= Seq::<TokenV>::empty());
            assert(node_views(Seq::<ParseNode>::empty()) =~= Seq::<NodeV>::empty());
        }
        r
    }

    fn peek(&self) -> (r: Option<Token>)
        requires
            self.wf(),
        ensures
            r == if self.pos() < self.tv().len() {
                Option::Some(self.tokens@[self.pos()])
            } else {
                Option::<Token>::None
            },
            r matches Some(t) ==> t@ == self.tv()[self.pos()],
    {
        proof {
            lemma_toks_view(self.tokens@);
        }
        if self.current_index < self.tokens.len() {
            Some(self.tokens[self.current_index].clone())
        } else {
            None
        }
    }

    fn consume(&mut self) -> (r: Option<Token>)
        requires
            old(self).wf(),
        ensures
            final(self).wf(),
            final(self).tokens == old(self).tokens,
            final(self).parse_tree == old(self).parse_tree,
            old(self).pos() < old(self).tv().len() ==> {
                &&& r == Option::Some(old(self).tokens@[old(self).pos()])
                &&& final(self).pos() == old(self).pos() + 1
            },
            old(self).pos() >= old(self).tv().len() ==> {
                &&& r == Option::<Token>::None
                &&& final(self).pos() == old(self).pos()
            },
            r matches Some(t) ==> t@ == old(self).tv()[old(self).pos()],
    {
        proof {
            lemma_toks_view(self.tokens@);
        }
        let token = self.peek();
        if self.current_index < self.tokens.len() {
            self.current_index = self.current_index + 1;
        }
        token
    }

    fn is_token(&self, token_type: TokenType) -> (r: bool)
        requires
            self.wf(),
        ensures
            r == (self.pos() < self.tv().len() && self.tv()[self.pos()].token_type == token_type),
    {
        proof {
            lemma_toks_view(self.tokens@);
        }
        match self.peek() {
            Some(token) => token.token_type == token_type,
            None => false,
        }
    }

    fn expect_any(&mut self) -> (r: Result<Token, InterpError>)
        requires
            old(self).wf(),
        ensures
            final(self).wf(),
            final(self).tokens == old(self).tokens,
            final(self).parse_tree == old(self).parse_tree,
            old(self).pos() <= final(self).pos() <= final(self).tv().len(),
            (r is Ok) == (old(self).pos() < old(self).tv().len()),
            r matches Ok(t) ==> t@ == old(self).tv()[old(self).pos()] && final(self).pos() == old(
                self,
            ).pos() + 1,
            r matches Err(e) ==> e.kind() == ErrKind::Syntax && final(self).pos() == old(
                self,
            ).pos(),
    {
        match self.consume() {
            Some(token) => Ok(token),
            None => Err(InterpError::SyntaxError { line: 0, offset: 0 }),
        }
    }

    fn expect(&mut self, token_type: TokenType) -> (r: Result<Token, InterpError>)
        requires
            old(self).wf(),
        ensures
            final(self).wf(),
            final(self).tokens == old(self).tokens,
            final(self).parse_tree == old(self).parse_tree,
            old(self).pos() <= final(self).pos() <= final(self).tv().len(),
            (r is Ok) == (old(self).pos() < old(self).tv().len() && old(self).tv()[old(
                self,
            ).pos()].token_type == token_type),
            r matches Ok(t) ==> t@ == old(self).tv()[old(self).pos()] && final(self).pos() == old(
                self,
            ).pos() + 1,
            r matches Err(e) ==> e.kind() == ErrKind::Syntax && final(self).pos() == old(
                self,
            ).pos(),
    {
        proof {
            lemma_toks_view(self.tokens@);
        }
        match self.peek() {
            Some(token) => {
                if token.token_type == token_type {
                    self.consume();
                    Ok(token)
                } else {
                    Err(InterpError::SyntaxError { line: token.line, offset: token.offset })
                }
            },
            None => Err(InterpError::SyntaxError { line: 0, offset: 0 }),
        }
    }

    fn get_position(&self) -> (r: usize)
        ensures
            r as int == self.pos(),
    {
        self.current_index
    }

    fn set_position(&mut self, pos: usize) -> (r: Result<(), InterpError>)
        ensures
            final(self).tokens == old(self).tokens,
            final(self).parse_tree == old(self).parse_tree,
            (r is Ok) == (pos <= old(self).tv().len()),
            r is Ok ==> final(self).pos() == pos && final(self).wf(),
            r is Err ==> *final(self) == *old(self),
    {
        proof {
            lemma_toks_view(self.tokens@);
        }
        if pos > self.tokens.len() {
            return Err(InterpError::SyntaxError { line: 0, offset: 0 });
        }
        self.current_index = pos;
        Ok(())
    }

    fn value(&mut self) -> (r: Result<ParseNode, InterpError>)
        requires
            old(self).wf(),
        ensures
            final(self).wf(),
            final(self).tokens == old(self).tokens,
            final(self).parse_tree == old(self).parse_tree,
            old(self).pos() <= final(self).pos() <= final(self).tv().len(),
            r matches Ok(n) ==> p_value(old(self).tv(), old(self).pos()) == Option::Some(
                (n@, final(self).pos()),
            ),
            r matches Err(e) ==> p_value(old(self).tv(), old(self).pos()) is None && e.kind()
                == ErrKind::Syntax,
    {
        let token = match self.expect_any() {
            Ok(t) => t,
            Err(e) => return Err(e),
        };
        let line = token.line;
        let offset = token.offset;
        let tt = token.token_type;
        let result = ParseNode { variant: ParseNodeType::Value, children: None, token: Some(token) };
        match tt {
            TokenType::Number | TokenType::Identifier | TokenType::SpecialIdentifier
                | TokenType::String => Ok(result),
            _ => Err(InterpError::SyntaxError { line, offset }),
        }
    }

    fn arithmetic_operator(&mut self) -> (r: Result<ParseNode, InterpError>)
        requires
            old(self).wf(),
        ensures
            final(self).wf(),
            final(self).tokens == old(self).tokens,
            final(self).parse_tree == old(self).parse_tree,
            old(self).pos() <= final(self).pos() <= final(self).tv().len(),
            r matches Ok(n) ==> p_arithmetic_operator(old(self).tv(), old(self).pos())
                == Option::Some((n@, final(self).pos())),
            r matches Err(e) ==> p_arithmetic_operator(old(self).tv(), old(self).pos()) is None
                && e.kind() == ErrKind::Syntax,
    {
        let token = match self.expect_any() {
            Ok(t) => t,
            Err(e) => return Err(e),
        };
        let line = token.line;
        let offset = token.offset;
        let tt = token.token_type;
        let result = ParseNode {
            variant: ParseNodeType::ArithmeticOperator,
            children: None,
            token: Some(token),
        };
        match tt {
            TokenType::Add | TokenType::Sub => Ok(result),
            _ => Err(InterpError::SyntaxError { line, offset }),
        }
    }

    fn comparison_operator(&mut self) -> (r: Result<ParseNode, InterpError>)
        requires
            old(self).wf(),
        ensures
            final(self).wf(),
            final(self).tokens == old(self).tokens,
            final(self).parse_tree == old(self).parse_tree,
            old(self).pos() <= final(self).pos() <= final(self).tv().len(),
            r matches Ok(n) ==> p_comparison_operator(old(self).tv(), old(self).pos())
                == Option::Some((n@, final(self).pos())),
            r matches Err(e) ==> p_comparison_operator(old(self).tv(), old(self).pos()) is None
                && e.kind() == ErrKind::Syntax,
    {
        let token = match self.expect_any() {
            Ok(t) => t,
            Err(e) => return Err(e),
        };
        let line = token.line;
        let offset = token.offset;
        let tt = token.token_type;
        let result = ParseNode {
            variant: ParseNodeType::ComparisonOperator,
            children: None,
            token: Some(token),
        };
        match tt {
            TokenType::Eeq | TokenType::Neq | TokenType::Lt | TokenType::Lte | TokenType::Gt
                | TokenType::Gte => Ok(result),
            _ => Err(InterpError::SyntaxError { line, offset }),
        }
    }

    fn expression(&mut self) -> (r: Result<ParseNode, InterpError>)
        requires
            old(self).wf(),
        ensures
            final(self).wf(),
            final(self).tokens == old(self).tokens,
            final(self).parse_tree == old(self).parse_tree,
            old(self).pos() <= final(self).pos() <= final(self).tv().len(),
            r matches Ok(n) ==> p_expression(old(self).tv(), old(self).pos()) == Option::Some(
                (n@, final(self).pos()),
            ),
            r matches Err(e) ==> p_expression(old(self).tv(), old(self).pos()) is None && e.kind()
                == ErrKind::Syntax,
        decreases old(self).tokens@.len() - old(self).current_index,
    {
        let ghost ts = old(self).tv();
        let ghost p0 = old(self).pos();
        let value = match self.value() {
            Ok(v) => v,
            Err(e) => return Err(e),
        };
        let operator = match self.arithmetic_operator() {
            Ok(o) => o,
            Err(e) => return Err(e),
        };
        let pos = self.get_position();
        let node = match self.expression() {
            Ok(n) => n,
            Err(_) => {
                match self.set_position(pos) {
                    Ok(_) => {},
                    Err(e) => {
                        proof {
                            assert(false);
                        }
                        return Err(e);
                    },
                }
                match self.value() {
                    Ok(v) => v,
                    Err(e) => return Err(e),
                }
            },
        };
        let ghost pf = self.pos();
        let children = vec![value, operator, node];
        proof {
            lemma_node_views(children@);
            assert(node_views(children@) =~= seq![value@, operator@, node@]);
        }
        let result = ParseNode {
            variant: ParseNodeType::Expression,
            children: Some(children),
            token: None,
        };
        proof {
            assert(p_expression(ts, p0) == Option::Some((result@, pf)));
        }
        Ok(result)
    }

    fn assignment(&mut self) -> (r: Result<ParseNode, InterpError>)
        requires
            old(self).wf(),
        ensures
            final(self).wf(),
            final(self).tokens == old(self).tokens,
            final(self).parse_tree == old(self).parse_tree,
            old(self).pos() <= final(self).pos() <= final(self).tv().len(),
            r matches Ok(n) ==> p_assignment(old(self).tv(), old(self).pos()) == Option::Some(
                (n@, final(self).pos()),
            ),
            r matches Err(e) ==> p_assignment(old(self).tv(), old(self).pos()) is None && e.kind()
                == ErrKind::Syntax,
    {
        let ghost ts = old(self).tv();
        let ghost p0 = old(self).pos();
        let identifier = match self.value() {
            Ok(v) => v,
            Err(e) => return Err(e),
        };
        if identifier.expect_token_type(TokenType::Identifier).is_err()
            && identifier.expect_token_type(TokenType::SpecialIdentifier).is_err() {
            let e = match identifier.expect_token_type(TokenType::SpecialIdentifier) {
                Err(e) => e,
                Ok(_) => InterpError::SyntaxError { line: 0, offset: 0 },
            };
            return Err(e);
        }
        match self.expect(TokenType::Eq) {
            Ok(_) => {},
            Err(e) => return Err(e),
        }
        let pos = self.get_position();
        let node = match self.expression() {
            Ok(n) => n,
            Err(_) => {
                match self.set_position(pos) {
                    Ok(_) => {},
                    Err(e) => {
                        proof {
                            assert(false);
                        }
                        return Err(e);
                    },
                }
                match self.value() {
                    Ok(v) => v,
                    Err(e) => return Err(e),
                }
            },
        };
        let ghost pf = self.pos();
        let children = vec![identifier, node];
        proof {
            lemma_node_views(children@);
            assert(node_views(children@) =~= seq![identifier@, node@]);
        }
        let result = ParseNode {
            variant: ParseNodeType::Assignment,
            children: Some(children),
            token: None,
        };
        proof {
            assert(p_assignment(ts, p0) == Option::Some((result@, pf)));
        }
        Ok(result)
    }

    fn comparison(&mut self) -> (r: Result<ParseNode, InterpError>)
        requires
            old(self).wf(),
        ensures
            final(self).wf(),
            final(self).tokens == old(self).tokens,
            final(self).parse_tree == old(self).parse_tree,
            old(self).pos() <= final(self).pos() <= final(self).tv().len(),
            r matches Ok(n) ==> p_comparison(old(self).tv(), old(self).pos()) == Option::Some(
                (n@, final(self).pos()),
            ),
            r matches Err(e) ==> p_comparison(old(self).tv(), old(self).pos()) is None && e.kind()
                == ErrKind::Syntax,
    {
        let ghost ts = old(self).tv();
        let ghost p0 = old(self).pos();
        let left = match self.value() {
            Ok(v) => v,
            Err(e) => return Err(e),
        };
        let operator = match self.comparison_operator() {
            Ok(o) => o,
            Err(e) => return Err(e),
        };
        let right = match self.value() {
            Ok(v) => v,
            Err(e) => return Err(e),
        };
        let ghost pf = self.pos();
        let children = vec![left, operator, right];
        proof {
            lemma_node_views(children@);
            assert(node_views(children@) =~= seq![left@, operator@, right@]);
        }
        let result = ParseNode {
            variant: ParseNodeType::Comparison,
            children: Some(children),
            token: None,
        };
        proof {
            assert(p_comparison(ts, p0) == Option::Some((result@, pf)));
        }
        Ok(result)
    }

    /// Whether the cursor stands on a token that ends one argument.
    fn at_argument_stop(&self) -> (r: bool)
        requires
            self.wf(),
        ensures
            r == (self.pos() < self.tv().len() && is_argument_stop(
                self.tv()[self.pos()].token_type,
            )),
    {
        self.is_token(TokenType::Comma) || self.is_token(TokenType::Comment) || self.is_token(
            TokenType::Separator,
        ) || self.is_token(TokenType::EOF)
    }

    /// Whether the cursor stands on a token that ends the argument list.
    fn at_arguments_stop(&self) -> (r: bool)
        requires
            self.wf(),
        ensures
            r == (self.pos() < self.tv().len() && is_arguments_stop(
                self.tv()[self.pos()].token_type,
            )),
    {
        self.is_token(TokenType::Separator) || self.is_token(TokenType::Comment) || self.is_token(
            TokenType::EOF,
        )
    }

    #[verifier::loop_isolation(false)]
    fn argument(&mut self) -> (r: Result<ParseNode, InterpError>)
        requires
            old(self).wf(),
        ensures
            final(self).wf(),
            final(self).tokens == old(self).tokens,
            final(self).parse_tree == old(self).parse_tree,
            old(self).pos() <= final(self).pos() <= final(self).tv().len(),
            r matches Ok(n) ==> p_argument(old(self).tv(), old(self).pos()) == Option::Some(
                (n@, final(self).pos()),
            ),
            r matches Err(e) ==> p_argument(old(self).tv(), old(self).pos()) is None && e.kind()
                == ErrKind::Syntax,
    {
        let ghost ts = old(self).tv();
        let ghost p0 = old(self).pos();
        let ghost toks0 = old(self).tokens;
        let ghost pt0 = old(self).parse_tree;
        let mut pos = self.get_position();
        let mut nodes: Vec<ParseNode> = Vec::new();
        proof {
            assert(node_views(nodes@) =~= Seq::<NodeV>::empty());
        }
        while !self.at_argument_stop()
            invariant
                self.wf(),
                self.tokens == toks0,
                self.parse_tree == pt0,
                ts == self.tv(),
                p0 <= self.pos() <= ts.len(),
                pos as int == self.pos(),
                match p_argument_items(ts, self.pos()) {
                    Option::None => p_argument_items(ts, p0) is None,
                    Option::Some(r) => p_argument_items(ts, p0) == Option::Some(
                        (node_views(nodes@) + r.0, r.1),
                    ),
                },
            decreases ts.len() - self.pos(),
        {
            let ghost cur = self.pos();
            let node = match self.assignment() {
                Ok(n) => n,
                Err(_) => {
                    match self.set_position(pos) {
                        Ok(_) => {},
                        Err(e) => {
                            proof {
                                assert(false);
                            }
                            return Err(e);
                        },
                    }
                    match self.comparison() {
                        Ok(n) => n,
                        Err(_) => {
                            match self.set_position(pos) {
                                Ok(_) => {},
                                Err(e) => {
                                    proof {
                                        assert(false);
                                    }
                                    return Err(e);
                                },
                            }
                            match self.value() {
                                Ok(n) => n,
                                Err(e) => return Err(e),
                            }
                        },
                    }
                },
            };
            let ghost next = self.pos();
            proof {
                assert(p_clause(ts, cur) == Option::Some((node@, next)));
                lemma_p_clause_progress(ts, cur);
            }
            let ghost nodes_before = nodes@;
            nodes.push(node);
            pos = self.get_position();
            proof {
                assert(nodes@.drop_last() =~= nodes_before);
                assert(node_views(nodes@) == node_views(nodes_before).push(node@));
                match p_argument_items(ts, next) {
                    Option::None => {},
                    Option::Some((rest, pf)) => {
                        assert(p_argument_items(ts, cur) == Option::Some(
                            (seq![node@] + rest, pf),
                        ));
                        assert(node_views(nodes_before) + (seq![node@] + rest) =~= node_views(
                            nodes@,
                        ) + rest);
                    },
                }
            }
        }
        let ghost pf = self.pos();
        proof {
            assert(p_argument_items(ts, pf) == Option::Some((Seq::<NodeV>::empty(), pf)));
            assert(node_views(nodes@) + Seq::<NodeV>::empty() =~= node_views(nodes@));
            assert(p_argument_items(ts, p0) == Option::Some((node_views(nodes@), pf)));
        }
        let result = ParseNode {
            variant: ParseNodeType::Argument,
            children: Some(nodes),
            token: None,
        };
        proof {
            assert(p_argument(ts, p0) == Option::Some((result@, pf)));
        }
        Ok(result)
    }

    #[verifier::loop_isolation(false)]
    fn arguments(&mut self) -> (r: Result<Vec<ParseNode>, InterpError>)
        requires
            old(self).wf(),
        ensures
            final(self).wf(),
            final(self).tokens == old(self).tokens,
            final(self).parse_tree == old(self).parse_tree,
            old(self).pos() <= final(self).pos() <= final(self).tv().len(),
            r matches Ok(v) ==> p_arguments(old(self).tv(), old(self).pos()) == Option::Some(
                (node_views(v@), final(self).pos()),
            ),
            r matches Err(e) ==> p_arguments(old(self).tv(), old(self).pos()) is None && e.kind()
                == ErrKind::Syntax,
    {
        let ghost ts = old(self).tv();
        let ghost p0 = old(self).pos();
        let ghost toks0 = old(self).tokens;
        let ghost pt0 = old(self).parse_tree;
        let mut args: Vec<ParseNode> = Vec::new();
        proof {
            assert(node_views(args@) =~= Seq::<NodeV>::empty());
        }
        while !self.at_arguments_stop()
            invariant
                self.wf(),
                self.tokens == toks0,
                self.parse_tree == pt0,
                ts == self.tv(),
                p0 <= self.pos() <= ts.len(),
                match p_arguments(ts, self.pos()) {
                    Option::None => p_arguments(ts, p0) is None,
                    Option::Some(r) => p_arguments(ts, p0) == Option::Some(
                        (node_views(args@) + r.0, r.1),
                    ),
                },
            decreases ts.len() - self.pos(),
        {
            let ghost cur = self.pos();
            if self.is_token(TokenType::Comma) {
                self.consume();
                proof {
                    assert(p_arguments(ts, cur) == p_arguments(ts, cur + 1));
                }
            } else {
                let node = match self.argument() {
                    Ok(n) => n,
                    Err(e) => return Err(e),
                };
                let ghost next = self.pos();
                proof {
                    assert(p_argument(ts, cur) == Option::Some((node@, next)));
                    lemma_p_argument_items_bounds(ts, cur);
                }
                let ghost args_before = args@;
                args.push(node);
                proof {
                    assert(args@.drop_last() =~= args_before);
                    assert(node_views(args@) == node_views(args_before).push(node@));
                    match p_arguments(ts, next) {
                        Option::None => {},
                        Option::Some((rest, pf)) => {
                            assert(p_arguments(ts, cur) == Option::Some(
                                (seq![node@] + rest, pf),
                            ));
                            assert(node_views(args_before) + (seq![node@] + rest) =~= node_views(
                                args@,
                            ) + rest);
                        },
                    }
                }
            }
        }
        let ghost pf = self.pos();
        proof {
            assert(p_arguments(ts, pf) == Option::Some((Seq::<NodeV>::empty(), pf)));
            assert(node_views(args@) + Seq::<NodeV>::empty() =~= node_views(args@));
            assert(p_arguments(ts, p0) == Option::Some((node_views(args@), pf)));
        }
        Ok(args)
    }

    fn command(&mut self) -> (r: Result<ParseNode, InterpError>)
        requires
            old(self).wf(),
        ensures
            final(self).wf(),
            final(self).tokens == old(self).tokens,
            final(self).parse_tree == old(self).parse_tree,
            old(self).pos() <= final(self).pos() <= final(self).tv().len(),
            r matches Ok(n) ==> p_command(old(self).tv(), old(self).pos()) == Option::Some(
                (n@, final(self).pos()),
            ),
            r matches Err(e) ==> p_command(old(self).tv(), old(self).pos()) is None && e.kind()
                == ErrKind::Syntax,
    {
        let ghost ts = old(self).tv();
        let ghost p0 = old(self).pos();
        let token = match self.expect_any() {
            Ok(t) => t,
            Err(e) => return Err(e),
        };
        if !matches!(token.token_type, TokenType::CommandKeyword(_)) {
            return Err(InterpError::SyntaxError { line: token.line, offset: token.offset });
        }
        let args = match self.arguments() {
            Ok(a) => a,
            Err(e) => return Err(e),
        };
        let ghost pf = self.pos();
        let result = ParseNode {
            variant: ParseNodeType::Command,
            children: Some(args),
            token: Some(token),
        };
        proof {
            assert(p_command(ts, p0) == Option::Some((result@, pf)));
        }
        Ok(result)
    }

    fn comment(&mut self) -> (r: Result<ParseNode, InterpError>)
        requires
            old(self).wf(),
        ensures
            final(self).wf(),
            final(self).tokens == old(self).tokens,
            final(self).parse_tree == old(self).parse_tree,
            old(self).pos() <= final(self).pos() <= final(self).tv().len(),
            r matches Ok(n) ==> p_comment(old(self).tv(), old(self).pos()) == Option::Some(
                (n@, final(self).pos()),
            ),
            r matches Err(e) ==> p_comment(old(self).tv(), old(self).pos()) is None && e.kind()
                == ErrKind::Syntax,
    {
        let token = match self.expect(TokenType::Comment) {
            Ok(t) => t,
            Err(e) => return Err(e),
        };
        Ok(ParseNode { variant: ParseNodeType::Comment, children: None, token: Some(token) })
    }

    fn statement(&mut self) -> (r: Result<ParseNode, InterpError>)
        requires
            old(self).wf(),
        ensures
            final(self).wf(),
            final(self).tokens == old(self).tokens,
            final(self).parse_tree == old(self).parse_tree,
            old(self).pos() <= final(self).pos() <= final(self).tv().len(),
            r matches Ok(n) ==> p_statement(old(self).tv(), old(self).pos()) == Option::Some(
                (n@, final(self).pos()),
            ),
            r matches Err(e) ==> p_statement(old(self).tv(), old(self).pos()) is None && e.kind()
                == ErrKind::Syntax,
    {
        let ghost ts = old(self).tv();
        let ghost p0 = old(self).pos();
        if self.is_token(TokenType::Separator) {
            match self.expect(TokenType::Separator) {
                Ok(_) => {},
                Err(e) => {
                    proof {
                        assert(false);
                    }
                    return Err(e);
                },
            }
            let c = match self.command() {
                Ok(c) => c,
                Err(e) => return Err(e),
            };
            let ghost pf = self.pos();
            let children = vec![c];
            proof {
                lemma_node_views(children@);
                assert(node_views(children@) =~= seq![children@[0]@]);
            }
            let result = ParseNode {
                variant: ParseNodeType::Statement,
                children: Some(children),
                token: None,
            };
            proof {
                assert(p_statement(ts, p0) == Option::Some((result@, pf)));
            }
            return Ok(result);
        }
        if self.is_token(TokenType::Comment) {
            let c = match self.comment() {
                Ok(c) => c,
                Err(e) => return Err(e),
            };
            let ghost pf = self.pos();
            let children = vec![c];
            proof {
                lemma_node_views(children@);
                assert(node_views(children@) =~= seq![children@[0]@]);
            }
            let result = ParseNode {
                variant: ParseNodeType::Statement,
                children: Some(children),
                token: None,
            };
            proof {
                assert(p_statement(ts, p0) == Option::Some((result@, pf)));
            }
            return Ok(result);
        }
        let token = match self.expect_any() {
            Ok(t) => t,
            Err(e) => return Err(e),
        };
        Err(InterpError::SyntaxError { line: token.line, offset: token.offset })
    }

    /// Parse a whole token list into statements appended to the parse
    /// tree; fails on the first unrecoverable violation.
    #[verifier::loop_isolation(false)]
    pub fn parse(&mut self, tokens: &Vec<Token>) -> (r: Result<(), InterpError>)
        ensures
            (r is Ok) == (p_query(toks_view(tokens@), 0) is Some),
            r is Ok && old(self).tree_view().children is Some ==> {
                &&& final(self).tree_view().variant == old(self).tree_view().variant
                &&& final(self).tree_view().token == old(self).tree_view().token
                &&& final(self).tree_view().children == Option::Some(
                    old(self).tree_view().children->0 + p_query(toks_view(tokens@), 0)->0,
                )
            },
            r matches Err(e) ==> e.kind() == ErrKind::Syntax,
    {
        self.tokens = clone_tokens(tokens);
        self.current_index = 0;
        let ghost ts = self.tv();
        let ghost toks1 = self.tokens;
        let ghost pt0 = self.parse_tree;
        let mut stmts: Vec<ParseNode> = Vec::new();
        proof {
            assert(node_views(stmts@) =~= Seq::<NodeV>::empty());
        }
        while !self.is_token(TokenType::EOF)
            invariant
                self.wf(),
                self.tokens == toks1,
                self.parse_tree == pt0,
                ts == self.tv(),
                0 <= self.pos() <= ts.len(),
                match p_query(ts, self.pos()) {
                    Option::None => p_query(ts, 0) is None,
                    Option::Some(rest) => p_query(ts, 0) == Option::Some(
                        node_views(stmts@) + rest,
                    ),
                },
            decreases ts.len() - self.pos(),
        {
            let ghost cur = self.pos();
            if self.current_index >= self.tokens.len() {
                return Err(InterpError::SyntaxError { line: 0, offset: 0 });
            }
            let statement_node = match self.statement() {
                Ok(s) => s,
                Err(e) => return Err(e),
            };
            let ghost next = self.pos();
            proof {
                assert(p_statement(ts, cur) == Option::Some((statement_node@, next)));
                lemma_p_statement_progress(ts, cur);
            }
            let ghost stmts_before = stmts@;
            stmts.push(statement_node);
            proof {
                assert(stmts@.drop_last() =~= stmts_before);
                assert(node_views(stmts@) == node_views(stmts_before).push(stmts@.last()@));
                match p_query(ts, next) {
                    Option::None => {},
                    Option::Some(rest) => {
                        assert(p_query(ts, cur) == Option::Some(seq![stmts@.last()@] + rest));
                        assert(node_views(stmts_before) + (seq![stmts@.last()@] + rest)
                            =~= node_views(stmts@) + rest);
                    },
                }
            }
        }
        proof {
            assert(p_query(ts, self.pos()) == Option::Some(Seq::<NodeV>::empty()));
            assert(node_views(stmts@) + Seq::<NodeV>::empty() =~= node_views(stmts@));
        }
        let ghost stmts_v = node_views(stmts@);
        proof {
            lemma_node_views(stmts@);
            assert(p_query(ts, 0) == Option::Some(node_views(stmts@)));
        }
        match &mut self.parse_tree.children {
            Some(children) => {
                let ghost before = children@;
                children.append(&mut stmts);
                proof {
                    lemma_node_views_concat(before, stmts_v, children@);
                }
            },
            None => {},
        }
        Ok(())
    }
}

/// Appending node lists appends their views.
proof fn lemma_node_views_concat(before: Seq<ParseNode>, added_views: Seq<NodeV>, now: Seq<ParseNode>)
    requires
        now.len() == before.len() + (added_views.len() as int),
        forall|i: int| 0 <= i < before.len() ==> now[i] == before[i],
        forall|i: int|
            before.len() <= i < now.len() ==> #[trigger] now[i]@ == added_views[i - before.len()],
    ensures
        node_views(now) == node_views(before) + added_views,
{
    lemma_node_views(now);
    lemma_node_views(before);
    assert(node_views(now) =~= node_views(before) + added_views);
}

/// Parse tokens into a Query parse tree, or fail with the first syntax
/// error; succeeds exactly when the grammar accepts the tokens.
pub fn parse(tokens: &Vec<Token>) -> (r: Result<ParseNode, InterpError>)
    ensures
        (r is Ok) == (parse_spec(toks_view(tokens@)) is Some),
        r matches Ok(n) ==> n@ == parse_spec(toks_view(tokens@))->0,
        r matches Err(e) ==> e.kind() == ErrKind::Syntax,
{
    let mut ctx = Parser::new();
    match ctx.parse(tokens) {
        Ok(_) => {
            let r = ctx.parse_tree.clone();
            proof {
                assert(Seq::<NodeV>::empty() + p_query(toks_view(tokens@), 0)->0 =~= p_query(
                    toks_view(tokens@),
                    0,
                )->0);
            }
            Ok(r)
        },
        Err(e) => Err(e),
    }
}

} // verus!
