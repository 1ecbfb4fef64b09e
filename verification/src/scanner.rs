//! Lexical scanner: turns program text into an ordered token sequence,
//! tracking line and column for diagnostics. Scanning is total: unknown
//! bytes are skipped, and the output always ends with one end-of-stream
//! token.
//!
//! The spec function [`scan_from`] defines the token sequence produced
//! from any position of the input; the executable [`Scanner`] is proved
//! to emit exactly that sequence.
use vstd::prelude::*;

use crate::text::{
    exec_is_alpha, exec_is_digit, exec_is_space, is_alnum_char, is_alpha_char, is_digit_char,
    is_space_char, str_eq,
};

verus! {

/// The command keywords the language reserves.
#[derive(Debug, Clone, Copy, PartialEq, Eq, Structural)]
pub enum CommandKeyword {
    Generate,
    Eval,
    Where,
    Table,
    Rename,
    Top,
    Stats,
    Remove,
}

/// Function-style keywords, reserved for future call syntax.
#[derive(Debug, Clone, Copy, PartialEq, Eq, Structural)]
pub enum FuncKeyword {
    Len,
    Sum,
    Count,
}

/// The categories of token the scanner emits.
#[derive(Debug, Clone, Copy, PartialEq, Eq, Structural)]
pub enum TokenType {
    Add,
    Sub,
    Eq,
    Eeq,
    Neq,
    Gt,
    Lt,
    Gte,
    Lte,
    Separator,
    Comma,
    LParen,
    RParen,
    And,
    Or,
    CommandKeyword(CommandKeyword),
    FuncKeyword(FuncKeyword),
    Identifier,
    Number,
    String,
    Comment,
    SpecialIdentifier,
    EOF,
}

/// One token: its category, its text when it carries any, and the line
/// and column recorded when it was emitted.
#[derive(Debug)]
pub struct Token {
    pub token_type: TokenType,
    pub value: Option<String>,
    pub line: usize,
    pub offset: usize,
}

/// The mathematical image of a token: the text it carries is a character
/// sequence.
pub ghost struct TokenV {
    pub token_type: TokenType,
    pub value: Option<Seq<char>>,
    pub line: nat,
    pub offset: nat,
}

pub open spec fn opt_str_view(v: Option<String>) -> Option<Seq<char>> {
    match v {
        Option::Some(s) => Option::Some(s@),
        Option::None => Option::None,
    }
}

impl View for Token {
    type V = TokenV;

    open spec fn view(&self) -> TokenV {
        TokenV {
            token_type: self.token_type,
            value: opt_str_view(self.value),
            line: self.line as nat,
            offset: self.offset as nat,
        }
    }
}

impl Clone for Token {
    fn clone(&self) -> (r: Token)
        ensures
            r == *self,
    {
        Token {
            token_type: self.token_type,
            value: match &self.value {
                Option::Some(v) => Option::Some(v.clone()),
                Option::None => Option::None,
            },
            line: self.line,
            offset: self.offset,
        }
    }
}

/// The views of a token sequence.
pub open spec fn toks_view(ts: Seq<Token>) -> Seq<TokenV> {
    ts.map_values(|t: Token| t@)
}

pub proof fn lemma_toks_view(ts: Seq<Token>)
    ensures
        toks_view(ts).len() == ts.len(),
        forall|i: int| 0 <= i < ts.len() ==> #[trigger] toks_view(ts)[i] == ts[i]@,
{
}

impl CommandKeyword {
    /// Which command keyword, if any, a word denotes.
    pub open spec fn of_text(s: Seq<char>) -> Option<CommandKeyword> {
        if s == "generate"@ {
            Option::Some(CommandKeyword::Generate)
        } else if s == "eval"@ {
            Option::Some(CommandKeyword::Eval)
        } else if s == "where"@ {
            Option::Some(CommandKeyword::Where)
        } else if s == "table"@ {
            Option::Some(CommandKeyword::Table)
        } else if s == "rename"@ {
            Option::Some(CommandKeyword::Rename)
        } else if s == "top"@ {
            Option::Some(CommandKeyword::Top)
        } else if s == "stats"@ {
            Option::Some(CommandKeyword::Stats)
        } else if s == "remove"@ {
            Option::Some(CommandKeyword::Remove)
        } else {
            Option::None
        }
    }

    /// Classify a word as a command keyword.
    pub fn from_text(s: &str) -> (r: Option<CommandKeyword>)
        ensures
            r == CommandKeyword::of_text(s@),
    {
        if str_eq(s, "generate") {
            Some(CommandKeyword::Generate)
        } else if str_eq(s, "eval") {
            Some(CommandKeyword::Eval)
        } else if str_eq(s, "where") {
            Some(CommandKeyword::Where)
        } else if str_eq(s, "table") {
            Some(CommandKeyword::Table)
        } else if str_eq(s, "rename") {
            Some(CommandKeyword::Rename)
        } else if str_eq(s, "top") {
            Some(CommandKeyword::Top)
        } else if str_eq(s, "stats") {
            Some(CommandKeyword::Stats)
        } else if str_eq(s, "remove") {
            Some(CommandKeyword::Remove)
        } else {
            None
        }
    }
}

impl FuncKeyword {
    /// Which function keyword, if any, a word denotes.
    pub open spec fn of_text(s: Seq<char>) -> Option<FuncKeyword> {
        if s == "len"@ {
            Option::Some(FuncKeyword::Len)
        } else if s == "sum"@ {
            Option::Some(FuncKeyword::Sum)
        } else if s == "count"@ {
            Option::Some(FuncKeyword::Count)
        } else {
            Option::None
        }
    }

    /// Classify a word as a function keyword.
    pub fn from_text(s: &str) -> (r: Option<FuncKeyword>)
        ensures
            r == FuncKeyword::of_text(s@),
    {
        if str_eq(s, "len") {
            Some(FuncKeyword::Len)
        } else if str_eq(s, "sum") {
            Some(FuncKeyword::Sum)
        } else if str_eq(s, "count") {
            Some(FuncKeyword::Count)
        } else {
            None
        }
    }
}

// ---------------------------------------------------------------------
// Position tracking: line and column are functions of how much input has
// been consumed.
// ---------------------------------------------------------------------
/// 1-based line number after consuming `i` characters.
pub open spec fn line_at(d: Seq<char>, i: int) -> int
    decreases i,
{
    if i <= 0 {
        1
    } else {
        line_at(d, i - 1) + if d[i - 1] == '\n' {
            1int
        } else {
            0int
        }
    }
}

/// 1-based column after consuming `i` characters; a newline resets it.
pub open spec fn col_at(d: Seq<char>, i: int) -> int
    decreases i,
{
    if i <= 0 {
        1
    } else if d[i - 1] == '\n' {
        1
    } else {
        col_at(d, i - 1) + 1
    }
}

pub proof fn lemma_pos_bounds(d: Seq<char>, i: int)
    requires
        0 <= i,
    ensures
        1 <= line_at(d, i) <= i + 1,
        1 <= col_at(d, i) <= i + 1,
    decreases i,
{
    if i > 0 {
        lemma_pos_bounds(d, i - 1);
    }
}

// ---------------------------------------------------------------------
// Scanning ahead: ends of runs, closing delimiters.
// ---------------------------------------------------------------------
/// First position at or after `i` that does not hold a letter or digit.
pub open spec fn run_end(d: Seq<char>, i: int) -> int
    decreases d.len() - i,
{
    if i < 0 || i >= d.len() {
        i
    } else if is_alnum_char(d[i]) {
        run_end(d, i + 1)
    } else {
        i
    }
}

/// First position at or after `i` that does not hold a digit.
pub open spec fn digits_end(d: Seq<char>, i: int) -> int
    decreases d.len() - i,
{
    if i < 0 || i >= d.len() {
        i
    } else if is_digit_char(d[i]) {
        digits_end(d, i + 1)
    } else {
        i
    }
}

/// First position at or after `i` holding character `c`, or the input's
/// length when there is none.
pub open spec fn find_char(d: Seq<char>, i: int, c: char) -> int
    decreases d.len() - i,
{
    if i < 0 || i >= d.len() {
        d.len() as int
    } else if d[i] == c {
        i
    } else {
        find_char(d, i + 1, c)
    }
}

/// First position at or after `i` where the two characters `*/` begin, or
/// the input's length when there is none.
pub open spec fn find_close(d: Seq<char>, i: int) -> int
    decreases d.len() - i,
{
    if i < 0 || i >= d.len() {
        d.len() as int
    } else if d[i] == '*' && i + 1 < d.len() && d[i + 1] == '/' {
        i
    } else {
        find_close(d, i + 1)
    }
}

pub proof fn lemma_run_end_bounds(d: Seq<char>, i: int)
    requires
        0 <= i <= d.len(),
    ensures
        i <= run_end(d, i) <= d.len(),
        forall|k: int| i <= k < run_end(d, i) ==> is_alnum_char(#[trigger] d[k]),
        run_end(d, i) < d.len() ==> !is_alnum_char(d[run_end(d, i)]),
    decreases d.len() - i,
{
    if i < d.len() && is_alnum_char(d[i]) {
        lemma_run_end_bounds(d, i + 1);
    }
}

pub proof fn lemma_digits_end_bounds(d: Seq<char>, i: int)
    requires
        0 <= i <= d.len(),
    ensures
        i <= digits_end(d, i) <= d.len(),
        forall|k: int| i <= k < digits_end(d, i) ==> is_digit_char(#[trigger] d[k]),
        digits_end(d, i) < d.len() ==> !is_digit_char(d[digits_end(d, i)]),
    decreases d.len() - i,
{
    if i < d.len() && is_digit_char(d[i]) {
        lemma_digits_end_bounds(d, i + 1);
    }
}

pub proof fn lemma_find_char_bounds(d: Seq<char>, i: int, c: char)
    requires
        0 <= i <= d.len(),
    ensures
        i <= find_char(d, i, c) <= d.len(),
        find_char(d, i, c) < d.len() ==> d[find_char(d, i, c)] == c,
        forall|k: int| i <= k < find_char(d, i, c) ==> #[trigger] d[k] != c,
    decreases d.len() - i,
{
    if i < d.len() && d[i] != c {
        lemma_find_char_bounds(d, i + 1, c);
    }
}

pub proof fn lemma_find_close_bounds(d: Seq<char>, i: int)
    requires
        0 <= i <= d.len(),
    ensures
        i <= find_close(d, i) <= d.len(),
        find_close(d, i) < d.len() ==> find_close(d, i) + 1 < d.len() && d[find_close(d, i)]
            == '*' && d[find_close(d, i) + 1] == '/',
        forall|k: int|
            i <= k < find_close(d, i) ==> !(#[trigger] d[k] == '*' && k + 1 < d.len() && d[k + 1]
                == '/'),
    decreases d.len() - i,
{
    if i < d.len() && !(d[i] == '*' && i + 1 < d.len() && d[i + 1] == '/') {
        lemma_find_close_bounds(d, i + 1);
    }
}

// ---------------------------------------------------------------------
// Token text: newline filtering and whitespace trimming for string and
// comment bodies.
// ---------------------------------------------------------------------
/// The sequence with every newline removed.
pub open spec fn strip_nl(s: Seq<char>) -> Seq<char>
    decreases s.len(),
{
    if s.len() == 0 {
        Seq::empty()
    } else if s.last() == '\n' {
        strip_nl(s.drop_last())
    } else {
        strip_nl(s.drop_last()).push(s.last())
    }
}

/// The sequence without leading whitespace.
pub open spec fn trim_left(s: Seq<char>) -> Seq<char>
    decreases s.len(),
{
    if s.len() > 0 && is_space_char(s.first()) {
        trim_left(s.drop_first())
    } else {
        s
    }
}

/// The sequence without trailing whitespace.
pub open spec fn trim_right(s: Seq<char>) -> Seq<char>
    decreases s.len(),
{
    if s.len() > 0 && is_space_char(s.last()) {
        trim_right(s.drop_last())
    } else {
        s
    }
}

/// The sequence without leading or trailing whitespace.
pub open spec fn trim_spaces(s: Seq<char>) -> Seq<char> {
    trim_right(trim_left(s))
}

proof fn lemma_trim_left_eq(s: Seq<char>, a: int)
    requires
        0 <= a <= s.len(),
        forall|k: int| 0 <= k < a ==> is_space_char(#[trigger] s[k]),
        a == s.len() || !is_space_char(s[a]),
    ensures
        trim_left(s) == s.subrange(a, s.len() as int),
    decreases a,
{
    if a == 0 {
        assert(s.subrange(0, s.len() as int) =~= s);
    } else {
        lemma_trim_left_eq(s.drop_first(), a - 1);
        assert(s.drop_first().subrange(a - 1, s.drop_first().len() as int) =~= s.subrange(
            a,
            s.len() as int,
        ));
    }
}

proof fn lemma_trim_right_eq(s: Seq<char>, b: int)
    requires
        0 <= b <= s.len(),
        forall|k: int| b <= k < s.len() ==> is_space_char(#[trigger] s[k]),
        b == 0 || !is_space_char(s[b - 1]),
    ensures
        trim_right(s) == s.subrange(0, b),
    decreases s.len() - b,
{
    if b == s.len() {
        assert(s.subrange(0, b) =~= s);
    } else {
        lemma_trim_right_eq(s.drop_last(), b);
        assert(s.drop_last().subrange(0, b) =~= s.subrange(0, b));
    }
}

// ---------------------------------------------------------------------
// The token sequence of an input.
// ---------------------------------------------------------------------
/// A token carrying no text at the position reached after consuming `i`
/// characters.
pub open spec fn mark_tok(d: Seq<char>, t: TokenType, i: int) -> TokenV {
    TokenV { token_type: t, value: Option::None, line: line_at(d, i) as nat, offset: col_at(d, i) as nat }
}

/// A token carrying text.
pub open spec fn text_tok(d: Seq<char>, t: TokenType, v: Seq<char>, i: int) -> TokenV {
    TokenV {
        token_type: t,
        value: Option::Some(v),
        line: line_at(d, i) as nat,
        offset: col_at(d, i) as nat,
    }
}

/// How an identifier word is classified: command keywords always, a
/// function keyword only when a `(` follows immediately, otherwise an
/// ordinary identifier.
pub open spec fn classify_word(d: Seq<char>, i: int, j: int) -> TokenV {
    let text = d.subrange(i, j);
    let next_is_paren = j < d.len() && d[j] == '(';
    if CommandKeyword::of_text(text) is Some {
        mark_tok(d, TokenType::CommandKeyword(CommandKeyword::of_text(text)->0), j)
    } else if FuncKeyword::of_text(text) is Some && next_is_paren {
        mark_tok(d, TokenType::FuncKeyword(FuncKeyword::of_text(text)->0), j)
    } else {
        text_tok(d, TokenType::Identifier, text, j)
    }
}

/// The tokens scanned from position `i` to the end of the input,
/// terminated by exactly one end-of-stream token.
pub open spec fn scan_from(d: Seq<char>, i: int) -> Seq<TokenV>
    decreases d.len() - i,
    when 0 <= i
    via scan_from_decreases
{
    if i >= d.len() {
        seq![mark_tok(d, TokenType::EOF, d.len() as int)]
    } else {
        let c = d[i];
        if c == '+' {
            seq![mark_tok(d, TokenType::Add, i)] + scan_from(d, i + 1)
        } else if c == '-' {
            seq![mark_tok(d, TokenType::Sub, i)] + scan_from(d, i + 1)
        } else if c == '(' {
            seq![mark_tok(d, TokenType::LParen, i)] + scan_from(d, i + 1)
        } else if c == ')' {
            seq![mark_tok(d, TokenType::RParen, i)] + scan_from(d, i + 1)
        } else if c == ',' {
            seq![mark_tok(d, TokenType::Comma, i)] + scan_from(d, i + 1)
        } else if c == '|' {
            seq![mark_tok(d, TokenType::Separator, i)] + scan_from(d, i + 1)
        } else if c == '<' {
            if i + 1 >= d.len() {
                scan_from(d, i + 1)
            } else if d[i + 1] == '=' {
                seq![mark_tok(d, TokenType::Lte, i + 1)] + scan_from(d, i + 2)
            } else {
                seq![mark_tok(d, TokenType::Lt, i + 1)] + scan_from(d, i + 1)
            }
        } else if c == '>' {
            if i + 1 >= d.len() {
                scan_from(d, i + 1)
            } else if d[i + 1] == '=' {
                seq![mark_tok(d, TokenType::Gte, i + 1)] + scan_from(d, i + 2)
            } else {
                seq![mark_tok(d, TokenType::Gt, i + 1)] + scan_from(d, i + 1)
            }
        } else if c == '=' {
            if i + 1 >= d.len() {
                scan_from(d, i + 1)
            } else if d[i + 1] == '=' {
                seq![mark_tok(d, TokenType::Eeq, i + 1)] + scan_from(d, i + 2)
            } else {
                seq![mark_tok(d, TokenType::Eq, i + 1)] + scan_from(d, i + 1)
            }
        } else if c == '!' {
            if i + 1 < d.len() && d[i + 1] == '=' {
                seq![mark_tok(d, TokenType::Neq, i + 1)] + scan_from(d, i + 2)
            } else {
                scan_from(d, i + 1)
            }
        } else if c == '\n' {
            scan_from(d, i + 1)
        } else if c == '"' {
            let j = find_char(d, i + 1, '"');
            if j < d.len() {
                seq![text_tok(d, TokenType::String, strip_nl(d.subrange(i + 1, j)), j + 1)]
                    + scan_from(d, j + 1)
            } else {
                scan_from(d, d.len() as int)
            }
        } else if c == '/' {
            if i + 1 < d.len() && d[i + 1] == '*' {
                let j = find_close(d, i + 2);
                if j < d.len() {
                    seq![
                        text_tok(
                            d,
                            TokenType::Comment,
                            trim_spaces(strip_nl(d.subrange(i + 2, j))),
                            j + 2,
                        ),
                    ] + scan_from(d, j + 2)
                } else {
                    scan_from(d, d.len() as int)
                }
            } else {
                scan_from(d, i + 1)
            }
        } else if c == '$' {
            let j = run_end(d, i + 1);
            seq![text_tok(d, TokenType::SpecialIdentifier, d.subrange(i, j), j)] + scan_from(d, j)
        } else if is_digit_char(c) {
            let j = digits_end(d, i);
            seq![text_tok(d, TokenType::Number, d.subrange(i, j), j)] + scan_from(d, j)
        } else if is_alpha_char(c) {
            let j = run_end(d, i);
            seq![classify_word(d, i, j)] + scan_from(d, j)
        } else {
            scan_from(d, i + 1)
        }
    }
}

#[via_fn]
proof fn scan_from_decreases(d: Seq<char>, i: int) {
    if 0 <= i < d.len() {
        let c = d[i];
        if c == '"' {
            lemma_find_char_bounds(d, i + 1, '"');
        } else if c == '/' {
            if i + 1 < d.len() && d[i + 1] == '*' {
                lemma_find_close_bounds(d, i + 2);
            }
        } else if c == '$' {
            lemma_run_end_bounds(d, i + 1);
        } else if is_digit_char(c) {
            lemma_digits_end_bounds(d, i);
        } else if is_alpha_char(c) {
            lemma_run_end_bounds(d, i);
            assert(run_end(d, i) > i);
        }
    }
}

/// The token sequence of a whole input.
pub open spec fn scan_spec(d: Seq<char>) -> Seq<TokenV> {
    scan_from(d, 0)
}

/// Scanning is total and its output carries exactly one end-of-stream
/// token, which stands last. This holds of every input text.
#[verifier::rlimit(100)]
pub proof fn lemma_scan_ends_with_eof(d: Seq<char>, i: int)
    requires
        0 <= i,
    ensures
        scan_from(d, i).len() >= 1,
        scan_from(d, i).last().token_type == TokenType::EOF,
        forall|k: int|
            0 <= k < scan_from(d, i).len() - 1 ==> #[trigger] scan_from(
                d,
                i,
            )[k].token_type != TokenType::EOF,
    decreases d.len() - i,
{
    if i < d.len() {
        let c = d[i];
        if c == '"' {
            lemma_find_char_bounds(d, i + 1, '"');
            let j = find_char(d, i + 1, '"');
            if j < d.len() {
                lemma_scan_ends_with_eof(d, j + 1);
            } else {
                lemma_scan_ends_with_eof(d, d.len() as int);
            }
        } else if c == '/' {
            if i + 1 < d.len() && d[i + 1] == '*' {
                lemma_find_close_bounds(d, i + 2);
                let j = find_close(d, i + 2);
                if j < d.len() {
                    lemma_scan_ends_with_eof(d, j + 2);
                } else {
                    lemma_scan_ends_with_eof(d, d.len() as int);
                }
            } else {
                lemma_scan_ends_with_eof(d, i + 1);
            }
        } else if c == '$' {
            lemma_run_end_bounds(d, i + 1);
            lemma_scan_ends_with_eof(d, run_end(d, i + 1));
        } else if is_digit_char(c) {
            lemma_digits_end_bounds(d, i);
            lemma_scan_ends_with_eof(d, digits_end(d, i));
        } else if is_alpha_char(c) && c != '$' {
            lemma_run_end_bounds(d, i);
            lemma_scan_ends_with_eof(d, run_end(d, i));
        } else {
            lemma_scan_ends_with_eof(d, i + 1);
            if (c == '<' || c == '>' || c == '=') && i + 1 < d.len() && d[i + 1] == '=' {
                lemma_scan_ends_with_eof(d, i + 2);
            }
            if c == '!' && i + 1 < d.len() && d[i + 1] == '=' {
                lemma_scan_ends_with_eof(d, i + 2);
            }
        }
    }
}

// ---------------------------------------------------------------------
// Supporting lemmas for the executable scanner.
// ---------------------------------------------------------------------
proof fn lemma_run_end_eq(d: Seq<char>, i: int, j: int)
    requires
        0 <= i <= j <= d.len(),
        forall|k: int| i <= k < j ==> is_alnum_char(#[trigger] d[k]),
        j == d.len() || !is_alnum_char(d[j]),
    ensures
        run_end(d, i) == j,
    decreases j - i,
{
    if i < j {
        lemma_run_end_eq(d, i + 1, j);
    }
}

proof fn lemma_digits_end_eq(d: Seq<char>, i: int, j: int)
    requires
        0 <= i <= j <= d.len(),
        forall|k: int| i <= k < j ==> is_digit_char(#[trigger] d[k]),
        j == d.len() || !is_digit_char(d[j]),
    ensures
        digits_end(d, i) == j,
    decreases j - i,
{
    if i < j {
        lemma_digits_end_eq(d, i + 1, j);
    }
}

proof fn lemma_find_char_eq(d: Seq<char>, i: int, j: int, c: char)
    requires
        0 <= i <= j <= d.len(),
        forall|k: int| i <= k < j ==> #[trigger] d[k] != c,
        j == d.len() || d[j] == c,
    ensures
        find_char(d, i, c) == j,
    decreases j - i,
{
    if i < j {
        lemma_find_char_eq(d, i + 1, j, c);
    }
}

proof fn lemma_find_close_eq(d: Seq<char>, i: int, j: int)
    requires
        0 <= i <= j <= d.len(),
        forall|k: int|
            i <= k < j ==> !(#[trigger] d[k] == '*' && k + 1 < d.len() && d[k + 1] == '/'),
        j == d.len() || (d[j] == '*' && j + 1 < d.len() && d[j + 1] == '/'),
    ensures
        find_close(d, i) == j,
    decreases j - i,
{
    if i < j {
        lemma_find_close_eq(d, i + 1, j);
    }
}

// ---------------------------------------------------------------------
// The executable scanner.
// ---------------------------------------------------------------------
/// A byte-oriented cursor over one input text, accumulating tokens.
pub struct Scanner {
    data: String,
    tokens: Vec<Token>,
    _current_index: usize,
    _data_size: usize,
    _line: usize,
    _line_index: usize,
}

impl Scanner {
    /// The cursor state is consistent: the recorded size, line and column
    /// agree with how much of the input has been consumed.
    pub closed spec fn wf(&self) -> bool {
        &&& self._data_size == self.data@.len()
        &&& self._current_index <= self.data@.len()
        &&& self.data@.len() < usize::MAX
        &&& self._line == line_at(self.data@, self._current_index as int)
        &&& self._line_index == col_at(self.data@, self._current_index as int)
    }

    /// The tokens emitted so far.
    pub closed spec fn recorded_tokens(&self) -> Seq<TokenV> {
        toks_view(self.tokens@)
    }

    /// The tokens already emitted followed by those the rest of the input
    /// will produce; every handler leaves this unchanged.
    spec fn total_toks(&self) -> Seq<TokenV> {
        toks_view(self.tokens@) + scan_from(self.data@, self._current_index as int)
    }

    pub fn new() -> (r: Scanner)
        ensures
            r.recorded_tokens() =~= Seq::<TokenV>::empty(),
            r.wf(),
    {
        let r = Scanner {
            data: String::new(),
            tokens: Vec::new(),
            _current_index: 0,
            _data_size: 0,
            _line: 1,
            _line_index: 1,
        };
        proof {
            assert(r.tokens@.len() == 0);
            assert(toks_view(r.tokens@) =~= Seq::<TokenV>::empty());
        }
        r
    }

    fn populate(&mut self, text: &str)
        requires
            text@.len() < usize::MAX,
        ensures
            final(self).wf(),
            final(self).data@ == text@,
            final(self)._current_index == 0,
            final(self).tokens == old(self).tokens,
    {
        self.data = String::from_str(text);
        self._data_size = self.data.as_str().unicode_len();
        self._current_index = 0;
        self._line = 1;
        self._line_index = 1;
    }

    fn peek(&self) -> (r: Option<char>)
        requires
            self.wf(),
        ensures
            r == if self._current_index < self.data@.len() {
                Option::Some(self.data@[self._current_index as int])
            } else {
                Option::<char>::None
            },
    {
        if self._current_index < self._data_size {
            Some(self.data.as_str().get_char(self._current_index))
        } else {
            None
        }
    }

    fn advance(&mut self) -> (r: Option<char>)
        requires
            old(self).wf(),
        ensures
            final(self).wf(),
            final(self).data == old(self).data,
            final(self).tokens == old(self).tokens,
            old(self)._current_index < old(self).data@.len() ==> {
                &&& r == Option::Some(old(self).data@[old(self)._current_index as int])
                &&& final(self)._current_index == old(self)._current_index + 1
            },
            old(self)._current_index >= old(self).data@.len() ==> {
                &&& r == Option::<char>::None
                &&& final(self)._current_index == old(self)._current_index
            },
    {
        let res = self.peek();
        if let Some(c) = res {
            proof {
                lemma_pos_bounds(self.data@, self._current_index as int);
            }
            self._current_index = self._current_index + 1;
            if c == '\n' {
                self._line = self._line + 1;
                self._line_index = 1;
            } else {
                self._line_index = self._line_index + 1;
            }
        }
        res
    }

    fn add_token(&mut self, token_type: TokenType, value: Option<String>)
        requires
            old(self).wf(),
        ensures
            final(self).wf(),
            final(self).data == old(self).data,
            final(self)._current_index == old(self)._current_index,
            toks_view(final(self).tokens@) =~= toks_view(old(self).tokens@).push(
                TokenV {
                    token_type,
                    value: opt_str_view(value),
                    line: line_at(old(self).data@, old(self)._current_index as int) as nat,
                    offset: col_at(old(self).data@, old(self)._current_index as int) as nat,
                },
            ),
    {
        proof {
            lemma_pos_bounds(self.data@, self._current_index as int);
        }
        let t = Token { token_type, value, offset: self._line_index, line: self._line };
        let ghost tv = t@;
        let ghost ts = self.tokens@;
        self.tokens.push(t);
        proof {
            assert(toks_view(self.tokens@) =~= toks_view(ts).push(tv));
        }
    }
}

/// Drop leading and trailing whitespace from a comment body.
fn trim_string(s: &String) -> (r: String)
    ensures
        r@ == trim_spaces(s@),
{
    let n = s.as_str().unicode_len();
    let mut a: usize = 0;
    while a < n && exec_is_space(s.as_str().get_char(a))
        invariant
            0 <= a <= n,
            n == s@.len(),
            forall|k: int| 0 <= k < a ==> is_space_char(#[trigger] s@[k]),
        decreases n - a,
    {
        a = a + 1;
    }
    proof {
        lemma_trim_left_eq(s@, a as int);
    }
    let mut b: usize = n;
    while b > a && exec_is_space(s.as_str().get_char(b - 1))
        invariant
            a <= b <= n,
            n == s@.len(),
            forall|k: int| b <= k < n ==> is_space_char(#[trigger] s@[k]),
        decreases b,
    {
        b = b - 1;
    }
    let r = String::from_str(s.as_str().substring_char(a, b));
    proof {
        let t = s@.subrange(a as int, n as int);
        lemma_trim_right_eq(t, b - a);
        assert(t.subrange(0, b - a) =~= s@.subrange(a as int, b as int));
    }
    r
}

impl Scanner {
    /// ASCII letter test, as the scanner uses it.
    fn is_alpha(&self, val: char) -> (r: bool)
        ensures
            r == is_alpha_char(val),
    {
        exec_is_alpha(val)
    }

    /// ASCII digit test, as the scanner uses it.
    fn is_numeric(&self, val: char) -> (r: bool)
        ensures
            r == is_digit_char(val),
    {
        exec_is_digit(val)
    }

    /// Whether the cursor stands on a letter or digit.
    fn at_alnum(&self) -> (r: bool)
        requires
            self.wf(),
        ensures
            r == (self._current_index < self.data@.len() && is_alnum_char(
                self.data@[self._current_index as int],
            )),
    {
        match self.peek() {
            Some(c) => self.is_alpha(c) || self.is_numeric(c),
            None => false,
        }
    }

    /// Whether the cursor stands on a digit.
    fn at_digit(&self) -> (r: bool)
        requires
            self.wf(),
        ensures
            r == (self._current_index < self.data@.len() && is_digit_char(
                self.data@[self._current_index as int],
            )),
    {
        match self.peek() {
            Some(c) => self.is_numeric(c),
            None => false,
        }
    }

    /// Whether the cursor is still inside a string literal's body.
    fn in_string_body(&self) -> (r: bool)
        requires
            self.wf(),
        ensures
            r == (self._current_index < self.data@.len() && self.data@[self._current_index as int]
                != '"'),
    {
        match self.peek() {
            Some(c) => c != '"',
            None => false,
        }
    }

    /// Whether the cursor is still inside a comment body: not yet at a
    /// closing `*/` nor at the end of the input.
    fn in_comment_body(&self) -> (r: bool)
        requires
            self.wf(),
        ensures
            r == (self._current_index < self.data@.len() && !(self.data@[self._current_index as int]
                == '*' && self._current_index + 1 < self.data@.len() && self.data@[self._current_index
                + 1] == '/')),
    {
        if self._current_index < self._data_size {
            let c = self.data.as_str().get_char(self._current_index);
            if c == '*' {
                if self._current_index + 1 < self._data_size {
                    self.data.as_str().get_char(self._current_index + 1) != '/'
                } else {
                    true
                }
            } else {
                true
            }
        } else {
            false
        }
    }

    /// Collect the input's characters between `from` and `to`, dropping
    /// newlines: the raw body of a string literal or comment.
    fn collect_body(&self, from: usize, to: usize) -> (r: String)
        requires
            self.wf(),
            from <= to <= self.data@.len(),
        ensures
            r@ == strip_nl(self.data@.subrange(from as int, to as int)),
    {
        let ghost d = self.data@;
        let mut val = String::new();
        let mut k: usize = from;
        proof {
            assert(d.subrange(from as int, from as int) =~= Seq::<char>::empty());
        }
        while k < to
            invariant
                self.wf(),
                from <= k <= to <= self.data@.len(),
                d == self.data@,
                val@ == strip_nl(d.subrange(from as int, k as int)),
            decreases to - k,
        {
            let c = self.data.as_str().get_char(k);
            proof {
                assert(d.subrange(from as int, k + 1).drop_last() =~= d.subrange(
                    from as int,
                    k as int,
                ));
                assert(d.subrange(from as int, k + 1).last() == d[k as int]);
            }
            if c != '\n' {
                let piece = self.data.as_str().substring_char(k, k + 1);
                proof {
                    assert(piece@ =~= seq![d[k as int]]);
                    assert(strip_nl(d.subrange(from as int, k as int)) + seq![d[k as int]]
                        =~= strip_nl(d.subrange(from as int, k as int)).push(d[k as int]));
                }
                val.append(piece);
            }
            k = k + 1;
        }
        val
    }

    fn handle_equals(&mut self)
        requires
            old(self).wf(),
            old(self)._current_index < old(self).data@.len(),
            old(self).data@[old(self)._current_index as int] == '=',
        ensures
            final(self).wf(),
            final(self).data@ == old(self).data@,
            old(self)._current_index < final(self)._current_index,
            final(self).total_toks() == old(self).total_toks(),
    {
        let ghost d = self.data@;
        let ghost i0 = self._current_index as int;
        let ghost t0 = self.tokens@;
        self.advance();
        if let Some(c) = self.peek() {
            if c == '=' {
                self.add_token(TokenType::Eeq, None);
                self.advance();
            } else {
                self.add_token(TokenType::Eq, None);
            }
        }
        proof {
            if i0 + 1 < d.len() {
                if d[i0 + 1] == '=' {
                    assert(scan_from(d, i0) =~= seq![mark_tok(d, TokenType::Eeq, i0 + 1)]
                        + scan_from(d, i0 + 2));
                    assert(toks_view(t0).push(mark_tok(d, TokenType::Eeq, i0 + 1)) + scan_from(
                        d,
                        i0 + 2,
                    ) =~= toks_view(t0) + scan_from(d, i0));
                } else {
                    assert(scan_from(d, i0) =~= seq![mark_tok(d, TokenType::Eq, i0 + 1)]
                        + scan_from(d, i0 + 1));
                    assert(toks_view(t0).push(mark_tok(d, TokenType::Eq, i0 + 1)) + scan_from(
                        d,
                        i0 + 1,
                    ) =~= toks_view(t0) + scan_from(d, i0));
                }
            } else {
                assert(scan_from(d, i0) == scan_from(d, i0 + 1));
            }
        }
    }

    fn handle_lt(&mut self)
        requires
            old(self).wf(),
            old(self)._current_index < old(self).data@.len(),
            old(self).data@[old(self)._current_index as int] == '<',
        ensures
            final(self).wf(),
            final(self).data@ == old(self).data@,
            old(self)._current_index < final(self)._current_index,
            final(self).total_toks() == old(self).total_toks(),
    {
        let ghost d = self.data@;
        let ghost i0 = self._current_index as int;
        let ghost t0 = self.tokens@;
        self.advance();
        if let Some(c) = self.peek() {
            if c == '=' {
                self.add_token(TokenType::Lte, None);
                self.advance();
            } else {
                self.add_token(TokenType::Lt, None);
            }
        }
        proof {
            if i0 + 1 < d.len() {
                if d[i0 + 1] == '=' {
                    assert(scan_from(d, i0) =~= seq![mark_tok(d, TokenType::Lte, i0 + 1)]
                        + scan_from(d, i0 + 2));
                    assert(toks_view(t0).push(mark_tok(d, TokenType::Lte, i0 + 1)) + scan_from(
                        d,
                        i0 + 2,
                    ) =~= toks_view(t0) + scan_from(d, i0));
                } else {
                    assert(scan_from(d, i0) =~= seq![mark_tok(d, TokenType::Lt, i0 + 1)]
                        + scan_from(d, i0 + 1));
                    assert(toks_view(t0).push(mark_tok(d, TokenType::Lt, i0 + 1)) + scan_from(
                        d,
                        i0 + 1,
                    ) =~= toks_view(t0) + scan_from(d, i0));
                }
            } else {
                assert(scan_from(d, i0) == scan_from(d, i0 + 1));
            }
        }
    }

    fn handle_gt(&mut self)
        requires
            old(self).wf(),
            old(self)._current_index < old(self).data@.len(),
            old(self).data@[old(self)._current_index as int] == '>',
        ensures
            final(self).wf(),
            final(self).data@ == old(self).data@,
            old(self)._current_index < final(self)._current_index,
            final(self).total_toks() == old(self).total_toks(),
    {
        let ghost d = self.data@;
        let ghost i0 = self._current_index as int;
        let ghost t0 = self.tokens@;
        self.advance();
        if let Some(c) = self.peek() {
            if c == '=' {
                self.add_token(TokenType::Gte, None);
                self.advance();
            } else {
                self.add_token(TokenType::Gt, None);
            }
        }
        proof {
            if i0 + 1 < d.len() {
                if d[i0 + 1] == '=' {
                    assert(scan_from(d, i0) =~= seq![mark_tok(d, TokenType::Gte, i0 + 1)]
                        + scan_from(d, i0 + 2));
                    assert(toks_view(t0).push(mark_tok(d, TokenType::Gte, i0 + 1)) + scan_from(
                        d,
                        i0 + 2,
                    ) =~= toks_view(t0) + scan_from(d, i0));
                } else {
                    assert(scan_from(d, i0) =~= seq![mark_tok(d, TokenType::Gt, i0 + 1)]
                        + scan_from(d, i0 + 1));
                    assert(toks_view(t0).push(mark_tok(d, TokenType::Gt, i0 + 1)) + scan_from(
                        d,
                        i0 + 1,
                    ) =~= toks_view(t0) + scan_from(d, i0));
                }
            } else {
                assert(scan_from(d, i0) == scan_from(d, i0 + 1));
            }
        }
    }

    fn handle_exclamation(&mut self)
        requires
            old(self).wf(),
            old(self)._current_index < old(self).data@.len(),
            old(self).data@[old(self)._current_index as int] == '!',
        ensures
            final(self).wf(),
            final(self).data@ == old(self).data@,
            old(self)._current_index < final(self)._current_index,
            final(self).total_toks() == old(self).total_toks(),
    {
        let ghost d = self.data@;
        let ghost i0 = self._current_index as int;
        let ghost t0 = self.tokens@;
        self.advance();
        if let Some(c) = self.peek() {
            if c == '=' {
                self.add_token(TokenType::Neq, None);
                self.advance();
                proof {
                    assert(scan_from(d, i0) =~= seq![mark_tok(d, TokenType::Neq, i0 + 1)]
                        + scan_from(d, i0 + 2));
                    assert(toks_view(t0).push(mark_tok(d, TokenType::Neq, i0 + 1)) + scan_from(
                        d,
                        i0 + 2,
                    ) =~= toks_view(t0) + scan_from(d, i0));
                }
            } else {
                proof {
                    assert(scan_from(d, i0) == scan_from(d, i0 + 1));
                }
            }
        } else {
            proof {
                assert(scan_from(d, i0) == scan_from(d, i0 + 1));
            }
        }
    }

    fn handle_single(&mut self, token_type: TokenType)
        requires
            old(self).wf(),
            old(self)._current_index < old(self).data@.len(),
        ensures
            final(self).wf(),
            final(self).data == old(self).data,
            final(self)._current_index == old(self)._current_index + 1,
            toks_view(final(self).tokens@) =~= toks_view(old(self).tokens@).push(
                mark_tok(old(self).data@, token_type, old(self)._current_index as int),
            ),
    {
        self.add_token(token_type, None);
        self.advance();
    }

    fn handle_comma(&mut self)
        requires
            old(self).wf(),
            old(self)._current_index < old(self).data@.len(),
            old(self).data@[old(self)._current_index as int] == ',',
        ensures
            final(self).wf(),
            final(self).data@ == old(self).data@,
            old(self)._current_index < final(self)._current_index,
            final(self).total_toks() == old(self).total_toks(),
    {
        let ghost d = self.data@;
        let ghost i0 = self._current_index as int;
        let ghost t0 = self.tokens@;
        self.handle_single(TokenType::Comma);
        proof {
            assert(scan_from(d, i0) =~= seq![mark_tok(d, TokenType::Comma, i0)] + scan_from(
                d,
                i0 + 1,
            ));
            assert(toks_view(t0).push(mark_tok(d, TokenType::Comma, i0)) + scan_from(d, i0 + 1)
                =~= toks_view(t0) + scan_from(d, i0));
        }
    }

    fn handle_seperator(&mut self)
        requires
            old(self).wf(),
            old(self)._current_index < old(self).data@.len(),
            old(self).data@[old(self)._current_index as int] == '|',
        ensures
            final(self).wf(),
            final(self).data@ == old(self).data@,
            old(self)._current_index < final(self)._current_index,
            final(self).total_toks() == old(self).total_toks(),
    {
        let ghost d = self.data@;
        let ghost i0 = self._current_index as int;
        let ghost t0 = self.tokens@;
        self.handle_single(TokenType::Separator);
        proof {
            assert(scan_from(d, i0) =~= seq![mark_tok(d, TokenType::Separator, i0)] + scan_from(
                d,
                i0 + 1,
            ));
            assert(toks_view(t0).push(mark_tok(d, TokenType::Separator, i0)) + scan_from(d, i0 + 1)
                =~= toks_view(t0) + scan_from(d, i0));
        }
    }

    fn handle_add(&mut self)
        requires
            old(self).wf(),
            old(self)._current_index < old(self).data@.len(),
            old(self).data@[old(self)._current_index as int] == '+',
        ensures
            final(self).wf(),
            final(self).data@ == old(self).data@,
            old(self)._current_index < final(self)._current_index,
            final(self).total_toks() == old(self).total_toks(),
    {
        let ghost d = self.data@;
        let ghost i0 = self._current_index as int;
        let ghost t0 = self.tokens@;
        self.handle_single(TokenType::Add);
        proof {
            assert(scan_from(d, i0) =~= seq![mark_tok(d, TokenType::Add, i0)] + scan_from(
                d,
                i0 + 1,
            ));
            assert(toks_view(t0).push(mark_tok(d, TokenType::Add, i0)) + scan_from(d, i0 + 1)
                =~= toks_view(t0) + scan_from(d, i0));
        }
    }

    fn handle_sub(&mut self)
        requires
            old(self).wf(),
            old(self)._current_index < old(self).data@.len(),
            old(self).data@[old(self)._current_index as int] == '-',
        ensures
            final(self).wf(),
            final(self).data@ == old(self).data@,
            old(self)._current_index < final(self)._current_index,
            final(self).total_toks() == old(self).total_toks(),
    {
        let ghost d = self.data@;
        let ghost i0 = self._current_index as int;
        let ghost t0 = self.tokens@;
        self.handle_single(TokenType::Sub);
        proof {
            assert(scan_from(d, i0) =~= seq![mark_tok(d, TokenType::Sub, i0)] + scan_from(
                d,
                i0 + 1,
            ));
            assert(toks_view(t0).push(mark_tok(d, TokenType::Sub, i0)) + scan_from(d, i0 + 1)
                =~= toks_view(t0) + scan_from(d, i0));
        }
    }

    fn handle_lparen(&mut self)
        requires
            old(self).wf(),
            old(self)._current_index < old(self).data@.len(),
            old(self).data@[old(self)._current_index as int] == '(',
        ensures
            final(self).wf(),
            final(self).data@ == old(self).data@,
            old(self)._current_index < final(self)._current_index,
            final(self).total_toks() == old(self).total_toks(),
    {
        let ghost d = self.data@;
        let ghost i0 = self._current_index as int;
        let ghost t0 = self.tokens@;
        self.handle_single(TokenType::LParen);
        proof {
            assert(scan_from(d, i0) =~= seq![mark_tok(d, TokenType::LParen, i0)] + scan_from(
                d,
                i0 + 1,
            ));
            assert(toks_view(t0).push(mark_tok(d, TokenType::LParen, i0)) + scan_from(d, i0 + 1)
                =~= toks_view(t0) + scan_from(d, i0));
        }
    }

    fn handle_rparen(&mut self)
        requires
            old(self).wf(),
            old(self)._current_index < old(self).data@.len(),
            old(self).data@[old(self)._current_index as int] == ')',
        ensures
            final(self).wf(),
            final(self).data@ == old(self).data@,
            old(self)._current_index < final(self)._current_index,
            final(self).total_toks() == old(self).total_toks(),
    {
        let ghost d = self.data@;
        let ghost i0 = self._current_index as int;
        let ghost t0 = self.tokens@;
        self.handle_single(TokenType::RParen);
        proof {
            assert(scan_from(d, i0) =~= seq![mark_tok(d, TokenType::RParen, i0)] + scan_from(
                d,
                i0 + 1,
            ));
            assert(toks_view(t0).push(mark_tok(d, TokenType::RParen, i0)) + scan_from(d, i0 + 1)
                =~= toks_view(t0) + scan_from(d, i0));
        }
    }
}


impl Scanner {
    fn handle_identifier(&mut self)
        requires
            old(self).wf(),
            old(self)._current_index < old(self).data@.len(),
            is_alpha_char(old(self).data@[old(self)._current_index as int]),
        ensures
            final(self).wf(),
            final(self).data@ == old(self).data@,
            old(self)._current_index < final(self)._current_index,
            final(self).total_toks() == old(self).total_toks(),
    {
        let ghost d = self.data@;
        let ghost i0 = self._current_index as int;
        let ghost t0 = self.tokens@;
        let start = self._current_index;
        while self.at_alnum()
            invariant
                self.wf(),
                self.data@ == d,
                self.tokens@ == t0,
                i0 <= self._current_index as int <= d.len(),
                forall|k: int|
                    i0 <= k < self._current_index as int ==> is_alnum_char(#[trigger] d[k]),
            decreases d.len() - self._current_index,
        {
            self.advance();
        }
        let j = self._current_index;
        proof {
            lemma_run_end_eq(d, i0, j as int);
        }
        let text = String::from_str(self.data.as_str().substring_char(start, j));
        if let Some(kw) = CommandKeyword::from_text(text.as_str()) {
            self.add_token(TokenType::CommandKeyword(kw), None);
        } else if let Some(f) = FuncKeyword::from_text(text.as_str()) {
            let next_is_paren = match self.peek() {
                Some(c) => c == '(',
                None => false,
            };
            if next_is_paren {
                self.add_token(TokenType::FuncKeyword(f), None);
            } else {
                self.add_token(TokenType::Identifier, Some(text));
            }
        } else {
            self.add_token(TokenType::Identifier, Some(text));
        }
        proof {
            assert(scan_from(d, i0) =~= seq![classify_word(d, i0, j as int)] + scan_from(
                d,
                j as int,
            ));
            assert(toks_view(self.tokens@) =~= toks_view(t0).push(classify_word(d, i0, j as int)));
            assert(toks_view(t0).push(classify_word(d, i0, j as int)) + scan_from(d, j as int)
                =~= toks_view(t0) + scan_from(d, i0));
        }
    }

    fn handle_number(&mut self)
        requires
            old(self).wf(),
            old(self)._current_index < old(self).data@.len(),
            is_digit_char(old(self).data@[old(self)._current_index as int]),
        ensures
            final(self).wf(),
            final(self).data@ == old(self).data@,
            old(self)._current_index < final(self)._current_index,
            final(self).total_toks() == old(self).total_toks(),
    {
        let ghost d = self.data@;
        let ghost i0 = self._current_index as int;
        let ghost t0 = self.tokens@;
        let start = self._current_index;
        while self.at_digit()
            invariant
                self.wf(),
                self.data@ == d,
                self.tokens@ == t0,
                i0 <= self._current_index as int <= d.len(),
                forall|k: int|
                    i0 <= k < self._current_index as int ==> is_digit_char(#[trigger] d[k]),
            decreases d.len() - self._current_index,
        {
            self.advance();
        }
        let j = self._current_index;
        proof {
            lemma_digits_end_eq(d, i0, j as int);
        }
        let val = String::from_str(self.data.as_str().substring_char(start, j));
        self.add_token(TokenType::Number, Some(val));
        proof {
            assert(scan_from(d, i0) =~= seq![
                text_tok(d, TokenType::Number, d.subrange(i0, j as int), j as int),
            ] + scan_from(d, j as int));
            assert(toks_view(t0).push(
                text_tok(d, TokenType::Number, d.subrange(i0, j as int), j as int),
            ) + scan_from(d, j as int) =~= toks_view(t0) + scan_from(d, i0));
        }
    }

    fn handle_special_identifier(&mut self)
        requires
            old(self).wf(),
            old(self)._current_index < old(self).data@.len(),
            old(self).data@[old(self)._current_index as int] == '$',
        ensures
            final(self).wf(),
            final(self).data@ == old(self).data@,
            old(self)._current_index < final(self)._current_index,
            final(self).total_toks() == old(self).total_toks(),
    {
        let ghost d = self.data@;
        let ghost i0 = self._current_index as int;
        let ghost t0 = self.tokens@;
        let start = self._current_index;
        self.advance();
        while self.at_alnum()
            invariant
                self.wf(),
                self.data@ == d,
                self.tokens@ == t0,
                i0 + 1 <= self._current_index as int <= d.len(),
                forall|k: int|
                    i0 + 1 <= k < self._current_index as int ==> is_alnum_char(#[trigger] d[k]),
            decreases d.len() - self._current_index,
        {
            self.advance();
        }
        let j = self._current_index;
        proof {
            lemma_run_end_eq(d, i0 + 1, j as int);
        }
        let val = String::from_str(self.data.as_str().substring_char(start, j));
        self.add_token(TokenType::SpecialIdentifier, Some(val));
        proof {
            assert(scan_from(d, i0) =~= seq![
                text_tok(d, TokenType::SpecialIdentifier, d.subrange(i0, j as int), j as int),
            ] + scan_from(d, j as int));
            assert(toks_view(t0).push(
                text_tok(d, TokenType::SpecialIdentifier, d.subrange(i0, j as int), j as int),
            ) + scan_from(d, j as int) =~= toks_view(t0) + scan_from(d, i0));
        }
    }

    fn handle_string(&mut self)
        requires
            old(self).wf(),
            old(self)._current_index < old(self).data@.len(),
            old(self).data@[old(self)._current_index as int] == '"',
        ensures
            final(self).wf(),
            final(self).data@ == old(self).data@,
            old(self)._current_index < final(self)._current_index,
            final(self).total_toks() == old(self).total_toks(),
    {
        let ghost d = self.data@;
        let ghost i0 = self._current_index as int;
        let ghost t0 = self.tokens@;
        let start = self._current_index;
        self.advance();
        while self.in_string_body()
            invariant
                self.wf(),
                self.data@ == d,
                self.tokens@ == t0,
                i0 + 1 <= self._current_index as int <= d.len(),
                forall|k: int| i0 + 1 <= k < self._current_index as int ==> #[trigger] d[k] != '"',
            decreases d.len() - self._current_index,
        {
            self.advance();
        }
        let j = self._current_index;
        proof {
            lemma_find_char_eq(d, i0 + 1, j as int, '"');
        }
        if self._current_index < self._data_size {
            let val = self.collect_body(start + 1, j);
            self.advance();
            self.add_token(TokenType::String, Some(val));
            proof {
                assert(scan_from(d, i0) =~= seq![
                    text_tok(
                        d,
                        TokenType::String,
                        strip_nl(d.subrange(i0 + 1, j as int)),
                        j as int + 1,
                    ),
                ] + scan_from(d, j as int + 1));
                assert(toks_view(t0).push(
                    text_tok(
                        d,
                        TokenType::String,
                        strip_nl(d.subrange(i0 + 1, j as int)),
                        j as int + 1,
                    ),
                ) + scan_from(d, j as int + 1) =~= toks_view(t0) + scan_from(d, i0));
            }
        } else {
            proof {
                assert(scan_from(d, i0) == scan_from(d, d.len() as int));
            }
        }
    }

    fn handle_comment(&mut self)
        requires
            old(self).wf(),
            old(self)._current_index + 1 < old(self).data@.len(),
            old(self).data@[old(self)._current_index as int] == '/',
            old(self).data@[old(self)._current_index as int + 1] == '*',
        ensures
            final(self).wf(),
            final(self).data@ == old(self).data@,
            old(self)._current_index < final(self)._current_index,
            final(self).total_toks() == old(self).total_toks(),
    {
        let ghost d = self.data@;
        let ghost i0 = self._current_index as int;
        let ghost t0 = self.tokens@;
        let start = self._current_index;
        self.advance();
        self.advance();
        while self.in_comment_body()
            invariant
                self.wf(),
                self.data@ == d,
                self.tokens@ == t0,
                i0 + 2 <= self._current_index as int <= d.len(),
                forall|k: int|
                    i0 + 2 <= k < self._current_index as int ==> !(#[trigger] d[k] == '*' && k + 1
                        < d.len() && d[k + 1] == '/'),
            decreases d.len() - self._current_index,
        {
            self.advance();
        }
        let j = self._current_index;
        proof {
            lemma_find_close_eq(d, i0 + 2, j as int);
        }
        if self._current_index < self._data_size {
            let raw = self.collect_body(start + 2, j);
            let val = trim_string(&raw);
            self.advance();
            self.advance();
            self.add_token(TokenType::Comment, Some(val));
            proof {
                assert(scan_from(d, i0) =~= seq![
                    text_tok(
                        d,
                        TokenType::Comment,
                        trim_spaces(strip_nl(d.subrange(i0 + 2, j as int))),
                        j as int + 2,
                    ),
                ] + scan_from(d, j as int + 2));
                assert(toks_view(t0).push(
                    text_tok(
                        d,
                        TokenType::Comment,
                        trim_spaces(strip_nl(d.subrange(i0 + 2, j as int))),
                        j as int + 2,
                    ),
                ) + scan_from(d, j as int + 2) =~= toks_view(t0) + scan_from(d, i0));
            }
        } else {
            proof {
                assert(scan_from(d, i0) == scan_from(d, d.len() as int));
            }
        }
    }

    fn handle_slash(&mut self)
        requires
            old(self).wf(),
            old(self)._current_index < old(self).data@.len(),
            old(self).data@[old(self)._current_index as int] == '/',
        ensures
            final(self).wf(),
            final(self).data@ == old(self).data@,
            old(self)._current_index < final(self)._current_index,
            final(self).total_toks() == old(self).total_toks(),
    {
        let ghost d = self.data@;
        let ghost i0 = self._current_index as int;
        let is_comment = if self._current_index + 1 < self._data_size {
            self.data.as_str().get_char(self._current_index + 1) == '*'
        } else {
            false
        };
        if is_comment {
            self.handle_comment();
        } else {
            self.advance();
            proof {
                assert(scan_from(d, i0) == scan_from(d, i0 + 1));
            }
        }
    }

    fn handle_rest(&mut self)
        requires
            old(self).wf(),
            old(self)._current_index < old(self).data@.len(),
            !(old(self).data@[old(self)._current_index as int] == '+'
                || old(self).data@[old(self)._current_index as int] == '-'
                || old(self).data@[old(self)._current_index as int] == '<'
                || old(self).data@[old(self)._current_index as int] == '>'
                || old(self).data@[old(self)._current_index as int] == '('
                || old(self).data@[old(self)._current_index as int] == ')'
                || old(self).data@[old(self)._current_index as int] == '='
                || old(self).data@[old(self)._current_index as int] == ','
                || old(self).data@[old(self)._current_index as int] == '|'
                || old(self).data@[old(self)._current_index as int] == '/'
                || old(self).data@[old(self)._current_index as int] == '\n'
                || old(self).data@[old(self)._current_index as int] == '"'
                || old(self).data@[old(self)._current_index as int] == '$'
                || old(self).data@[old(self)._current_index as int] == '!'),
        ensures
            final(self).wf(),
            final(self).data@ == old(self).data@,
            old(self)._current_index < final(self)._current_index,
            final(self).total_toks() == old(self).total_toks(),
    {
        let ghost d = self.data@;
        let ghost i0 = self._current_index as int;
        if let Some(c) = self.peek() {
            if self.is_numeric(c) {
                self.handle_number();
            } else if self.is_alpha(c) {
                self.handle_identifier();
            } else {
                self.advance();
                proof {
                    assert(scan_from(d, i0) == scan_from(d, i0 + 1));
                }
            }
        }
    }

    /// Scan one input text, appending its tokens, ending with exactly one
    /// end-of-stream token, and return the tokens recorded so far.
    pub fn scan(&mut self, data: &str) -> (r: Vec<Token>)
        requires
            data@.len() < usize::MAX,
        ensures
            toks_view(r@) == old(self).recorded_tokens() + scan_spec(data@),
            final(self).recorded_tokens() == toks_view(r@),
    {
        self.populate(data);
        let ghost d = self.data@;
        let ghost t0 = self.tokens@;
        while self._current_index < self._data_size
            invariant
                self.wf(),
                self.data@ == d,
                d == data@,
                toks_view(self.tokens@) + scan_from(d, self._current_index as int) == toks_view(t0)
                    + scan_from(d, 0),
            decreases self.data@.len() - self._current_index,
        {
            let c = self.data.as_str().get_char(self._current_index);
            let ghost i0 = self._current_index as int;
            match c {
                '+' => self.handle_add(),
                '-' => self.handle_sub(),
                '<' => self.handle_lt(),
                '>' => self.handle_gt(),
                '(' => self.handle_lparen(),
                ')' => self.handle_rparen(),
                '=' => self.handle_equals(),
                ',' => self.handle_comma(),
                '|' => self.handle_seperator(),
                '/' => self.handle_slash(),
                '\n' => {
                    self.advance();
                    proof {
                        assert(scan_from(d, i0) == scan_from(d, i0 + 1));
                    }
                },
                '"' => self.handle_string(),
                '$' => self.handle_special_identifier(),
                '!' => self.handle_exclamation(),
                _ => self.handle_rest(),
            }
        }
        self.add_token(TokenType::EOF, None);
        proof {
            assert(scan_from(d, d.len() as int) =~= seq![
                mark_tok(d, TokenType::EOF, d.len() as int),
            ]);
            assert(toks_view(self.tokens@) =~= toks_view(t0) + scan_from(d, 0));
        }
        let mut out: Vec<Token> = Vec::new();
        let mut k: usize = 0;
        while k < self.tokens.len()
            invariant
                0 <= k <= self.tokens@.len(),
                out@ == self.tokens@.take(k as int),
            decreases self.tokens@.len() - k,
        {
            let t = self.tokens[k].clone();
            out.push(t);
            proof {
                assert(self.tokens@.take(k + 1).drop_last() =~= self.tokens@.take(k as int));
                assert(out@ =~= self.tokens@.take(k + 1));
            }
            k = k + 1;
        }
        proof {
            assert(self.tokens@.take(self.tokens@.len() as int) =~= self.tokens@);
        }
        out
    }
}

/// For every input text, scanning terminates and its token sequence
/// ends with exactly one end-of-stream token, which stands last.
pub proof fn lemma_scan_total_single_eof(text: Seq<char>)
    ensures
        scan_spec(text).len() >= 1,
        scan_spec(text).last().token_type == TokenType::EOF,
        forall|k: int|
            0 <= k < scan_spec(text).len() - 1 ==> #[trigger] scan_spec(
                text,
            )[k].token_type != TokenType::EOF,
{
    lemma_scan_ends_with_eof(text, 0);
}

/// Scan a whole program text into tokens; total, and the result always
/// ends with exactly one end-of-stream token.
pub fn scan(text: &str) -> (r: Vec<Token>)
    requires
        text@.len() < usize::MAX,
    ensures
        toks_view(r@) == scan_spec(text@),
{
    let mut ctx = Scanner::new();
    let r = ctx.scan(text);
    proof {
        assert(Seq::<TokenV>::empty() + scan_spec(text@) =~= scan_spec(text@));
    }
    r
}

} // verus!
