use pipequery::scanner::{scan, CommandKeyword, FuncKeyword, Token, TokenType};

fn types(tokens: &[Token]) -> Vec<TokenType> {
    tokens.iter().map(|t| t.token_type).collect()
}

fn value_of(t: &Token) -> &str {
    t.value.as_ref().map(|s| s.as_str()).unwrap_or("")
}

#[test]
fn empty_input_yields_exactly_one_eof() {
    let tokens = scan("");
    assert_eq!(tokens.len(), 1);
    assert!(matches!(tokens[0].token_type, TokenType::EOF));
}

#[test]
fn unknown_bytes_are_skipped_and_eof_is_last_and_unique() {
    let tokens = scan("@# %&? ~`^");
    assert_eq!(tokens.len(), 1);
    assert!(matches!(tokens[0].token_type, TokenType::EOF));

    let tokens = scan("a @ b");
    assert_eq!(
        types(&tokens),
        vec![TokenType::Identifier, TokenType::Identifier, TokenType::EOF]
    );
    let eofs = tokens
        .iter()
        .filter(|t| matches!(t.token_type, TokenType::EOF))
        .count();
    assert_eq!(eofs, 1);
    assert!(matches!(tokens.last().unwrap().token_type, TokenType::EOF));
}

#[test]
fn generate_statement_tokens() {
    let tokens = scan("| generate count=3 name=x");
    assert_eq!(
        types(&tokens),
        vec![
            TokenType::Separator,
            TokenType::CommandKeyword(CommandKeyword::Generate),
            TokenType::Identifier,
            TokenType::Eq,
            TokenType::Number,
            TokenType::Identifier,
            TokenType::Eq,
            TokenType::Identifier,
            TokenType::EOF,
        ]
    );
    assert_eq!(value_of(&tokens[2]), "count");
    assert_eq!(value_of(&tokens[4]), "3");
    assert_eq!(value_of(&tokens[5]), "name");
    assert_eq!(value_of(&tokens[7]), "x");
}

#[test]
fn operators_with_lookahead() {
    let tokens = scan("= == < <= > >= != + -");
    assert_eq!(
        types(&tokens),
        vec![
            TokenType::Eq,
            TokenType::Eeq,
            TokenType::Lt,
            TokenType::Lte,
            TokenType::Gt,
            TokenType::Gte,
            TokenType::Neq,
            TokenType::Add,
            TokenType::Sub,
            TokenType::EOF,
        ]
    );
}

#[test]
fn structural_symbols() {
    let tokens = scan("|,()");
    assert_eq!(
        types(&tokens),
        vec![
            TokenType::Separator,
            TokenType::Comma,
            TokenType::LParen,
            TokenType::RParen,
            TokenType::EOF,
        ]
    );
}

#[test]
fn string_literal_value() {
    let tokens = scan("\"hi there\"");
    assert_eq!(types(&tokens), vec![TokenType::String, TokenType::EOF]);
    assert_eq!(value_of(&tokens[0]), "hi there");
}

#[test]
fn string_literal_drops_embedded_newlines_and_tracks_lines() {
    let tokens = scan("\"a\nb\" c");
    assert_eq!(
        types(&tokens),
        vec![TokenType::String, TokenType::Identifier, TokenType::EOF]
    );
    assert_eq!(value_of(&tokens[0]), "ab");
    assert_eq!(tokens[0].line, 2);
    assert_eq!(tokens[1].line, 2);
}

#[test]
fn unterminated_string_emits_no_token() {
    let tokens = scan("\"open");
    assert_eq!(types(&tokens), vec![TokenType::EOF]);
}

#[test]
fn block_comment_is_trimmed() {
    let tokens = scan("/*  padded body  */");
    assert_eq!(types(&tokens), vec![TokenType::Comment, TokenType::EOF]);
    assert_eq!(value_of(&tokens[0]), "padded body");
}

#[test]
fn block_comment_tracks_newlines_and_unterminated_is_dropped() {
    let tokens = scan("/* a\nb */ x");
    assert_eq!(
        types(&tokens),
        vec![TokenType::Comment, TokenType::Identifier, TokenType::EOF]
    );
    assert_eq!(value_of(&tokens[0]), "ab");
    assert_eq!(tokens[1].line, 2);

    let tokens = scan("/* never closed");
    assert_eq!(types(&tokens), vec![TokenType::EOF]);
}

#[test]
fn slash_alone_is_skipped() {
    let tokens = scan("a / b");
    assert_eq!(
        types(&tokens),
        vec![TokenType::Identifier, TokenType::Identifier, TokenType::EOF]
    );
}

#[test]
fn command_keywords_always_classify() {
    for (word, kw) in [
        ("generate", CommandKeyword::Generate),
        ("eval", CommandKeyword::Eval),
        ("where", CommandKeyword::Where),
        ("table", CommandKeyword::Table),
        ("rename", CommandKeyword::Rename),
        ("top", CommandKeyword::Top),
        ("stats", CommandKeyword::Stats),
        ("remove", CommandKeyword::Remove),
    ] {
        let tokens = scan(word);
        assert_eq!(tokens.len(), 2);
        assert_eq!(tokens[0].token_type, TokenType::CommandKeyword(kw));
    }
}

#[test]
fn func_keyword_needs_following_paren() {
    let tokens = scan("len(");
    assert_eq!(
        types(&tokens),
        vec![
            TokenType::FuncKeyword(FuncKeyword::Len),
            TokenType::LParen,
            TokenType::EOF,
        ]
    );
    let tokens = scan("len x");
    assert_eq!(
        types(&tokens),
        vec![TokenType::Identifier, TokenType::Identifier, TokenType::EOF]
    );
    assert_eq!(value_of(&tokens[0]), "len");
}

#[test]
fn special_identifier_keeps_its_marker() {
    let tokens = scan("$rowcount");
    assert_eq!(
        types(&tokens),
        vec![TokenType::SpecialIdentifier, TokenType::EOF]
    );
    assert_eq!(value_of(&tokens[0]), "$rowcount");
}

#[test]
fn number_runs_and_identifier_runs_split() {
    let tokens = scan("123abc45");
    assert_eq!(
        types(&tokens),
        vec![TokenType::Number, TokenType::Identifier, TokenType::EOF]
    );
    assert_eq!(value_of(&tokens[0]), "123");
    assert_eq!(value_of(&tokens[1]), "abc45");
}

#[test]
fn lines_and_offsets_are_tracked() {
    let tokens = scan("+\n  +");
    assert_eq!(tokens[0].line, 1);
    assert_eq!(tokens[0].offset, 1);
    assert_eq!(tokens[1].line, 2);
    assert_eq!(tokens[1].offset, 3);
}

#[test]
fn trailing_half_operators_emit_nothing() {
    let tokens = scan("a =");
    assert_eq!(types(&tokens), vec![TokenType::Identifier, TokenType::EOF]);
    let tokens = scan("a !");
    assert_eq!(types(&tokens), vec![TokenType::Identifier, TokenType::EOF]);
    let tokens = scan("!x");
    assert_eq!(types(&tokens), vec![TokenType::Identifier, TokenType::EOF]);
}
