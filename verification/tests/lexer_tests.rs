use ssc::error::CompilerError;
use ssc::lexer::Lexer;
use ssc::lexer::TokenType;

fn lex(src: &str) -> Vec<ssc::lexer::Token> {
    let mut lexer = Lexer::new(src);
    lexer.tokenize().expect("lexing should succeed")
}

fn lex_err(src: &str) -> CompilerError {
    let mut lexer = Lexer::new(src);
    match lexer.tokenize() {
        Ok(_) => panic!("lexing should fail"),
        Err(e) => e,
    }
}

#[test]
fn integer_literal_forty_two() {
    let toks = lex("42");
    assert!(matches!(toks[0].token_type, TokenType::IntLiteral(42)));
    assert!(matches!(toks[1].token_type, TokenType::Eof));
    assert_eq!(toks.len(), 2);
}

#[test]
fn range_is_never_a_float() {
    // `1..5` must lex to integer 1, two dots, integer 5 — never float `1.`.
    let toks = lex("1..5");
    assert!(matches!(toks[0].token_type, TokenType::IntLiteral(1)));
    assert!(matches!(toks[1].token_type, TokenType::Dot));
    assert!(matches!(toks[2].token_type, TokenType::Dot));
    assert!(matches!(toks[3].token_type, TokenType::IntLiteral(5)));
    assert!(matches!(toks[4].token_type, TokenType::Eof));
}

#[test]
fn float_with_trailing_dot_is_legal() {
    let toks = lex("1.");
    match &toks[0].token_type {
        TokenType::FloatLiteral(s) => assert_eq!(s, "1."),
        other => panic!("expected float literal, got {:?}", other),
    }
}

#[test]
fn float_with_fraction() {
    let toks = lex("3.25");
    match &toks[0].token_type {
        TokenType::FloatLiteral(s) => assert_eq!(s, "3.25"),
        other => panic!("expected float literal, got {:?}", other),
    }
}

#[test]
fn token_positions_are_one_based_and_increase() {
    let toks = lex("let x\nmut");
    assert_eq!((toks[0].line, toks[0].column), (1, 1));
    assert_eq!((toks[1].line, toks[1].column), (1, 5));
    assert_eq!((toks[2].line, toks[2].column), (2, 1));
    // positions strictly increase in source order
    for w in toks.windows(2) {
        assert!((w[0].line, w[0].column) < (w[1].line, w[1].column));
    }
}

#[test]
fn keywords_and_identifiers() {
    let toks = lex("fn while foo true false i32 str");
    assert!(matches!(toks[0].token_type, TokenType::Fn));
    assert!(matches!(toks[1].token_type, TokenType::While));
    match &toks[2].token_type {
        TokenType::Identifier(s) => assert_eq!(s, "foo"),
        other => panic!("expected identifier, got {:?}", other),
    }
    assert!(matches!(toks[3].token_type, TokenType::BoolLiteral(true)));
    assert!(matches!(toks[4].token_type, TokenType::BoolLiteral(false)));
    assert!(matches!(toks[5].token_type, TokenType::I32));
    assert!(matches!(toks[6].token_type, TokenType::Str));
}

#[test]
fn operators_use_longest_match() {
    let toks = lex("-> == => != <= << >= >> && || ::");
    assert!(matches!(toks[0].token_type, TokenType::Arrow));
    assert!(matches!(toks[1].token_type, TokenType::EqualEqual));
    assert!(matches!(toks[2].token_type, TokenType::FatArrow));
    assert!(matches!(toks[3].token_type, TokenType::NotEqual));
    assert!(matches!(toks[4].token_type, TokenType::LessEqual));
    assert!(matches!(toks[5].token_type, TokenType::LessLess));
    assert!(matches!(toks[6].token_type, TokenType::GreaterEqual));
    assert!(matches!(toks[7].token_type, TokenType::GreaterGreater));
    assert!(matches!(toks[8].token_type, TokenType::AmpAmp));
    assert!(matches!(toks[9].token_type, TokenType::PipePipe));
    assert!(matches!(toks[10].token_type, TokenType::ColonColon));
}

#[test]
fn single_char_fallback_at_end_of_input() {
    let toks = lex("1-");
    assert!(matches!(toks[0].token_type, TokenType::IntLiteral(1)));
    assert!(matches!(toks[1].token_type, TokenType::Minus));
    assert!(matches!(toks[2].token_type, TokenType::Eof));
}

#[test]
fn string_escapes() {
    let toks = lex("\"a\\nb\\tc\\\\d\\\"e\"");
    match &toks[0].token_type {
        TokenType::StringLiteral(s) => assert_eq!(s, "a\nb\tc\\d\"e"),
        other => panic!("expected string literal, got {:?}", other),
    }
}

#[test]
fn char_literals() {
    let toks = lex("'a' '\\n'");
    assert!(matches!(toks[0].token_type, TokenType::CharLiteral('a')));
    assert!(matches!(toks[1].token_type, TokenType::CharLiteral('\n')));
}

#[test]
fn comments_are_consumed_silently() {
    let toks = lex("1 // line comment\n/* block\ncomment */ 2");
    assert!(matches!(toks[0].token_type, TokenType::IntLiteral(1)));
    assert!(matches!(toks[1].token_type, TokenType::IntLiteral(2)));
    assert!(matches!(toks[2].token_type, TokenType::Eof));
}

#[test]
fn trailing_comment_reaches_end_of_input_cleanly() {
    let toks = lex("1 // trailing comment");
    assert!(matches!(toks[0].token_type, TokenType::IntLiteral(1)));
    assert!(matches!(toks[1].token_type, TokenType::Eof));
    let toks2 = lex("2 /* closed */");
    assert!(matches!(toks2[0].token_type, TokenType::IntLiteral(2)));
    assert!(matches!(toks2[1].token_type, TokenType::Eof));
}

#[test]
fn unterminated_block_comment_is_a_lex_error() {
    let e = lex_err("/* never closed");
    match e {
        CompilerError::LexerError(msg) => assert!(msg.contains("Unterminated block comment")),
        other => panic!("expected lexer error, got {:?}", other),
    }
}

#[test]
fn unterminated_string_is_a_lex_error() {
    assert!(matches!(lex_err("\"open"), CompilerError::LexerError(_)));
}

#[test]
fn unterminated_char_is_a_lex_error() {
    assert!(matches!(lex_err("'a"), CompilerError::LexerError(_)));
    assert!(matches!(lex_err("'"), CompilerError::LexerError(_)));
}

#[test]
fn unexpected_character_reports_position() {
    let e = lex_err("\n  #");
    match e {
        CompilerError::LexerError(msg) => {
            assert!(msg.contains("line 2"));
            assert!(msg.contains("column 3"));
        },
        other => panic!("expected lexer error, got {:?}", other),
    }
}

#[test]
fn oversized_integer_literal_is_a_lex_error() {
    assert!(matches!(lex_err("99999999999999999999"), CompilerError::LexerError(_)));
    // the largest value that fits is accepted
    let toks = lex("9223372036854775807");
    assert!(matches!(toks[0].token_type, TokenType::IntLiteral(9223372036854775807)));
}

#[test]
fn error_description_is_stage_qualified() {
    let e = lex_err("\"open");
    assert!(e.describe().starts_with("Lexer error: "));
}
