use gello::lexer::{LexError, Lexer};
use gello::source::source_lines;
use gello::token::{Token, TokenKind};

fn lex(src: &str) -> Result<Vec<Token>, LexError> {
    Lexer::new(src).tokenize()
}

fn kinds(src: &str) -> Vec<String> {
    lex(src).unwrap().iter().map(|t| format!("{:?}", t.kind)).collect()
}

#[test]
fn let_statement_tokens() {
    let ts = lex("let x = 1.5 + foo_1").unwrap();
    let ks: Vec<String> = ts.iter().map(|t| format!("{:?}", t.kind)).collect();
    assert_eq!(
        ks,
        vec![
            "Let",
            "Identifier(\"x\")",
            "Equal",
            "Number(\"1.5\")",
            "Plus",
            "Identifier(\"foo_1\")",
            "Eof"
        ]
    );
    let cols: Vec<usize> = ts.iter().map(|t| t.col).collect();
    assert_eq!(cols, vec![1, 5, 7, 9, 13, 15, 20]);
    assert!(ts.iter().all(|t| t.line == 1));
}

#[test]
fn keywords_and_operators() {
    assert_eq!(
        kinds("fn return if else while print true false null"),
        vec!["Fn", "Return", "If", "Else", "While", "Print", "True", "False", "Null", "Eof"]
    );
    assert_eq!(
        kinds("!= ! == = <= < >= > && || ( ) { } [ ] , - * / %"),
        vec![
            "BangEqual", "Bang", "EqualEqual", "Equal", "LessEqual", "Less", "GreaterEqual",
            "Greater", "AmpAmp", "PipePipe", "LeftParen", "RightParen", "LeftBrace", "RightBrace",
            "LeftBracket", "RightBracket", "Comma", "Minus", "Star", "Slash", "Percent", "Eof"
        ]
    );
}

#[test]
fn comments_and_whitespace_give_no_tokens() {
    assert_eq!(kinds("1 -- a comment ( ]"), vec!["Number(\"1\")", "Eof"]);
    assert_eq!(kinds(" \t\r\n"), vec!["Eof"]);
    assert_eq!(kinds(""), vec!["Eof"]);
}

#[test]
fn number_needs_digit_after_dot() {
    // "3." is the number 3 followed by an unexpected '.'
    assert!(matches!(lex("3."), Err(LexError::UnexpectedChar { ch: '.', line: 1, col: 2 })));
    assert_eq!(kinds("12.25"), vec!["Number(\"12.25\")", "Eof"]);
}

#[test]
fn string_escapes() {
    let ts = lex(r#""a\n\t\r\\\"b""#).unwrap();
    match &ts[0].kind {
        TokenKind::String(s) => assert_eq!(s, "a\n\t\r\\\"b"),
        other => panic!("unexpected {:?}", other),
    }
    assert_eq!(ts[1].col, 15);
}

#[test]
fn string_over_lines_takes_the_last_line() {
    let ts = lex("\"a\nb\" x").unwrap();
    assert_eq!(ts[0].line, 2);
    assert_eq!(ts[0].col, 1);
    assert!(matches!(&ts[1].kind, TokenKind::Identifier(s) if s == "x"));
    assert_eq!(ts[1].line, 2);
    assert_eq!(ts[1].col, 4);
    assert_eq!((ts[2].line, ts[2].col), (2, 5));
}

#[test]
fn newline_moves_line_and_resets_column() {
    let ts = lex("a\n  b").unwrap();
    assert_eq!((ts[1].line, ts[1].col), (2, 3));
    assert_eq!((ts[2].line, ts[2].col), (2, 4));
}

#[test]
fn unexpected_characters() {
    assert!(matches!(lex("a @"), Err(LexError::UnexpectedChar { ch: '@', line: 1, col: 3 })));
    assert!(matches!(lex("a & b"), Err(LexError::UnexpectedChar { ch: '&', line: 1, col: 3 })));
    assert!(matches!(lex("|"), Err(LexError::UnexpectedChar { ch: '|', line: 1, col: 1 })));
}

#[test]
fn invalid_escape() {
    assert!(matches!(lex(r#""ab\q""#), Err(LexError::InvalidEscape { line: 1, col: 5 })));
    assert!(matches!(lex("\"ab\\"), Err(LexError::InvalidEscape { line: 1, col: 5 })));
}

#[test]
fn unterminated_string() {
    assert!(matches!(
        lex("x = \"abc"),
        Err(LexError::UnterminatedString { line: 1, col: 5 })
    ));
}

#[test]
fn unicode_identifiers() {
    assert_eq!(kinds("héllo"), vec!["Identifier(\"héllo\")", "Eof"]);
    assert_eq!(kinds("x٣"), vec!["Identifier(\"x٣\")", "Eof"]);
}

#[test]
fn tokens_end_with_one_eof() {
    for src in ["", "1", "let a = [1, 2]", "print \"x\" -- c"] {
        let ts = lex(src).unwrap();
        assert!(matches!(ts.last().unwrap().kind, TokenKind::Eof));
        assert_eq!(ts.iter().filter(|t| matches!(t.kind, TokenKind::Eof)).count(), 1);
    }
}

#[test]
fn char_classes_through_the_lexer() {
    assert_eq!(kinds("é1"), vec!["Identifier(\"é1\")", "Eof"]);
    assert_eq!(kinds("_x٣y"), vec!["Identifier(\"_x٣y\")", "Eof"]);
    assert!(lex("٣").is_err());
    assert!(lex("\u{3000}").is_err());
}

#[test]
fn unicode_space_is_trimmed_from_lines() {
    assert_eq!(source_lines("\u{3000}print 1\u{2003}\n\u{3000}\n"), vec!["print 1".to_string()]);
}
