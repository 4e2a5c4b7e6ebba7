use plat::error::PlatError;
use plat::lexer::{Lexer, PlatTokenKinds};

fn tokens(source: &str) -> Vec<(PlatTokenKinds, String)> {
    let mut lexer = Lexer::new(source.to_string());
    let mut out = Vec::new();
    loop {
        let token = lexer.next().unwrap();
        if token.kind == PlatTokenKinds::EOF {
            break;
        }
        out.push((token.kind, token.value));
    }
    out
}

fn first_error(source: &str) -> Option<PlatError> {
    let mut lexer = Lexer::new(source.to_string());
    loop {
        match lexer.next() {
            Ok(token) => {
                if token.kind == PlatTokenKinds::EOF {
                    return None;
                }
            }
            Err(e) => return Some(e),
        }
    }
}

fn tok(kind: PlatTokenKinds, text: &str) -> (PlatTokenKinds, String) {
    (kind, text.to_string())
}

#[test]
fn keywords_and_identifiers() {
    assert_eq!(
        tokens("func let return funky i32 returns"),
        vec![
            tok(PlatTokenKinds::Keyword, "func"),
            tok(PlatTokenKinds::Keyword, "let"),
            tok(PlatTokenKinds::Keyword, "return"),
            tok(PlatTokenKinds::Identifier, "funky"),
            tok(PlatTokenKinds::Identifier, "i32"),
            tok(PlatTokenKinds::Identifier, "returns"),
        ]
    );
}

#[test]
fn is_keyword_knows_the_three_keywords() {
    assert!(Lexer::is_keyword("func"));
    assert!(Lexer::is_keyword("let"));
    assert!(Lexer::is_keyword("return"));
    assert!(!Lexer::is_keyword("fun"));
    assert!(!Lexer::is_keyword("Return"));
    assert!(!Lexer::is_keyword(""));
}

#[test]
fn brackets_operators_and_separators() {
    assert_eq!(
        tokens("()[]{}+-*/=!<>,;:"),
        vec![
            tok(PlatTokenKinds::OpenParen, "("),
            tok(PlatTokenKinds::CloseParen, ")"),
            tok(PlatTokenKinds::OpenBracket, "["),
            tok(PlatTokenKinds::CloseBracket, "]"),
            tok(PlatTokenKinds::OpenCurly, "{"),
            tok(PlatTokenKinds::CloseCurly, "}"),
            tok(PlatTokenKinds::Plus, "+"),
            tok(PlatTokenKinds::Minus, "-"),
            tok(PlatTokenKinds::Asterisk, "*"),
            tok(PlatTokenKinds::Slash, "/"),
            tok(PlatTokenKinds::Assign, "="),
            tok(PlatTokenKinds::Bang, "!"),
            tok(PlatTokenKinds::Smaller, "<"),
            tok(PlatTokenKinds::Greater, ">"),
            tok(PlatTokenKinds::Comma, ","),
            tok(PlatTokenKinds::Semicolon, ";"),
            tok(PlatTokenKinds::Colon, ":"),
        ]
    );
}

#[test]
fn two_character_operators() {
    assert_eq!(
        tokens("== != <= >= = ="),
        vec![
            tok(PlatTokenKinds::Equals, "=="),
            tok(PlatTokenKinds::BangEquals, "!="),
            tok(PlatTokenKinds::SmallerEquals, "<="),
            tok(PlatTokenKinds::GreaterEquals, ">="),
            tok(PlatTokenKinds::Assign, "="),
            tok(PlatTokenKinds::Assign, "="),
        ]
    );
    assert_eq!(
        tokens("==="),
        vec![tok(PlatTokenKinds::Equals, "=="), tok(PlatTokenKinds::Assign, "=")]
    );
    assert_eq!(
        tokens("+="),
        vec![tok(PlatTokenKinds::Plus, "+"), tok(PlatTokenKinds::Assign, "=")]
    );
}

#[test]
fn numbers() {
    assert_eq!(
        tokens("0 12 3.25;"),
        vec![
            tok(PlatTokenKinds::Literal, "0"),
            tok(PlatTokenKinds::Literal, "12"),
            tok(PlatTokenKinds::Literal, "3.25"),
            tok(PlatTokenKinds::Semicolon, ";"),
        ]
    );
}

#[test]
fn number_followed_by_letter_is_rejected() {
    let mut lexer = Lexer::new("123abc".to_string());
    assert_eq!(lexer.next().err(), Some(PlatError::LexError));
    assert_eq!(lexer.cursor, 0);
    assert_eq!(first_error("1.5x"), Some(PlatError::LexError));
}

#[test]
fn second_decimal_point_is_rejected() {
    assert_eq!(first_error("1.2.3"), Some(PlatError::LexError));
    assert_eq!(first_error("1..2"), Some(PlatError::LexError));
}

#[test]
fn number_may_end_with_its_point() {
    assert_eq!(tokens("1."), vec![tok(PlatTokenKinds::Literal, "1.")]);
    assert_eq!(
        tokens("1.;"),
        vec![tok(PlatTokenKinds::Literal, "1."), tok(PlatTokenKinds::Semicolon, ";")]
    );
    assert_eq!(first_error("1.a"), Some(PlatError::LexError));
}

#[test]
fn character_literal() {
    assert_eq!(
        tokens("'a' '''"),
        vec![tok(PlatTokenKinds::Literal, "a"), tok(PlatTokenKinds::Literal, "'")]
    );
}

#[test]
fn character_literal_needs_its_closing_apostrophe() {
    assert_eq!(first_error("'ab'"), Some(PlatError::LexError));
    assert_eq!(first_error("'a"), Some(PlatError::LexError));
    assert_eq!(first_error("'"), Some(PlatError::LexError));
}

#[test]
fn string_literal() {
    assert_eq!(
        tokens("\"hello world\" \"\" \"a\\\""),
        vec![
            tok(PlatTokenKinds::Literal, "hello world"),
            tok(PlatTokenKinds::Literal, ""),
            tok(PlatTokenKinds::Literal, "a\\"),
        ]
    );
}

#[test]
fn string_literal_needs_its_closing_quote() {
    assert_eq!(first_error("\"abc"), Some(PlatError::LexError));
}

#[test]
fn end_of_input_again_and_again() {
    let mut lexer = Lexer::new("x  ".to_string());
    assert_eq!(lexer.next().unwrap().kind, PlatTokenKinds::Identifier);
    for _ in 0..3 {
        let token = lexer.next().unwrap();
        assert_eq!(token.kind, PlatTokenKinds::EOF);
        assert_eq!(token.value, "");
        assert_eq!(lexer.cursor, 3);
    }
    let mut empty = Lexer::new(String::new());
    assert_eq!(empty.next().unwrap().kind, PlatTokenKinds::EOF);
    assert_eq!(empty.next().unwrap().kind, PlatTokenKinds::EOF);
}

#[test]
fn white_space_is_passed_over() {
    assert_eq!(
        tokens(" \t\r\n a \u{00A0}\u{2003} b\n"),
        vec![tok(PlatTokenKinds::Identifier, "a"), tok(PlatTokenKinds::Identifier, "b")]
    );
}

#[test]
fn unknown_character_is_a_token_of_its_own() {
    assert_eq!(
        tokens("a # b"),
        vec![
            tok(PlatTokenKinds::Identifier, "a"),
            tok(PlatTokenKinds::Unknown, ""),
            tok(PlatTokenKinds::Identifier, "b"),
        ]
    );
}

#[test]
fn letters_and_digits_beyond_ascii() {
    assert_eq!(
        tokens("\u{00E9}t\u{00E9}2 \u{0663}"),
        vec![
            tok(PlatTokenKinds::Identifier, "\u{00E9}t\u{00E9}2"),
            tok(PlatTokenKinds::Literal, "\u{0663}"),
        ]
    );
}

#[test]
fn cursor_counts_characters() {
    let mut lexer = Lexer::new("\u{00E9}\u{00E9} =".to_string());
    let token = lexer.next().unwrap();
    assert_eq!(token.value, "\u{00E9}\u{00E9}");
    assert_eq!(lexer.cursor, 2);
    assert_eq!(lexer.next().unwrap().kind, PlatTokenKinds::Assign);
    assert_eq!(lexer.cursor, 4);
}

#[test]
fn peek_char_looks_one_character_ahead() {
    let mut lexer = Lexer::new("a=b".to_string());
    assert_eq!(lexer.peek_char(), '=');
    lexer.cursor = 1;
    assert_eq!(lexer.peek_char(), 'b');
    lexer.cursor = 2;
    assert_eq!(lexer.peek_char(), '\0');
    lexer.cursor = 9;
    assert_eq!(lexer.peek_char(), '\0');
    assert_eq!(Lexer::new(String::new()).peek_char(), '\0');
}

#[test]
fn every_ascii_character_starts_the_token_of_its_class() {
    for code in 0u8..128 {
        let c = code as char;
        let mut lexer = Lexer::new(c.to_string());
        let result = lexer.next();
        if c.is_ascii_alphabetic() {
            let token = result.unwrap();
            assert_eq!(token.kind, PlatTokenKinds::Identifier, "{:?}", c);
            assert_eq!(token.value, c.to_string());
        } else if c.is_ascii_digit() {
            let token = result.unwrap();
            assert_eq!(token.kind, PlatTokenKinds::Literal, "{:?}", c);
            assert_eq!(token.value, c.to_string());
        } else if c == '\'' || c == '"' {
            assert_eq!(result.err(), Some(PlatError::LexError), "{:?}", c);
        } else if "()[]{}+-*/=!<>,;:".contains(c) {
            let token = result.unwrap();
            assert_ne!(token.kind, PlatTokenKinds::Unknown, "{:?}", c);
            assert_ne!(token.kind, PlatTokenKinds::EOF, "{:?}", c);
            assert_eq!(token.value, c.to_string());
        } else if c == ' ' || ('\t'..='\r').contains(&c) {
            assert_eq!(result.unwrap().kind, PlatTokenKinds::EOF, "{:?}", c);
            assert_eq!(lexer.cursor, 1);
        } else {
            let token = result.unwrap();
            assert_eq!(token.kind, PlatTokenKinds::Unknown, "{:?}", c);
            assert_eq!(token.value, "");
            assert_eq!(lexer.cursor, 1);
        }
    }
}

#[test]
fn names_take_ascii_letters_and_digits_only_from_ascii() {
    for code in 0u8..128 {
        let c = code as char;
        let text = format!("x{}", c);
        let token = Lexer::new(text.clone()).next().unwrap();
        if c.is_ascii_alphanumeric() {
            assert_eq!(token.value, text, "{:?}", c);
        } else {
            assert_eq!(token.value, "x", "{:?}", c);
        }
        assert_eq!(token.kind, PlatTokenKinds::Identifier);
    }
}
