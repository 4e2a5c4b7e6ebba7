use plat::ast::{Expr, PlatTypes, AST};
use plat::error::PlatError;
use plat::lexer::{Lexer, PlatTokenKinds};
use plat::parser::Parser;

fn parse(source: &str) -> Result<Vec<AST>, PlatError> {
    Parser::new(Lexer::new(source.to_string())).parse(None)
}

fn literal(e: &Expr) -> &str {
    match e {
        Expr::Literal(text) => text,
        _ => panic!("not a literal"),
    }
}

#[test]
fn function_with_arguments_and_body() {
    let ast = parse("func f(a: i32, b: f64) i64 { let c: i32 = 1; return c; }").unwrap();
    assert_eq!(ast.len(), 1);
    match &ast[0] {
        AST::Func(f) => {
            assert_eq!(f.name, "f");
            assert_eq!(f.args.len(), 2);
            assert_eq!(f.args[0].name, "a");
            assert_eq!(f.args[0].kind, PlatTypes::I32);
            assert_eq!(f.args[1].name, "b");
            assert_eq!(f.args[1].kind, PlatTypes::F64);
            assert_eq!(f.ret_kind, PlatTypes::I64);
            assert_eq!(f.body.len(), 2);
            match &f.body[0] {
                AST::Def(d) => {
                    assert_eq!(d.name, "c");
                    assert_eq!(d.kind, PlatTypes::I32);
                    assert_eq!(literal(&d.value), "1");
                }
                _ => panic!("not a declaration"),
            }
            match &f.body[1] {
                AST::Ret(Some(e)) => assert_eq!(literal(e), "c"),
                _ => panic!("not a return"),
            }
        }
        _ => panic!("not a function"),
    }
}

#[test]
fn function_without_arguments() {
    let ast = parse("func main() void { return; }").unwrap();
    match &ast[0] {
        AST::Func(f) => {
            assert_eq!(f.args.len(), 0);
            assert_eq!(f.ret_kind, PlatTypes::Void);
            assert_eq!(f.body.len(), 1);
            assert!(matches!(&f.body[0], AST::Ret(None)));
        }
        _ => panic!("not a function"),
    }
}

#[test]
fn all_type_names() {
    let ast = parse("func f(a: void, b: i32, c: i64, d: f32, e: f64) void {").unwrap();
    match &ast[0] {
        AST::Func(f) => {
            let kinds: Vec<PlatTypes> = f.args.iter().map(|a| a.kind).collect();
            assert_eq!(
                kinds,
                vec![
                    PlatTypes::Void,
                    PlatTypes::I32,
                    PlatTypes::I64,
                    PlatTypes::F32,
                    PlatTypes::F64
                ]
            );
        }
        _ => panic!("not a function"),
    }
}

#[test]
fn omitted_comma_between_arguments_is_a_grammar_error() {
    assert_eq!(
        parse("func f(a: i32 b: i32) void { }").err(),
        Some(PlatError::GrammarError)
    );
}

#[test]
fn trailing_comma_is_a_grammar_error() {
    assert_eq!(parse("func f(a: i32,) void { }").err(), Some(PlatError::GrammarError));
}

#[test]
fn missing_parenthesis_is_a_grammar_error() {
    assert_eq!(parse("func f a: i32) void { }").err(), Some(PlatError::GrammarError));
    assert_eq!(parse("func f(a: i32").err(), Some(PlatError::GrammarError));
}

#[test]
fn unknown_type_name_is_a_grammar_error() {
    assert_eq!(parse("func f() int { }").err(), Some(PlatError::GrammarError));
    assert_eq!(parse("let x: u8 = 1;").err(), Some(PlatError::GrammarError));
}

#[test]
fn missing_brace_is_a_grammar_error() {
    assert_eq!(parse("func f() void return;").err(), Some(PlatError::GrammarError));
}

#[test]
fn function_inside_a_function_is_a_grammar_error() {
    assert_eq!(
        parse("func f() void { func g() void { } }").err(),
        Some(PlatError::GrammarError)
    );
}

#[test]
fn closing_brace_does_not_end_a_body() {
    assert_eq!(
        parse("func f() void { } func g() void { }").err(),
        Some(PlatError::GrammarError)
    );
}

#[test]
fn closing_square_bracket_ends_a_body() {
    let ast = parse("func f() void { return; ] func g() i32 { ]").unwrap();
    assert_eq!(ast.len(), 2);
    match (&ast[0], &ast[1]) {
        (AST::Func(f), AST::Func(g)) => {
            assert_eq!(f.name, "f");
            assert_eq!(f.body.len(), 1);
            assert_eq!(g.name, "g");
            assert_eq!(g.body.len(), 0);
        }
        _ => panic!("not two functions"),
    }
}

#[test]
fn body_that_is_not_closed_ends_with_the_text() {
    let ast = parse("func f() void { let x: i32 = 1;").unwrap();
    match &ast[0] {
        AST::Func(f) => assert_eq!(f.body.len(), 1),
        _ => panic!("not a function"),
    }
}

#[test]
fn declaration_needs_an_initializer() {
    assert_eq!(parse("let x: i32 = ;").err(), Some(PlatError::GrammarError));
    assert_eq!(parse("let x: i32;").err(), Some(PlatError::GrammarError));
    assert_eq!(parse("let x i32 = 1;").err(), Some(PlatError::GrammarError));
    assert_eq!(parse("let 5: i32 = 1;").err(), Some(PlatError::GrammarError));
}

#[test]
fn unary_expressions() {
    let ast = parse("let x: i32 = -!y;").unwrap();
    match &ast[0] {
        AST::Def(d) => match &d.value {
            Expr::Unary(outer) => {
                assert_eq!(outer.operator.kind, PlatTokenKinds::Minus);
                match &outer.expr {
                    Expr::Unary(inner) => {
                        assert_eq!(inner.operator.kind, PlatTokenKinds::Bang);
                        assert_eq!(literal(&inner.expr), "y");
                    }
                    _ => panic!("not a unary expression"),
                }
            }
            _ => panic!("not a unary expression"),
        },
        _ => panic!("not a declaration"),
    }
}

#[test]
fn unary_operator_needs_an_operand() {
    assert_eq!(parse("return -;").err(), Some(PlatError::GrammarError));
    assert_eq!(parse("return !").err(), Some(PlatError::GrammarError));
}

#[test]
fn tokens_that_start_no_statement_are_passed_over() {
    let ast = parse("x + 1 ; } ) return a; 7").unwrap();
    assert_eq!(ast.len(), 1);
    match &ast[0] {
        AST::Ret(Some(e)) => assert_eq!(literal(e), "a"),
        _ => panic!("not a return"),
    }
}

#[test]
fn block_ends_at_the_given_token() {
    let mut parser = Parser::new(Lexer::new("return a; } return b;".to_string()));
    let first = parser.parse(Some(PlatTokenKinds::CloseCurly)).unwrap();
    assert_eq!(first.len(), 1);
    assert_eq!(parser.lexer.cursor, 11);
    let second = parser.parse(Some(PlatTokenKinds::CloseCurly)).unwrap();
    assert_eq!(second.len(), 1);
    match &second[0] {
        AST::Ret(Some(e)) => assert_eq!(literal(e), "b"),
        _ => panic!("not a return"),
    }
}

#[test]
fn lexical_error_stops_the_parse_and_restores_the_cursor() {
    let mut parser = Parser::new(Lexer::new("return a; let x: i32 = 12ab;".to_string()));
    assert_eq!(parser.parse(None).err(), Some(PlatError::LexError));
    assert_eq!(parser.lexer.cursor, 0);
}

#[test]
fn empty_text_is_an_empty_block() {
    assert_eq!(parse("").unwrap().len(), 0);
    assert_eq!(parse("  \n ").unwrap().len(), 0);
}
