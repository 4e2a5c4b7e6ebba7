use vstd::prelude::*;
use crate::ast::{ArgView, AstView, DefView, ExprView, FuncView, PlatTypes};
use crate::error::PlatError;
use crate::lexer::{lemma_lex_advances, lex_at, PlatTokenKinds, TokenView};

verus! {

/// The token at `pos`, which must be of the kind `kind`.
pub open spec fn expect_at(s: Seq<char>, pos: int, kind: PlatTokenKinds) -> Result<
    (TokenView, int),
    PlatError,
> {
    match lex_at(s, pos) {
        Ok((t, p)) => if t.kind == kind {
            Ok((t, p))
        } else {
            Err(PlatError::GrammarError)
        },
        Err(e) => Err(e),
    }
}

/// The type that a type name stands for.
pub open spec fn type_of_name(text: Seq<char>) -> Option<PlatTypes> {
    if text == "void"@ {
        Some(PlatTypes::Void)
    } else if text == "i32"@ {
        Some(PlatTypes::I32)
    } else if text == "i64"@ {
        Some(PlatTypes::I64)
    } else if text == "f32"@ {
        Some(PlatTypes::F32)
    } else if text == "f64"@ {
        Some(PlatTypes::F64)
    } else {
        None
    }
}

/// A type: an identifier that is one of the five type names.
pub open spec fn type_at(s: Seq<char>, pos: int) -> Result<(PlatTypes, int), PlatError> {
    match expect_at(s, pos, PlatTokenKinds::Identifier) {
        Ok((t, p)) => match type_of_name(t.text) {
            Some(kind) => Ok((kind, p)),
            None => Err(PlatError::GrammarError),
        },
        Err(e) => Err(e),
    }
}

/// An expression. A literal or an identifier is a literal expression with the
/// token's text; `!` or `-` starts a unary expression, whose operand must
/// follow; any other token yields no expression (and is consumed).
pub open spec fn expr_at(s: Seq<char>, pos: int) -> Result<(Option<ExprView>, int), PlatError>
    decreases s.len() - pos,
{
    match lex_at(s, pos) {
        Ok((t, p)) => {
            if t.kind == PlatTokenKinds::Literal || t.kind == PlatTokenKinds::Identifier {
                Ok((Some(ExprView::Literal(t.text)), p))
            } else if t.kind == PlatTokenKinds::Bang || t.kind == PlatTokenKinds::Minus {
                proof {
                    lemma_lex_advances(s, pos);
                }
                match expr_at(s, p) {
                    Ok((Some(operand), q)) => Ok((Some(ExprView::Unary(t, Box::new(operand))), q)),
                    Ok((None, _)) => Err(PlatError::GrammarError),
                    Err(e) => Err(e),
                }
            } else {
                Ok((None, p))
            }
        },
        Err(e) => Err(e),
    }
}

/// The rest of one argument, after its name: a colon and a type.
pub open spec fn arg_tail_at(s: Seq<char>, pos: int, name: Seq<char>) -> Result<
    (ArgView, int),
    PlatError,
> {
    match expect_at(s, pos, PlatTokenKinds::Colon) {
        Ok((_, p)) => match type_at(s, p) {
            Ok((kind, q)) => Ok((ArgView { name, kind }, q)),
            Err(e) => Err(e),
        },
        Err(e) => Err(e),
    }
}

/// The arguments of a function, from behind the opening parenthesis up to
/// and including the closing one, where `count` arguments were read before
/// `pos`. The first argument starts with its name; every later one must
/// have a comma in front of its name.
pub open spec fn args_at(s: Seq<char>, pos: int, count: nat) -> Result<
    (Seq<ArgView>, int),
    PlatError,
>
    decreases s.len() - pos,
{
    match lex_at(s, pos) {
        Ok((t, p)) => {
            if t.kind == PlatTokenKinds::CloseParen {
                Ok((Seq::empty(), p))
            } else {
                let named = if count == 0 {
                    if t.kind == PlatTokenKinds::Identifier {
                        Ok((t, p))
                    } else {
                        Err(PlatError::GrammarError)
                    }
                } else if t.kind == PlatTokenKinds::Comma {
                    expect_at(s, p, PlatTokenKinds::Identifier)
                } else {
                    Err(PlatError::GrammarError)
                };
                match named {
                    Ok((name, q)) => match arg_tail_at(s, q, name.text) {
                        Ok((arg, r)) => {
                            proof {
                                lemma_lex_advances(s, pos);
                                lemma_lex_advances(s, p);
                                lemma_arg_tail_advances(s, q, name.text);
                            }
                            match args_at(s, r, count + 1) {
                                Ok((rest, end)) => Ok((seq![arg] + rest, end)),
                                Err(e) => Err(e),
                            }
                        },
                        Err(e) => Err(e),
                    },
                    Err(e) => Err(e),
                }
            }
        },
        Err(e) => Err(e),
    }
}

/// A variable declaration, from behind `let`: a name, a colon, a type, `=`
/// and an expression, which must be there.
pub open spec fn def_at(s: Seq<char>, pos: int) -> Result<(DefView, int), PlatError> {
    match expect_at(s, pos, PlatTokenKinds::Identifier) {
        Ok((name, p1)) => match expect_at(s, p1, PlatTokenKinds::Colon) {
            Ok((_, p2)) => match type_at(s, p2) {
                Ok((kind, p3)) => match expect_at(s, p3, PlatTokenKinds::Assign) {
                    Ok((_, p4)) => match expr_at(s, p4) {
                        Ok((Some(value), p5)) => Ok((DefView { name: name.text, kind, value }, p5)),
                        Ok((None, _)) => Err(PlatError::GrammarError),
                        Err(e) => Err(e),
                    },
                    Err(e) => Err(e),
                },
                Err(e) => Err(e),
            },
            Err(e) => Err(e),
        },
        Err(e) => Err(e),
    }
}

/// The statement that the keyword `word` starts, from behind the keyword,
/// where `word` is `let` or `return`.
pub open spec fn stmt_at(s: Seq<char>, pos: int, word: Seq<char>) -> Result<
    (AstView, int),
    PlatError,
> {
    if word == "let"@ {
        match def_at(s, pos) {
            Ok((d, p)) => Ok((AstView::Def(d), p)),
            Err(e) => Err(e),
        }
    } else {
        match expr_at(s, pos) {
            Ok((value, p)) => Ok((AstView::Ret(value), p)),
            Err(e) => Err(e),
        }
    }
}

/// The statements of a block, up to and including a token of the kind
/// `end`, or up to the end of the text: a block that is not closed ends
/// there without an error. A token that is no keyword is passed over.
/// `inside` says that the block is the body of a function: there a function
/// declaration is an error.
///
/// The test that the cursor has moved on behind a statement never fails
/// (`lemma_block_advances`); it stands here because it makes this a
/// definition.
pub open spec fn block_at(s: Seq<char>, pos: int, end: PlatTokenKinds, inside: bool) -> Result<
    (Seq<AstView>, int),
    PlatError,
>
    decreases s.len() - pos, 0int,
{
    match lex_at(s, pos) {
        Ok((t, p)) => {
            if t.kind == end || t.kind == PlatTokenKinds::EOF {
                Ok((Seq::empty(), p))
            } else if t.kind != PlatTokenKinds::Keyword {
                proof {
                    lemma_lex_advances(s, pos);
                }
                block_at(s, p, end, inside)
            } else if inside && t.text == "func"@ {
                Err(PlatError::GrammarError)
            } else {
                proof {
                    lemma_lex_advances(s, pos);
                }
                let first = if t.text == "func"@ {
                    match func_at(s, p) {
                        Ok((f, q)) => Ok((AstView::Func(f), q)),
                        Err(e) => Err(e),
                    }
                } else {
                    stmt_at(s, p, t.text)
                };
                match first {
                    Ok((node, q)) => if pos < q <= s.len() {
                        match block_at(s, q, end, inside) {
                            Ok((rest, r)) => Ok((seq![node] + rest, r)),
                            Err(e) => Err(e),
                        }
                    } else {
                        Err(PlatError::GrammarError)
                    },
                    Err(e) => Err(e),
                }
            }
        },
        Err(e) => Err(e),
    }
}

/// A function declaration, from behind `func`: a name, the arguments in
/// parentheses, the return type, an opening brace and the body. The body
/// ends at a closing square bracket `]` or at the end of the text; a closing
/// brace inside it is a token like any other and is passed over.
pub open spec fn func_at(s: Seq<char>, pos: int) -> Result<(FuncView, int), PlatError>
    decreases s.len() - pos, 1int,
{
    match expect_at(s, pos, PlatTokenKinds::Identifier) {
        Ok((name, p1)) => match expect_at(s, p1, PlatTokenKinds::OpenParen) {
            Ok((_, p2)) => match args_at(s, p2, 0) {
                Ok((args, p3)) => match type_at(s, p3) {
                    Ok((ret_kind, p4)) => match expect_at(s, p4, PlatTokenKinds::OpenCurly) {
                        Ok((_, p5)) => {
                            proof {
                                lemma_lex_advances(s, pos);
                                lemma_lex_advances(s, p1);
                                lemma_args_advances(s, p2, 0);
                                lemma_type_advances(s, p3);
                                lemma_lex_advances(s, p4);
                            }
                            match block_at(s, p5, PlatTokenKinds::CloseBracket, true) {
                                Ok((body, p6)) => Ok(
                                    (FuncView { name: name.text, args, ret_kind, body }, p6),
                                ),
                                Err(e) => Err(e),
                            }
                        },
                        Err(e) => Err(e),
                    },
                    Err(e) => Err(e),
                },
                Err(e) => Err(e),
            },
            Err(e) => Err(e),
        },
        Err(e) => Err(e),
    }
}

/// Behind an argument, a token that is neither the closing parenthesis nor
/// a comma is a grammar error: a comma between two arguments cannot be left
/// out.
pub proof fn lemma_comma_between_arguments(s: Seq<char>, pos: int, count: nat)
    requires
        count > 0,
        lex_at(s, pos) matches Ok((t, _)) && t.kind != PlatTokenKinds::CloseParen && t.kind
            != PlatTokenKinds::Comma,
    ensures
        args_at(s, pos, count) == Err::<(Seq<ArgView>, int), PlatError>(PlatError::GrammarError),
{
}

/// Whether a cursor that was at `pos` and is now at `p` is still inside the
/// text and did not go back.
pub open spec fn forward(s: Seq<char>, pos: int, p: int) -> bool {
    pos <= p && (pos <= s.len() ==> p <= s.len())
}

pub proof fn lemma_type_advances(s: Seq<char>, pos: int)
    ensures
        type_at(s, pos) matches Ok((_, p)) ==> forward(s, pos, p),
{
    lemma_lex_advances(s, pos);
}

pub proof fn lemma_expr_advances(s: Seq<char>, pos: int)
    ensures
        expr_at(s, pos) matches Ok((_, p)) ==> forward(s, pos, p),
    decreases s.len() - pos,
{
    lemma_lex_advances(s, pos);
    match lex_at(s, pos) {
        Ok((t, p)) => {
            if t.kind == PlatTokenKinds::Bang || t.kind == PlatTokenKinds::Minus {
                lemma_expr_advances(s, p);
            }
        },
        Err(_) => {},
    }
}

pub proof fn lemma_arg_tail_advances(s: Seq<char>, pos: int, name: Seq<char>)
    ensures
        arg_tail_at(s, pos, name) matches Ok((_, p)) ==> forward(s, pos, p),
{
    lemma_lex_advances(s, pos);
    match expect_at(s, pos, PlatTokenKinds::Colon) {
        Ok((_, p)) => {
            lemma_type_advances(s, p);
        },
        Err(_) => {},
    }
}

pub proof fn lemma_def_advances(s: Seq<char>, pos: int)
    ensures
        def_at(s, pos) matches Ok((_, p)) ==> forward(s, pos, p),
{
    lemma_lex_advances(s, pos);
    if let Ok((_, p1)) = expect_at(s, pos, PlatTokenKinds::Identifier) {
        lemma_lex_advances(s, p1);
        if let Ok((_, p2)) = expect_at(s, p1, PlatTokenKinds::Colon) {
            lemma_type_advances(s, p2);
            if let Ok((_, p3)) = type_at(s, p2) {
                lemma_lex_advances(s, p3);
                if let Ok((_, p4)) = expect_at(s, p3, PlatTokenKinds::Assign) {
                    lemma_expr_advances(s, p4);
                }
            }
        }
    }
}

pub proof fn lemma_stmt_advances(s: Seq<char>, pos: int, word: Seq<char>)
    ensures
        stmt_at(s, pos, word) matches Ok((_, p)) ==> forward(s, pos, p),
{
    lemma_def_advances(s, pos);
    lemma_expr_advances(s, pos);
}

pub proof fn lemma_args_advances(s: Seq<char>, pos: int, count: nat)
    ensures
        args_at(s, pos, count) matches Ok((_, p)) ==> forward(s, pos, p),
    decreases s.len() - pos,
{
    lemma_lex_advances(s, pos);
    if let Ok((t, p)) = lex_at(s, pos) {
        if t.kind != PlatTokenKinds::CloseParen {
            lemma_lex_advances(s, p);
            let named = if count == 0 {
                if t.kind == PlatTokenKinds::Identifier {
                    Ok((t, p))
                } else {
                    Err(PlatError::GrammarError)
                }
            } else if t.kind == PlatTokenKinds::Comma {
                expect_at(s, p, PlatTokenKinds::Identifier)
            } else {
                Err(PlatError::GrammarError)
            };
            if let Ok((name, q)) = named {
                lemma_arg_tail_advances(s, q, name.text);
                if let Ok((_, r)) = arg_tail_at(s, q, name.text) {
                    lemma_args_advances(s, r, count + 1);
                }
            }
        }
    }
}

/// A function declaration leaves the cursor behind where it started and
/// inside the text.
pub proof fn lemma_func_advances(s: Seq<char>, pos: int)
    ensures
        func_at(s, pos) matches Ok((_, p)) ==> forward(s, pos, p),
    decreases s.len() - pos, 1int,
{
    lemma_lex_advances(s, pos);
    if let Ok((_, p1)) = expect_at(s, pos, PlatTokenKinds::Identifier) {
        lemma_lex_advances(s, p1);
        if let Ok((_, p2)) = expect_at(s, p1, PlatTokenKinds::OpenParen) {
            lemma_args_advances(s, p2, 0);
            if let Ok((_, p3)) = args_at(s, p2, 0) {
                lemma_type_advances(s, p3);
                if let Ok((_, p4)) = type_at(s, p3) {
                    lemma_lex_advances(s, p4);
                    if let Ok((_, p5)) = expect_at(s, p4, PlatTokenKinds::OpenCurly) {
                        lemma_block_advances(s, p5, PlatTokenKinds::CloseBracket, true);
                    }
                }
            }
        }
    }
}

/// A block leaves the cursor behind where it started and inside the text,
/// and behind each of its statements the cursor has moved on.
pub proof fn lemma_block_advances(s: Seq<char>, pos: int, end: PlatTokenKinds, inside: bool)
    ensures
        block_at(s, pos, end, inside) matches Ok((_, p)) ==> forward(s, pos, p),
        lex_at(s, pos) matches Ok((t, p)) ==> (t.kind == PlatTokenKinds::Keyword ==> (func_at(
            s,
            p,
        ) matches Ok((_, q)) ==> pos < q <= s.len()) && (stmt_at(s, p, t.text) matches Ok((_, q))
            ==> pos < q <= s.len())),
    decreases s.len() - pos, 0int,
{
    lemma_lex_advances(s, pos);
    if let Ok((t, p)) = lex_at(s, pos) {
        if t.kind == PlatTokenKinds::Keyword {
            lemma_stmt_advances(s, p, t.text);
            lemma_func_advances(s, p);
        }
        if t.kind == end || t.kind == PlatTokenKinds::EOF {
        } else if t.kind != PlatTokenKinds::Keyword {
            lemma_block_advances(s, p, end, inside);
        } else if inside && t.text == "func"@ {
        } else {
            let first = if t.text == "func"@ {
                match func_at(s, p) {
                    Ok((f, q)) => Ok((AstView::Func(f), q)),
                    Err(e) => Err(e),
                }
            } else {
                stmt_at(s, p, t.text)
            };
            if let Ok((_, q)) = first {
                lemma_block_advances(s, q, end, inside);
            }
        }
    }
}

} // verus!
