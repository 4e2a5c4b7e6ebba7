use vstd::prelude::*;
use crate::ast::{args_view, ast_view, asts_view, lemma_func_view, opt_expr_view};
use crate::ast::{ArgView, AstView, DefExpr, Expr, FuncExpr, FuncExprArg, PlatTypes, UnaryExpr, AST};
use crate::error::PlatError;
use crate::grammar::{args_at, block_at, def_at, expect_at, expr_at, func_at, type_at};
use crate::grammar::{forward, stmt_at};
use crate::grammar::{lemma_arg_tail_advances, lemma_args_advances, lemma_block_advances};
use crate::grammar::lemma_type_advances;
use crate::lexer::{lemma_lex_advances, Lexer, PlatToken, PlatTokenKinds};
use crate::text::same_text;

verus! {

/// What was read so far, followed by what is read from here on.
pub open spec fn after<T>(prefix: Seq<T>, rest: Result<(Seq<T>, int), PlatError>) -> Result<
    (Seq<T>, int),
    PlatError,
> {
    match rest {
        Ok((items, p)) => Ok((prefix + items, p)),
        Err(e) => Err(e),
    }
}

/// Nothing read so far changes nothing.
proof fn lemma_after_nothing<T>(rest: Result<(Seq<T>, int), PlatError>)
    ensures
        after(Seq::<T>::empty(), rest) == rest,
{
    if let Ok((items, _)) = rest {
        assert(Seq::<T>::empty() + items =~= items);
    }
}

/// The kind of token at which a block ends: the one given, or the end of the
/// text where none is given.
pub open spec fn end_kind(end: Option<PlatTokenKinds>) -> PlatTokenKinds {
    match end {
        Some(kind) => kind,
        None => PlatTokenKinds::EOF,
    }
}

/// A recursive-descent parser that draws its tokens from a tokenizer as it
/// goes.
pub struct Parser {
    pub lexer: Lexer,
}

impl Parser {
    /// The text that is parsed.
    pub open spec fn text(&self) -> Seq<char> {
        self.lexer.file@
    }

    /// The position of the tokenizer in the text.
    pub open spec fn pos(&self) -> int {
        self.lexer.cursor as int
    }

    /// A parser that reads from `lexer`, starting where it stands.
    pub fn new(lexer: Lexer) -> (parser: Parser)
        ensures
            parser.lexer == lexer,
    {
        Parser { lexer }
    }

    /// Reads one token, which must be of the kind `kind`.
    fn expect_next_kind(&mut self, kind: PlatTokenKinds) -> (r: Result<PlatToken, PlatError>)
        ensures
            final(self).lexer.file == old(self).lexer.file,
            match expect_at(old(self).text(), old(self).pos(), kind) {
                Ok((t, p)) => r matches Ok(token) && token@ == t && final(self).pos() == p,
                Err(e) => r matches Err(x) && x == e,
            },
    {
        let token = self.lexer.next()?;
        if token.kind == kind {
            Ok(token)
        } else {
            Err(PlatError::GrammarError)
        }
    }

    /// Reads a type name.
    fn parse_type(&mut self) -> (r: Result<PlatTypes, PlatError>)
        ensures
            final(self).lexer.file == old(self).lexer.file,
            match type_at(old(self).text(), old(self).pos()) {
                Ok((kind, p)) => r matches Ok(k) && k == kind && final(self).pos() == p,
                Err(e) => r matches Err(x) && x == e,
            },
    {
        let token = self.expect_next_kind(PlatTokenKinds::Identifier)?;
        let name = token.value.as_str();
        if same_text(name, "void") {
            Ok(PlatTypes::Void)
        } else if same_text(name, "i32") {
            Ok(PlatTypes::I32)
        } else if same_text(name, "i64") {
            Ok(PlatTypes::I64)
        } else if same_text(name, "f32") {
            Ok(PlatTypes::F32)
        } else if same_text(name, "f64") {
            Ok(PlatTypes::F64)
        } else {
            Err(PlatError::GrammarError)
        }
    }

    /// Reads an expression, if one starts here.
    fn parse_expr(&mut self) -> (r: Result<Option<Expr>, PlatError>)
        ensures
            final(self).lexer.file == old(self).lexer.file,
            match expr_at(old(self).text(), old(self).pos()) {
                Ok((value, p)) => r matches Ok(v) && opt_expr_view(v) == value && final(self).pos() == p,
                Err(e) => r matches Err(x) && x == e,
            },
        decreases old(self).text().len() - old(self).pos(),
    {
        proof {
            lemma_lex_advances(self.text(), self.pos());
        }
        let token = self.lexer.next()?;
        match token.kind {
            PlatTokenKinds::Literal | PlatTokenKinds::Identifier => Ok(
                Some(Expr::Literal(token.value)),
            ),
            PlatTokenKinds::Bang | PlatTokenKinds::Minus => {
                match self.parse_expr()? {
                    Some(operand) => Ok(
                        Some(Expr::Unary(Box::new(UnaryExpr { operator: token, expr: operand }))),
                    ),
                    None => Err(PlatError::GrammarError),
                }
            },
            _ => Ok(None),
        }
    }

    /// Reads the arguments of a function, from behind the opening
    /// parenthesis up to and including the closing one.
    fn parse_func_args(&mut self) -> (r: Result<Vec<FuncExprArg>, PlatError>)
        ensures
            final(self).lexer.file == old(self).lexer.file,
            match args_at(old(self).text(), old(self).pos(), 0) {
                Ok((args, p)) => r matches Ok(v) && args_view(v@) == args && final(self).pos()
                    == p,
                Err(e) => r matches Err(x) && x == e,
            },
    {
        let ghost file = self.lexer.file;
        let ghost s = self.text();
        let ghost start = self.pos();
        let mut args: Vec<FuncExprArg> = Vec::new();
        proof {
            assert(args_view(args@) =~= Seq::<ArgView>::empty());
            lemma_after_nothing(args_at(s, start, 0));
        }
        loop
            invariant
                file == old(self).lexer.file,
                s == old(self).text(),
                start == old(self).pos(),
                self.lexer.file == file,
                self.text() == s,
                args_at(s, start, 0) == after(
                    args_view(args@),
                    args_at(s, self.pos(), args@.len()),
                ),
            decreases s.len() - self.pos(),
        {
            let ghost here = self.pos();
            let ghost seen = args_view(args@);
            proof {
                lemma_lex_advances(s, here);
            }
            let token = self.lexer.next()?;
            if token.kind == PlatTokenKinds::CloseParen {
                assert(seen + Seq::<ArgView>::empty() =~= seen);
                return Ok(args);
            }
            proof {
                lemma_lex_advances(s, self.pos());
            }
            let name = if args.len() == 0 {
                if token.kind != PlatTokenKinds::Identifier {
                    return Err(PlatError::GrammarError);
                }
                token
            } else {
                if token.kind != PlatTokenKinds::Comma {
                    return Err(PlatError::GrammarError);
                }
                self.expect_next_kind(PlatTokenKinds::Identifier)?
            };
            let ghost q = self.pos();
            proof {
                lemma_arg_tail_advances(s, q, name.value@);
            }
            self.expect_next_kind(PlatTokenKinds::Colon)?;
            let kind = self.parse_type()?;
            let arg = FuncExprArg { name: name.value, kind };
            proof {
                let r = self.pos();
                let a = arg@;
                match args_at(s, r, args@.len() + 1) {
                    Ok((rest, _)) => {
                        assert(seen + (seq![a] + rest) =~= seen.push(a) + rest);
                    },
                    Err(_) => {},
                }
                assert(args_view(args@.push(arg)) =~= seen.push(a));
            }
            args.push(arg);
        }
    }

    /// Reads a variable declaration, from behind `let`.
    fn parse_def(&mut self) -> (r: Result<DefExpr, PlatError>)
        ensures
            final(self).lexer.file == old(self).lexer.file,
            match def_at(old(self).text(), old(self).pos()) {
                Ok((d, p)) => r matches Ok(v) && ast_view(AST::Def(v)) == AstView::Def(d)
                    && final(self).pos() == p,
                Err(e) => r matches Err(x) && x == e,
            },
    {
        let name = self.expect_next_kind(PlatTokenKinds::Identifier)?;
        self.expect_next_kind(PlatTokenKinds::Colon)?;
        let kind = self.parse_type()?;
        self.expect_next_kind(PlatTokenKinds::Assign)?;
        match self.parse_expr()? {
            Some(value) => Ok(DefExpr { name: name.value, kind, value }),
            None => Err(PlatError::GrammarError),
        }
    }

    /// Reads the statement that the keyword `word` starts, where `word` is
    /// not `func`.
    fn parse_stmt(&mut self, word: &str) -> (r: Result<AST, PlatError>)
        ensures
            final(self).lexer.file == old(self).lexer.file,
            match stmt_at(old(self).text(), old(self).pos(), word@) {
                Ok((node, p)) => r matches Ok(v) && ast_view(v) == node && final(self).pos() == p,
                Err(e) => r matches Err(x) && x == e,
            },
    {
        if same_text(word, "let") {
            Ok(AST::Def(self.parse_def()?))
        } else {
            Ok(AST::Ret(self.parse_expr()?))
        }
    }

    /// Reads a function declaration, from behind `func`.
    fn parse_func(&mut self) -> (r: Result<FuncExpr, PlatError>)
        ensures
            final(self).lexer.file == old(self).lexer.file,
            match func_at(old(self).text(), old(self).pos()) {
                Ok((f, p)) => r matches Ok(v) && ast_view(AST::Func(v)) == AstView::Func(f)
                    && final(self).pos() == p,
                Err(e) => r matches Err(x) && x == e,
            },
        decreases old(self).text().len() - old(self).pos(), 1int,
    {
        let ghost s = self.text();
        let ghost start = self.pos();
        proof {
            lemma_lex_advances(s, start);
        }
        let name = self.expect_next_kind(PlatTokenKinds::Identifier)?;
        proof {
            lemma_lex_advances(s, self.pos());
        }
        self.expect_next_kind(PlatTokenKinds::OpenParen)?;
        proof {
            lemma_args_advances(s, self.pos(), 0);
        }
        let args = self.parse_func_args()?;
        proof {
            lemma_type_advances(s, self.pos());
        }
        let ret_kind = self.parse_type()?;
        proof {
            lemma_lex_advances(s, self.pos());
        }
        self.expect_next_kind(PlatTokenKinds::OpenCurly)?;
        let body = self.parse_block(PlatTokenKinds::CloseBracket, true)?;
        let expr = FuncExpr { name: name.value, args, ret_kind, body };
        proof {
            lemma_func_view(expr);
        }
        Ok(expr)
    }

    /// Reads the statements of a block; `inside` says that it is the body of
    /// a function.
    fn parse_block(&mut self, end: PlatTokenKinds, inside: bool) -> (r: Result<
        Vec<AST>,
        PlatError,
    >)
        ensures
            final(self).lexer.file == old(self).lexer.file,
            match block_at(old(self).text(), old(self).pos(), end, inside) {
                Ok((nodes, p)) => r matches Ok(v) && asts_view(v@) == nodes && final(self).pos()
                    == p,
                Err(e) => r matches Err(x) && x == e,
            },
        decreases old(self).text().len() - old(self).pos(), 0int,
    {
        let ghost file = self.lexer.file;
        let ghost s = self.text();
        let ghost start = self.pos();
        let mut nodes: Vec<AST> = Vec::new();
        proof {
            assert(asts_view(nodes@) =~= Seq::<AstView>::empty());
            lemma_after_nothing(block_at(s, start, end, inside));
        }
        loop
            invariant
                file == old(self).lexer.file,
                s == old(self).text(),
                start == old(self).pos(),
                self.lexer.file == file,
                self.text() == s,
                start <= self.pos(),
                block_at(s, start, end, inside) == after(
                    asts_view(nodes@),
                    block_at(s, self.pos(), end, inside),
                ),
            decreases s.len() - self.pos(),
        {
            let ghost here = self.pos();
            let ghost seen = asts_view(nodes@);
            proof {
                lemma_lex_advances(s, here);
                lemma_block_advances(s, here, end, inside);
            }
            let token = self.lexer.next()?;
            if token.kind == end || token.kind == PlatTokenKinds::EOF {
                assert(seen + Seq::<AstView>::empty() =~= seen);
                return Ok(nodes);
            }
            if token.kind == PlatTokenKinds::Keyword {
                let node = if same_text(token.value.as_str(), "func") {
                    if inside {
                        return Err(PlatError::GrammarError);
                    }
                    AST::Func(self.parse_func()?)
                } else {
                    self.parse_stmt(token.value.as_str())?
                };
                proof {
                    let a = ast_view(node);
                    match block_at(s, self.pos(), end, inside) {
                        Ok((rest, _)) => {
                            assert(seen + (seq![a] + rest) =~= seen.push(a) + rest);
                        },
                        Err(_) => {},
                    }
                    assert(asts_view(nodes@.push(node)) =~= seen.push(a));
                }
                nodes.push(node);
            }
        }
    }

    /// Parses a block of statements: up to and including the first token of
    /// the kind `end`, or, where `end` is `None`, up to the end of the text,
    /// which is how a whole source file is parsed. A block also ends,
    /// without an error, where the text ends. The tokenizer never goes
    /// back, nor beyond the end of the text; on an error it is put back
    /// where it stood.
    pub fn parse(&mut self, end: Option<PlatTokenKinds>) -> (r: Result<Vec<AST>, PlatError>)
        ensures
            final(self).lexer.file == old(self).lexer.file,
            match block_at(old(self).text(), old(self).pos(), end_kind(end), false) {
                Ok((nodes, p)) => r matches Ok(v) && asts_view(v@) == nodes && final(self).pos()
                    == p,
                Err(e) => r matches Err(x) && x == e && final(self).pos() == old(self).pos(),
            },
            forward(old(self).text(), old(self).pos(), final(self).pos()),
    {
        proof {
            lemma_block_advances(self.text(), self.pos(), end_kind(end), false);
        }
        let start = self.lexer.cursor;
        let kind = match end {
            Some(kind) => kind,
            None => PlatTokenKinds::EOF,
        };
        match self.parse_block(kind, false) {
            Ok(nodes) => Ok(nodes),
            Err(e) => {
                self.lexer.cursor = start;
                Err(e)
            },
        }
    }
}

} // verus!
