use vstd::prelude::*;
use crate::lexer::{PlatToken, TokenView};

verus! {

/// The value types of the source language: what a function returns and what
/// a variable holds.
#[derive(Clone, Copy, Debug, PartialEq, Eq, Structural)]
pub enum PlatTypes {
    Void,
    I32,
    I64,
    F32,
    F64,
}

/// One argument of a function: its name and its type.
#[derive(Debug)]
pub struct FuncExprArg {
    pub name: String,
    pub kind: PlatTypes,
}

/// A function declaration with its body.
#[derive(Debug)]
pub struct FuncExpr {
    pub name: String,
    pub args: Vec<FuncExprArg>,
    pub ret_kind: PlatTypes,
    pub body: Vec<AST>,
}

/// Two operands joined by an operator.
#[derive(Debug)]
pub struct BinaryExpr {
    pub left: Expr,
    pub operator: PlatToken,
    pub right: Expr,
}

/// An operator in front of one operand.
#[derive(Debug)]
pub struct UnaryExpr {
    pub operator: PlatToken,
    pub expr: Expr,
}

/// An expression.
#[derive(Debug)]
pub enum Expr {
    Unary(Box<UnaryExpr>),
    Binary(Box<BinaryExpr>),
    /// A literal or a name, as the text it was written with.
    Literal(String),
    Group(Box<Expr>),
}

/// A variable declaration. The initializer is not optional.
#[derive(Debug)]
pub struct DefExpr {
    pub name: String,
    pub kind: PlatTypes,
    pub value: Expr,
}

/// A statement.
#[derive(Debug)]
pub enum AST {
    Func(FuncExpr),
    Def(DefExpr),
    Ret(Option<Expr>),
}

/// An expression as contracts see it.
pub ghost enum ExprView {
    Unary(TokenView, Box<ExprView>),
    Binary(Box<ExprView>, TokenView, Box<ExprView>),
    Literal(Seq<char>),
    Group(Box<ExprView>),
}

/// An argument as contracts see it.
pub ghost struct ArgView {
    pub name: Seq<char>,
    pub kind: PlatTypes,
}

/// A function declaration as contracts see it.
pub ghost struct FuncView {
    pub name: Seq<char>,
    pub args: Seq<ArgView>,
    pub ret_kind: PlatTypes,
    pub body: Seq<AstView>,
}

/// A variable declaration as contracts see it.
pub ghost struct DefView {
    pub name: Seq<char>,
    pub kind: PlatTypes,
    pub value: ExprView,
}

/// A statement as contracts see it.
pub ghost enum AstView {
    Func(FuncView),
    Def(DefView),
    Ret(Option<ExprView>),
}

pub open spec fn expr_view(e: Expr) -> ExprView
    decreases e,
{
    match e {
        Expr::Unary(u) => ExprView::Unary(u.operator@, Box::new(expr_view(u.expr))),
        Expr::Binary(b) => ExprView::Binary(
            Box::new(expr_view(b.left)),
            b.operator@,
            Box::new(expr_view(b.right)),
        ),
        Expr::Literal(text) => ExprView::Literal(text@),
        Expr::Group(inner) => ExprView::Group(Box::new(expr_view(*inner))),
    }
}

pub open spec fn opt_expr_view(e: Option<Expr>) -> Option<ExprView> {
    match e {
        Some(e) => Some(expr_view(e)),
        None => None,
    }
}

pub open spec fn arg_view(a: FuncExprArg) -> ArgView {
    ArgView { name: a.name@, kind: a.kind }
}

pub open spec fn args_view(args: Seq<FuncExprArg>) -> Seq<ArgView> {
    Seq::new(args.len(), |i: int| arg_view(args[i]))
}

pub open spec fn ast_view(a: AST) -> AstView
    decreases a,
{
    match a {
        AST::Func(f) => AstView::Func(
            FuncView {
                name: f.name@,
                args: args_view(f.args@),
                ret_kind: f.ret_kind,
                body: Seq::new(
                    f.body@.len(),
                    |i: int|
                        if 0 <= i < f.body@.len() {
                            ast_view(f.body@[i])
                        } else {
                            arbitrary()
                        },
                ),
            },
        ),
        AST::Def(d) => AstView::Def(
            DefView { name: d.name@, kind: d.kind, value: expr_view(d.value) },
        ),
        AST::Ret(v) => AstView::Ret(opt_expr_view(v)),
    }
}

pub open spec fn asts_view(nodes: Seq<AST>) -> Seq<AstView> {
    Seq::new(nodes.len(), |i: int| ast_view(nodes[i]))
}

impl View for Expr {
    type V = ExprView;

    open spec fn view(&self) -> ExprView {
        expr_view(*self)
    }
}

impl View for FuncExprArg {
    type V = ArgView;

    open spec fn view(&self) -> ArgView {
        arg_view(*self)
    }
}

impl View for AST {
    type V = AstView;

    open spec fn view(&self) -> AstView {
        ast_view(*self)
    }
}

/// The body of a function is seen statement by statement.
pub proof fn lemma_func_view(f: FuncExpr)
    ensures
        ast_view(AST::Func(f)) == AstView::Func(
            FuncView {
                name: f.name@,
                args: args_view(f.args@),
                ret_kind: f.ret_kind,
                body: asts_view(f.body@),
            },
        ),
{
    assert(ast_view(AST::Func(f))->Func_0.body =~= asts_view(f.body@));
}

} // verus!
