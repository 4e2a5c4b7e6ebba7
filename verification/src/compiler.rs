use vstd::prelude::*;
use crate::ast::{asts_view, ast_view, lemma_func_view};
use crate::ast::{AstView, Expr, ExprView, FuncExpr, FuncView, PlatTypes, AST};
use crate::codegen::{compile_function, floats_view, func_view, function_entry};
use crate::codegen::{lemma_entry_shape, FloatValue, FloatView};
use crate::error::PlatError;
use crate::grammar::block_at;
use crate::lexer::{Lexer, PlatTokenKinds};
use crate::module::{counts_agree, exports_main, header, main_export, reads_back_as};
use crate::module::{lemma_code_bodies_push, lemma_module_counts, lemma_type_entries_push};
use crate::module::{extend, Program, ProgramView};
use crate::parser::Parser;

verus! {

/// The program with one function more: its type entry, its own index in
/// the function section and its body, and both counts one higher. A module
/// holds 255 functions at most.
pub open spec fn add_function(p: ProgramView, f: FuncView, floats: Seq<FloatView>) -> Result<
    ProgramView,
    PlatError,
> {
    if p.n_types == 255 || p.n_funcs == 255 {
        Err(PlatError::CapacityExceeded)
    } else {
        match function_entry(f, floats) {
            Ok(entry) => Ok(
                ProgramView {
                    sec_type: p.sec_type + entry.type_entry,
                    n_types: (p.n_types + 1) as u8,
                    sec_func: p.sec_func.push(p.n_funcs),
                    n_funcs: (p.n_funcs + 1) as u8,
                    sec_expo: p.sec_expo,
                    n_expos: p.n_expos,
                    sec_code: p.sec_code + entry.body,
                },
            ),
            Err(e) => Err(e),
        }
    }
}

/// The program after one node outside any function: a function is added; a
/// declaration or a return there is an error.
pub open spec fn add_node(p: ProgramView, node: AstView, floats: Seq<FloatView>) -> Result<
    ProgramView,
    PlatError,
> {
    match node {
        AstView::Func(f) => add_function(p, f, floats),
        _ => Err(PlatError::GrammarError),
    }
}

/// The program after the nodes, one after the other.
pub open spec fn add_nodes(p: ProgramView, nodes: Seq<AstView>, floats: Seq<FloatView>) -> Result<
    ProgramView,
    PlatError,
>
    decreases nodes.len(),
{
    if nodes.len() == 0 {
        Ok(p)
    } else {
        match add_node(p, nodes[0], floats) {
            Ok(q) => add_nodes(q, nodes.drop_first(), floats),
            Err(e) => Err(e),
        }
    }
}

/// The program with the export of `main` as its one export.
pub open spec fn with_main(p: ProgramView) -> ProgramView {
    ProgramView {
        sec_type: p.sec_type,
        n_types: p.n_types,
        sec_func: p.sec_func,
        n_funcs: p.n_funcs,
        sec_expo: main_export(),
        n_expos: 1,
        sec_code: p.sec_code,
    }
}

/// The program that compiling the nodes leaves: the nodes are added and
/// `main` is exported. A section too long for its length byte is an error.
pub open spec fn compiled(p: ProgramView, nodes: Seq<AstView>, floats: Seq<FloatView>) -> Result<
    ProgramView,
    PlatError,
> {
    match add_nodes(p, nodes, floats) {
        Ok(q) => if with_main(q).fits() {
            Ok(with_main(q))
        } else {
            Err(PlatError::CapacityExceeded)
        },
        Err(e) => Err(e),
    }
}

/// The literal texts of the float declarations in a body, in their order.
pub open spec fn body_float_texts(body: Seq<AstView>) -> Seq<Seq<char>>
    decreases body.len(),
{
    if body.len() == 0 {
        Seq::empty()
    } else {
        let rest = body_float_texts(body.drop_last());
        match body.last() {
            AstView::Def(d) => match d.value {
                ExprView::Literal(text) => if d.kind == PlatTypes::F32 || d.kind
                    == PlatTypes::F64 {
                    rest.push(text)
                } else {
                    rest
                },
                _ => rest,
            },
            _ => rest,
        }
    }
}

/// The literal texts of the float declarations in the functions among
/// `nodes`, in their order.
pub open spec fn float_texts(nodes: Seq<AstView>) -> Seq<Seq<char>>
    decreases nodes.len(),
{
    if nodes.len() == 0 {
        Seq::empty()
    } else {
        let rest = float_texts(nodes.drop_last());
        match nodes.last() {
            AstView::Func(f) => rest + body_float_texts(f.body),
            _ => rest,
        }
    }
}

pub open spec fn texts_view(texts: Seq<String>) -> Seq<Seq<char>> {
    Seq::new(texts.len(), |i: int| texts[i]@)
}

/// A function more leaves the counts those of the entries.
pub proof fn lemma_add_function_wf(p: ProgramView, f: FuncView, floats: Seq<FloatView>)
    requires
        p.wf(),
    ensures
        add_function(p, f, floats) matches Ok(q) ==> q.wf(),
{
    if let Ok(q) = add_function(p, f, floats) {
        let entry = function_entry(f, floats)->Ok_0;
        lemma_entry_shape(f, floats);
        lemma_type_entries_push(p.sec_type, entry.type_entry);
        lemma_code_bodies_push(p.sec_code, entry.body);
    }
}

/// Nodes more leave the counts those of the entries.
pub proof fn lemma_add_nodes_wf(p: ProgramView, nodes: Seq<AstView>, floats: Seq<FloatView>)
    requires
        p.wf(),
    ensures
        add_nodes(p, nodes, floats) matches Ok(q) ==> q.wf(),
    decreases nodes.len(),
{
    if nodes.len() > 0 {
        if let Ok(q) = add_node(p, nodes[0], floats) {
            if let AstView::Func(f) = nodes[0] {
                lemma_add_function_wf(p, f, floats);
            }
            lemma_add_nodes_wf(q, nodes.drop_first(), floats);
        }
    }
}

/// Every module that compiling hands out starts with the header, exports
/// exactly `main` as the function with index 0, and has count bytes that
/// read back as the numbers of entries in its sections: as many type
/// entries as function entries as function bodies.
pub proof fn lemma_compiled_module(p: ProgramView, nodes: Seq<AstView>, floats: Seq<FloatView>)
    requires
        p.wf(),
    ensures
        compiled(p, nodes, floats) matches Ok(q) ==> q.wf() && q.image().subrange(0, 8) == header()
            && exports_main(q.image()) && counts_agree(q.image()),
{
    lemma_add_nodes_wf(p, nodes, floats);
    if let Ok(q) = compiled(p, nodes, floats) {
        lemma_module_counts(q);
    }
}

/// The compiler of one source text: its parser, the program that is put
/// together and what the float literals are worth.
pub struct Compiler {
    pub parser: Parser,
    pub program: Program,
    pub floats: Vec<FloatValue>,
}

impl Compiler {
    /// A compiler of the text `source`, with an empty program.
    pub fn new(source: String) -> (c: Compiler)
        ensures
            c.parser.lexer.file == source,
            c.parser.lexer.cursor == 0,
            c.program@ == Program::new_view(),
            c.program@.wf(),
            c.floats@.len() == 0,
    {
        Compiler {
            parser: Parser::new(Lexer::new(source)),
            program: Program::new(),
            floats: Vec::new(),
        }
    }

    /// Parses the text from where the parser stands up to its end.
    pub fn parse(&mut self) -> (r: Result<Vec<AST>, PlatError>)
        ensures
            final(self).parser.lexer.file == old(self).parser.lexer.file,
            final(self).program == old(self).program,
            final(self).floats == old(self).floats,
            match block_at(
                old(self).parser.text(),
                old(self).parser.pos(),
                PlatTokenKinds::EOF,
                false,
            ) {
                Ok((nodes, p)) => r matches Ok(v) && asts_view(v@) == nodes
                    && final(self).parser.pos() == p,
                Err(e) => r matches Err(x) && x == e
                    && final(self).parser.pos() == old(self).parser.pos(),
            },
    {
        self.parser.parse(None)
    }

    /// Says what the float literals of the program are worth. The compiler
    /// cannot read a float: the caller does, for each text that
    /// `float_literals` hands out.
    pub fn set_floats(&mut self, floats: Vec<FloatValue>)
        ensures
            final(self).floats == floats,
            final(self).parser == old(self).parser,
            final(self).program == old(self).program,
    {
        self.floats = floats;
    }

    /// The literal texts of the float declarations in the functions among
    /// `ast`, in their order.
    pub fn float_literals(ast: &Vec<AST>) -> (texts: Vec<String>)
        ensures
            texts_view(texts@) == float_texts(asts_view(ast@)),
    {
        let ghost nodes = asts_view(ast@);
        let mut texts: Vec<String> = Vec::new();
        let mut i: usize = 0;
        assert(nodes.take(0) =~= Seq::<AstView>::empty());
        assert(texts_view(texts@) =~= Seq::<Seq<char>>::empty());
        while i < ast.len()
            invariant
                i <= ast.len(),
                nodes == asts_view(ast@),
                texts_view(texts@) == float_texts(nodes.take(i as int)),
            decreases ast.len() - i,
        {
            assert(nodes.take(i + 1).drop_last() =~= nodes.take(i as int));
            assert(nodes.take(i + 1).last() == ast_view(ast@[i as int]));
            match &ast[i] {
                AST::Func(f) => {
                    proof {
                        lemma_func_view(*f);
                    }
                    let ghost body = asts_view(f.body@);
                    let ghost before = texts_view(texts@);
                    let mut j: usize = 0;
                    assert(body.take(0) =~= Seq::<AstView>::empty());
                    assert(before + Seq::<Seq<char>>::empty() =~= before);
                    while j < f.body.len()
                        invariant
                            j <= f.body.len(),
                            body == asts_view(f.body@),
                            texts_view(texts@) == before + body_float_texts(body.take(j as int)),
                        decreases f.body.len() - j,
                    {
                        assert(body.take(j + 1).drop_last() =~= body.take(j as int));
                        assert(body.take(j + 1).last() == ast_view(f.body@[j as int]));
                        let ghost sofar = body_float_texts(body.take(j as int));
                        match &f.body[j] {
                            AST::Def(d) => match &d.value {
                                Expr::Literal(text) => {
                                    if d.kind == PlatTypes::F32 || d.kind == PlatTypes::F64 {
                                        let ghost held = texts@;
                                        let copy = text.clone();
                                        texts.push(copy);
                                        assert(texts_view(texts@) =~= texts_view(held).push(
                                            text@,
                                        ));
                                        assert(before + sofar.push(text@) =~= (before
                                            + sofar).push(text@));
                                    }
                                },
                                _ => {},
                            },
                            _ => {},
                        }
                        j += 1;
                    }
                    assert(body.take(j as int) =~= body);
                },
                _ => {},
            }
            i += 1;
        }
        assert(nodes.take(i as int) =~= nodes);
        texts
    }

    /// Generates a function and adds it to the program. On an error the
    /// program is left as it was.
    fn compile_fn(&mut self, expr: &FuncExpr) -> (r: Result<(), PlatError>)
        ensures
            final(self).parser == old(self).parser,
            final(self).floats == old(self).floats,
            match add_function(old(self).program@, func_view(*expr), floats_view(old(self).floats@)) {
                Ok(q) => r is Ok && final(self).program@ == q,
                Err(e) => r matches Err(x) && x == e && final(self).program == old(self).program,
            },
    {
        if self.program.n_types == 255 || self.program.n_funcs == 255 {
            return Err(PlatError::CapacityExceeded);
        }
        let (entry, body) = compile_function(expr, &self.floats)?;
        extend(&mut self.program.sec_type, &entry);
        self.program.n_types = self.program.n_types + 1;
        self.program.sec_func.push(self.program.n_funcs);
        self.program.n_funcs = self.program.n_funcs + 1;
        extend(&mut self.program.sec_code, &body);
        Ok(())
    }

    /// Generates one node outside any function: a function is added to the
    /// program; a declaration or a return there is an error. On an error
    /// the program is left as it was.
    pub fn compile_node(&mut self, node: &AST) -> (r: Result<(), PlatError>)
        ensures
            final(self).parser == old(self).parser,
            final(self).floats == old(self).floats,
            match add_node(old(self).program@, ast_view(*node), floats_view(old(self).floats@)) {
                Ok(q) => r is Ok && final(self).program@ == q,
                Err(e) => r matches Err(x) && x == e && final(self).program == old(self).program,
            },
            old(self).program@.wf() ==> final(self).program@.wf(),
    {
        proof {
            if let AstView::Func(f) = ast_view(*node) {
                if self.program@.wf() {
                    lemma_add_function_wf(self.program@, f, floats_view(self.floats@));
                }
            }
        }
        match node {
            AST::Func(expr) => {
                proof {
                    lemma_func_view(*expr);
                }
                self.compile_fn(expr)
            },
            _ => Err(PlatError::GrammarError),
        }
    }

    /// Compiles the nodes into a module: every function is added to the
    /// program, `main` is exported as the function with index 0, and the
    /// sections are put together behind the header. Any fault stops the
    /// compilation, and the program is then left as it was.
    pub fn compile(&mut self, ast: Vec<AST>) -> (r: Result<Vec<u8>, PlatError>)
        ensures
            final(self).parser == old(self).parser,
            final(self).floats == old(self).floats,
            match compiled(old(self).program@, asts_view(ast@), floats_view(old(self).floats@)) {
                Ok(q) => r matches Ok(image) && image@ == q.image() && final(self).program@ == q
                    && reads_back_as(image@, q),
                Err(e) => r matches Err(x) && x == e && final(self).program@ == old(self).program@,
            },
            old(self).program@.wf() ==> final(self).program@.wf() && (r matches Ok(image)
                ==> image@.subrange(0, 8) == header() && exports_main(image@) && counts_agree(
                image@,
            )),
    {
        let ghost nodes = asts_view(ast@);
        let ghost fl = floats_view(self.floats@);
        let ghost held = self.program@;
        proof {
            if held.wf() {
                lemma_compiled_module(held, nodes, fl);
            }
        }
        let type_len = self.program.sec_type.len();
        let func_len = self.program.sec_func.len();
        let code_len = self.program.sec_code.len();
        let n_types = self.program.n_types;
        let n_funcs = self.program.n_funcs;
        let mut failed: Option<PlatError> = None;
        let mut i: usize = 0;
        assert(nodes.skip(0) =~= nodes);
        while i < ast.len() && failed.is_none()
            invariant
                i <= ast.len(),
                nodes == asts_view(ast@),
                fl == floats_view(self.floats@),
                self.parser == old(self).parser,
                self.floats == old(self).floats,
                held == old(self).program@,
                type_len == held.sec_type.len(),
                func_len == held.sec_func.len(),
                code_len == held.sec_code.len(),
                self.program.sec_type@.len() >= type_len,
                self.program.sec_func@.len() >= func_len,
                self.program.sec_code@.len() >= code_len,
                self.program.sec_type@.take(type_len as int) == held.sec_type,
                self.program.sec_func@.take(func_len as int) == held.sec_func,
                self.program.sec_code@.take(code_len as int) == held.sec_code,
                self.program.sec_expo@ == held.sec_expo,
                self.program.n_expos == held.n_expos,
                match failed {
                    Some(e) => add_nodes(held, nodes, fl) == Err::<ProgramView, PlatError>(e),
                    None => add_nodes(held, nodes, fl) == add_nodes(
                        self.program@,
                        nodes.skip(i as int),
                        fl,
                    ),
                },
            decreases ast.len() - i, failed.is_none() as int,
        {
            assert(nodes.skip(i as int).drop_first() =~= nodes.skip(i + 1));
            assert(nodes.skip(i as int)[0] == ast_view(ast@[i as int]));
            let ghost before = self.program@;
            match self.compile_node(&ast[i]) {
                Ok(()) => {
                    assert(self.program.sec_type@.take(type_len as int) =~= before.sec_type.take(
                        type_len as int,
                    ));
                    assert(self.program.sec_func@.take(func_len as int) =~= before.sec_func.take(
                        func_len as int,
                    ));
                    assert(self.program.sec_code@.take(code_len as int) =~= before.sec_code.take(
                        code_len as int,
                    ));
                    i += 1;
                },
                Err(e) => {
                    failed = Some(e);
                },
            }
        }
        if failed.is_none() {
            assert(nodes.skip(i as int) =~= Seq::<AstView>::empty());
            if self.program.sec_type.len() >= 255 || self.program.sec_func.len() >= 255
                || self.program.sec_code.len() >= 255 {
                failed = Some(PlatError::CapacityExceeded);
            }
        }
        match failed {
            Some(e) => {
                self.program.sec_type.truncate(type_len);
                self.program.sec_func.truncate(func_len);
                self.program.sec_code.truncate(code_len);
                self.program.n_types = n_types;
                self.program.n_funcs = n_funcs;
                assert(self.program@ =~= held);
                Err(e)
            },
            None => {
                self.program.sec_expo.clear();
                self.program.sec_expo.push(0x04);
                self.program.sec_expo.push(0x6D);
                self.program.sec_expo.push(0x61);
                self.program.sec_expo.push(0x69);
                self.program.sec_expo.push(0x6E);
                self.program.sec_expo.push(0x00);
                self.program.sec_expo.push(0x00);
                self.program.n_expos = 1;
                assert(self.program.sec_expo@ =~= main_export());
                self.program.unite()
            },
        }
    }
}

} // verus!
