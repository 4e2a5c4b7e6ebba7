use vstd::prelude::*;
use crate::ast::{asts_view, args_view, ast_view, expr_view, opt_expr_view};
use crate::ast::{ArgView, AstView, DefExpr, DefView, Expr, ExprView, FuncExpr, FuncView};
use crate::ast::{PlatTypes, AST};
use crate::error::PlatError;
use crate::module::{extend, type_entry_len};
use crate::numeric::{encode_bits, encode_int, parse_int};
use crate::numeric::{int_of_width, int_payload, le_bytes, le_value, unsigned_of};
use crate::numeric::{lemma_le_bytes_len, lemma_le_round_trip, lemma_pow256};
use crate::text::same_text;

verus! {

/// The byte that stands for a value type in the module.
pub open spec fn type_byte(kind: PlatTypes) -> u8 {
    match kind {
        PlatTypes::Void => 0x00,
        PlatTypes::I32 => 0x7F,
        PlatTypes::I64 => 0x7E,
        PlatTypes::F32 => 0x7D,
        PlatTypes::F64 => 0x7C,
    }
}

/// The byte that stands for a value type in the module.
pub fn plat_type_to_byte(kind: PlatTypes) -> (b: u8)
    ensures
        b == type_byte(kind),
{
    match kind {
        PlatTypes::Void => 0x00,
        PlatTypes::I32 => 0x7F,
        PlatTypes::I64 => 0x7E,
        PlatTypes::F32 => 0x7D,
        PlatTypes::F64 => 0x7C,
    }
}

/// An entry of a function's symbol table: an argument or a local variable.
#[derive(Debug)]
pub struct Variable {
    pub name: String,
    pub index: u8,
    pub kind: PlatTypes,
}

/// An entry of a symbol table as contracts see it.
pub ghost struct VarView {
    pub name: Seq<char>,
    pub index: u8,
    pub kind: PlatTypes,
}

impl View for Variable {
    type V = VarView;

    open spec fn view(&self) -> VarView {
        VarView { name: self.name@, index: self.index, kind: self.kind }
    }
}

pub open spec fn vars_view(table: Seq<Variable>) -> Seq<VarView> {
    Seq::new(table.len(), |i: int| table[i]@)
}

/// What a float literal is worth: the bits of the single and of the double
/// precision number that its text writes, each where the text writes one.
#[derive(Debug)]
pub struct FloatValue {
    pub text: String,
    pub single: Option<u32>,
    pub double: Option<u64>,
}

/// A float literal's worth as contracts see it.
pub ghost struct FloatView {
    pub text: Seq<char>,
    pub single: Option<u32>,
    pub double: Option<u64>,
}

impl View for FloatValue {
    type V = FloatView;

    open spec fn view(&self) -> FloatView {
        FloatView { text: self.text@, single: self.single, double: self.double }
    }
}

pub open spec fn floats_view(floats: Seq<FloatValue>) -> Seq<FloatView> {
    Seq::new(floats.len(), |i: int| floats[i]@)
}

pub open spec fn def_view(d: DefExpr) -> DefView {
    DefView { name: d.name@, kind: d.kind, value: expr_view(d.value) }
}

pub open spec fn func_view(f: FuncExpr) -> FuncView {
    FuncView {
        name: f.name@,
        args: args_view(f.args@),
        ret_kind: f.ret_kind,
        body: asts_view(f.body@),
    }
}

/// The first entry of `table` with the name `name`.
pub open spec fn find_var(table: Seq<VarView>, name: Seq<char>) -> Option<VarView>
    decreases table.len(),
{
    if table.len() == 0 {
        None
    } else if table[0].name == name {
        Some(table[0])
    } else {
        find_var(table.drop_first(), name)
    }
}

/// The first entry of `floats` for the text `text`.
pub open spec fn find_float(floats: Seq<FloatView>, text: Seq<char>) -> Option<FloatView>
    decreases floats.len(),
{
    if floats.len() == 0 {
        None
    } else if floats[0].text == text {
        Some(floats[0])
    } else {
        find_float(floats.drop_first(), text)
    }
}

/// The instruction that pushes the literal `text` as a value of the type
/// `kind`: the opcode of the type's constant, then, for an integer, what is
/// written for it, and for a float all 4 or 8 bytes of its bits. A text that
/// writes no value of the type is a type mismatch, and so is the type
/// `Void`.
pub open spec fn literal_code(kind: PlatTypes, text: Seq<char>, floats: Seq<FloatView>) -> Result<
    Seq<u8>,
    PlatError,
> {
    match kind {
        PlatTypes::I32 => match int_of_width(text, 4) {
            Some(v) => Ok(seq![0x41u8] + int_payload(le_bytes(unsigned_of(v, 4), 4))),
            None => Err(PlatError::TypeMismatch),
        },
        PlatTypes::I64 => match int_of_width(text, 8) {
            Some(v) => Ok(seq![0x42u8] + int_payload(le_bytes(unsigned_of(v, 8), 8))),
            None => Err(PlatError::TypeMismatch),
        },
        PlatTypes::F32 => match find_float(floats, text) {
            Some(FloatView { single: Some(bits), .. }) => Ok(
                seq![0x43u8] + le_bytes(bits as int, 4),
            ),
            _ => Err(PlatError::TypeMismatch),
        },
        PlatTypes::F64 => match find_float(floats, text) {
            Some(FloatView { double: Some(bits), .. }) => Ok(
                seq![0x44u8] + le_bytes(bits as int, 8),
            ),
            _ => Err(PlatError::TypeMismatch),
        },
        PlatTypes::Void => Err(PlatError::TypeMismatch),
    }
}

/// The variable that `name` stands for in a function: the first declared
/// variable of that name, or, where none is declared, the first argument
/// of that name.
pub open spec fn resolve(args: Seq<VarView>, locals: Seq<VarView>, name: Seq<char>) -> Option<
    VarView,
> {
    match find_var(locals, name) {
        Some(var) => Some(var),
        None => find_var(args, name),
    }
}

/// The code of a variable declaration: the constant is pushed and stored in
/// the first of the declared variables `locals` that has the declaration's
/// name. The arguments are not looked at: a declaration with the name of
/// an argument stores into its own variable.
pub open spec fn def_code(locals: Seq<VarView>, floats: Seq<FloatView>, d: DefView) -> Result<
    Seq<u8>,
    PlatError,
> {
    match find_var(locals, d.name) {
        None => Err(PlatError::UnresolvedSymbol),
        Some(var) => if d.kind == PlatTypes::Void {
            Err(PlatError::TypeMismatch)
        } else {
            match d.value {
                ExprView::Literal(text) => match literal_code(d.kind, text, floats) {
                    Ok(code) => Ok(code + seq![0x21u8, var.index]),
                    Err(e) => Err(e),
                },
                _ => Err(PlatError::Unimplemented),
            }
        },
    }
}

/// The code of a return statement. A named variable is fetched and
/// returned: a declared variable of that name before an argument of that
/// name; its type must be the function's return type. A return without a
/// value is the return opcode alone, and fits a function without a result
/// only.
pub open spec fn ret_code(
    args: Seq<VarView>,
    locals: Seq<VarView>,
    ret_kind: PlatTypes,
    value: Option<ExprView>,
) -> Result<Seq<u8>, PlatError> {
    match value {
        None => if ret_kind == PlatTypes::Void {
            Ok(seq![0x0Fu8])
        } else {
            Err(PlatError::TypeMismatch)
        },
        Some(ExprView::Literal(name)) => match resolve(args, locals, name) {
            None => Err(PlatError::UnresolvedSymbol),
            Some(var) => if var.kind != ret_kind {
                Err(PlatError::TypeMismatch)
            } else {
                Ok(seq![0x20u8, var.index, 0x0Fu8])
            },
        },
        Some(_) => Err(PlatError::Unimplemented),
    }
}

/// A function while its body is generated: its symbol table, which is the
/// arguments and behind them the variables declared so far, and the code
/// written so far.
pub ghost struct ScopeView {
    pub args: Seq<VarView>,
    pub locals: Seq<VarView>,
    pub code: Seq<u8>,
}

/// One statement of a body. A declaration first takes the next free index
/// for a new variable, then its code is generated. A function inside a
/// function is an error.
pub open spec fn stmt_step(
    scope: ScopeView,
    ret_kind: PlatTypes,
    floats: Seq<FloatView>,
    node: AstView,
) -> Result<ScopeView, PlatError> {
    match node {
        AstView::Func(_) => Err(PlatError::GrammarError),
        AstView::Def(d) => if scope.args.len() + scope.locals.len() > 255 {
            Err(PlatError::CapacityExceeded)
        } else {
            let locals = scope.locals.push(
                VarView {
                    name: d.name,
                    index: (scope.args.len() + scope.locals.len()) as u8,
                    kind: d.kind,
                },
            );
            match def_code(locals, floats, d) {
                Ok(code) => Ok(ScopeView { args: scope.args, locals, code: scope.code + code }),
                Err(e) => Err(e),
            }
        },
        AstView::Ret(value) => match ret_code(scope.args, scope.locals, ret_kind, value) {
            Ok(code) => Ok(
                ScopeView { args: scope.args, locals: scope.locals, code: scope.code + code },
            ),
            Err(e) => Err(e),
        },
    }
}

/// The statements of a body, one after the other.
pub open spec fn body_steps(
    scope: ScopeView,
    ret_kind: PlatTypes,
    floats: Seq<FloatView>,
    body: Seq<AstView>,
) -> Result<ScopeView, PlatError>
    decreases body.len(),
{
    if body.len() == 0 {
        Ok(scope)
    } else {
        match stmt_step(scope, ret_kind, floats, body[0]) {
            Ok(next) => body_steps(next, ret_kind, floats, body.drop_first()),
            Err(e) => Err(e),
        }
    }
}

/// The symbol table of a function before its body: the arguments, with the
/// indices from 0 on.
pub open spec fn arg_table(args: Seq<ArgView>) -> Seq<VarView> {
    Seq::new(args.len(), |i: int| VarView { name: args[i].name, index: i as u8, kind: args[i].kind })
}

/// The type bytes of the arguments.
pub open spec fn arg_types(args: Seq<ArgView>) -> Seq<u8> {
    Seq::new(args.len(), |i: int| type_byte(args[i].kind))
}

/// The type entry of a function: the tag of a function type, the number of
/// arguments, the type of each argument, and either the mark of no result
/// or the mark of one result and its type.
pub open spec fn type_entry(f: FuncView) -> Seq<u8> {
    seq![0x60u8, f.args.len() as u8] + arg_types(f.args) + (if f.ret_kind == PlatTypes::Void {
        seq![0x00u8]
    } else {
        seq![0x01u8, type_byte(f.ret_kind)]
    })
}

/// The declarations of the local variables: for each a group of one
/// variable and its type.
pub open spec fn local_decls(locals: Seq<VarView>) -> Seq<u8>
    decreases locals.len(),
{
    if locals.len() == 0 {
        Seq::empty()
    } else {
        local_decls(locals.drop_last()) + seq![0x01u8, type_byte(locals.last().kind)]
    }
}

/// What a function adds to the type section and to the code section.
pub ghost struct EntryView {
    pub type_entry: Seq<u8>,
    pub body: Seq<u8>,
}

/// What is written for a function. Its body in the code section is one byte
/// with the size of what follows, the number of local variables, their
/// declarations, the code of the statements and the end marker. More than
/// 255 arguments, a variable index over 255 and a body of more than 255
/// bytes are errors.
pub open spec fn function_entry(f: FuncView, floats: Seq<FloatView>) -> Result<
    EntryView,
    PlatError,
> {
    if f.args.len() > 255 {
        Err(PlatError::CapacityExceeded)
    } else {
        match body_steps(start_scope(f), f.ret_kind, floats, f.body) {
            Ok(scope) => {
                let locals = scope.locals;
                let inner = seq![locals.len() as u8] + local_decls(locals) + scope.code
                    + seq![0x0Bu8];
                if inner.len() > 255 {
                    Err(PlatError::CapacityExceeded)
                } else {
                    Ok(EntryView { type_entry: type_entry(f), body: seq![inner.len() as u8] + inner })
                }
            },
            Err(e) => Err(e),
        }
    }
}

/// The declarations of `n` local variables take two bytes each.
pub proof fn lemma_local_decls_len(locals: Seq<VarView>)
    ensures
        local_decls(locals).len() == 2 * locals.len(),
    decreases locals.len(),
{
    if locals.len() > 0 {
        lemma_local_decls_len(locals.drop_last());
    }
}

/// What a function adds to a module is one whole type entry and one whole
/// function body.
pub proof fn lemma_entry_shape(f: FuncView, floats: Seq<FloatView>)
    ensures
        function_entry(f, floats) matches Ok(entry) ==> type_entry_len(entry.type_entry) == Some(
            entry.type_entry.len() as int,
        ) && entry.body.len() > 0 && entry.body[0] as int + 1 == entry.body.len(),
{
    if let Ok(entry) = function_entry(f, floats) {
        let t = entry.type_entry;
        let k = 2 + f.args.len() as int;
        assert(t[0] == 0x60u8);
        assert(t[1] == f.args.len() as u8);
        if f.ret_kind == PlatTypes::Void {
            assert(t[k] == 0x00u8);
        } else {
            assert(t[k] == 0x01u8);
        }
    }
}

/// The symbol table of a function as its body starts.
pub open spec fn start_scope(f: FuncView) -> ScopeView {
    ScopeView { args: arg_table(f.args), locals: Seq::empty(), code: Seq::empty() }
}

/// The declarations among the statements of a body, in their order.
pub open spec fn declared(body: Seq<AstView>) -> Seq<DefView>
    decreases body.len(),
{
    if body.len() == 0 {
        Seq::empty()
    } else {
        let rest = declared(body.drop_first());
        match body[0] {
            AstView::Def(d) => seq![d] + rest,
            _ => rest,
        }
    }
}

/// The variables that the declarations `defs` make in a function of `argc`
/// arguments: one for each, in their order, with the indices from `argc`
/// on.
pub open spec fn locals_of(argc: nat, defs: Seq<DefView>) -> Seq<VarView> {
    Seq::new(
        defs.len(),
        |j: int| VarView { name: defs[j].name, index: (argc + j) as u8, kind: defs[j].kind },
    )
}

/// Generating a body in one go, or its first `k` statements and then the
/// rest, comes to the same.
pub proof fn lemma_body_steps_split(
    scope: ScopeView,
    ret_kind: PlatTypes,
    floats: Seq<FloatView>,
    body: Seq<AstView>,
    k: int,
)
    requires
        0 <= k <= body.len(),
    ensures
        body_steps(scope, ret_kind, floats, body) == (match body_steps(
            scope,
            ret_kind,
            floats,
            body.take(k),
        ) {
            Ok(mid) => body_steps(mid, ret_kind, floats, body.skip(k)),
            Err(e) => Err(e),
        }),
    decreases k,
{
    if k == 0 {
        assert(body.skip(0) =~= body);
    } else {
        assert(body.take(k)[0] == body[0]);
        assert(body.take(k).drop_first() =~= body.drop_first().take(k - 1));
        assert(body.drop_first().skip(k - 1) =~= body.skip(k));
        if let Ok(next) = stmt_step(scope, ret_kind, floats, body[0]) {
            lemma_body_steps_split(next, ret_kind, floats, body.drop_first(), k - 1);
        }
    }
}

/// A return of a variable whose type is not the return type of the
/// function stops the generation of the function with a type mismatch,
/// wherever in the body it stands behind statements that are generated
/// without a fault.
pub proof fn lemma_return_type_must_match(
    f: FuncView,
    floats: Seq<FloatView>,
    k: int,
    name: Seq<char>,
)
    requires
        f.args.len() <= 255,
        0 <= k < f.body.len(),
        f.body[k] == AstView::Ret(Some(ExprView::Literal(name))),
        body_steps(start_scope(f), f.ret_kind, floats, f.body.take(k)) matches Ok(mid)
            && resolve(mid.args, mid.locals, name) matches Some(var) && var.kind != f.ret_kind,
    ensures
        function_entry(f, floats) == Err::<EntryView, PlatError>(PlatError::TypeMismatch),
{
    lemma_body_steps_split(start_scope(f), f.ret_kind, floats, f.body, k);
    assert(f.body.skip(k)[0] == f.body[k]);
}

/// The declarations of a first part of a body are a first part of the
/// declarations of the body.
pub proof fn lemma_declared_take(body: Seq<AstView>, k: int)
    requires
        0 <= k <= body.len(),
    ensures
        declared(body.take(k)).len() <= declared(body).len(),
        declared(body.take(k)) == declared(body).take(declared(body.take(k)).len() as int),
        k < body.len() ==> (match body[k] {
            AstView::Def(d) => declared(body.take(k)).len() < declared(body).len() && declared(
                body,
            )[declared(body.take(k)).len() as int] == d,
            _ => true,
        }),
    decreases k,
{
    if k == 0 {
        assert(body.take(0) =~= Seq::<AstView>::empty());
        assert(declared(body).take(0) =~= Seq::<DefView>::empty());
    } else {
        let rest = body.drop_first();
        assert(body.take(k)[0] == body[0]);
        assert(body.take(k).drop_first() =~= rest.take(k - 1));
        lemma_declared_take(rest, k - 1);
        let part = declared(rest.take(k - 1));
        if let AstView::Def(d) = body[0] {
            assert((seq![d] + declared(rest)).take(part.len() as int + 1) =~= seq![d] + declared(
                rest,
            ).take(part.len() as int));
        }
        if k < body.len() {
            assert(rest[k - 1] == body[k]);
        }
    }
}

/// The symbol table behind a body holds the arguments as before it and,
/// behind the variables that were declared before it, one variable for
/// each declaration of the body, in their order and with the next free
/// indices.
pub proof fn lemma_table_after_body(
    scope: ScopeView,
    ret_kind: PlatTypes,
    floats: Seq<FloatView>,
    body: Seq<AstView>,
)
    ensures
        body_steps(scope, ret_kind, floats, body) matches Ok(end) ==> end.args == scope.args
            && end.locals == scope.locals + locals_of(
            scope.args.len() + scope.locals.len(),
            declared(body),
        ) && (scope.args.len() + scope.locals.len() <= 256 ==> end.args.len() + end.locals.len()
            <= 256),
    decreases body.len(),
{
    let base = scope.args.len() + scope.locals.len();
    if body.len() == 0 {
        assert(scope.locals + locals_of(base, declared(body)) =~= scope.locals);
    } else if let Ok(next) = stmt_step(scope, ret_kind, floats, body[0]) {
        let rest = body.drop_first();
        lemma_table_after_body(next, ret_kind, floats, rest);
        if let AstView::Def(d) = body[0] {
            assert(next.locals + locals_of(base + 1, declared(rest)) =~= scope.locals
                + locals_of(base, seq![d] + declared(rest)));
        }
    }
}

/// A name that only the last of some variables has is found there.
pub proof fn lemma_find_last(vars: Seq<VarView>, name: Seq<char>)
    requires
        vars.len() > 0,
        vars.last().name == name,
        forall|j: int| 0 <= j < vars.len() - 1 ==> (#[trigger] vars[j]).name != name,
    ensures
        find_var(vars, name) == Some(vars.last()),
    decreases vars.len(),
{
    if vars.len() > 1 {
        let rest = vars.drop_first();
        assert(vars[0].name != name);
        assert forall|j: int| 0 <= j < rest.len() - 1 implies (#[trigger] rest[j]).name
            != name by {
            assert(rest[j] == vars[j + 1]);
        }
        lemma_find_last(rest, name);
    }
}

/// In a function that is generated without a fault the arguments have the
/// indices from 0 on and the declared variables the indices behind them, in
/// the order of their declarations. What is written behind the size of the
/// body is the number of the declared variables and then, for each of
/// them and in that order, a group of one variable and its type.
pub proof fn lemma_indices_in_order(f: FuncView, floats: Seq<FloatView>)
    requires
        function_entry(f, floats) is Ok,
    ensures
        ({
            let argc = f.args.len();
            let count = declared(f.body).len();
            let body = function_entry(f, floats)->Ok_0.body;
            &&& body_steps(start_scope(f), f.ret_kind, floats, f.body) matches Ok(end)
                && end.args == arg_table(f.args) && end.locals == locals_of(
                argc,
                declared(f.body),
            )
            &&& argc + count <= 256
            &&& forall|i: int| 0 <= i < argc ==> (#[trigger] arg_table(f.args)[i]).index == i
            &&& forall|j: int|
                0 <= j < count ==> (#[trigger] locals_of(argc, declared(f.body))[j]).index == argc
                    + j
            &&& body[1] == count
            &&& body.subrange(2, 2 + 2 * count as int) == local_decls(
                locals_of(argc, declared(f.body)),
            )
        }),
{
    let end = body_steps(start_scope(f), f.ret_kind, floats, f.body)->Ok_0;
    lemma_table_after_body(start_scope(f), f.ret_kind, floats, f.body);
    let locals = end.locals;
    assert(locals =~= locals_of(f.args.len(), declared(f.body)));
    lemma_local_decls_len(locals);
    let inner = seq![locals.len() as u8] + local_decls(locals) + end.code + seq![0x0Bu8];
    let body = function_entry(f, floats)->Ok_0.body;
    assert(body =~= seq![inner.len() as u8] + inner);
    assert(body.subrange(2, 2 + 2 * locals.len() as int) =~= local_decls(locals));
}

/// Statements only add to the code: what was written before them stays in
/// front.
pub proof fn lemma_code_grows(
    scope: ScopeView,
    ret_kind: PlatTypes,
    floats: Seq<FloatView>,
    body: Seq<AstView>,
)
    ensures
        body_steps(scope, ret_kind, floats, body) matches Ok(end) ==> scope.code.len()
            <= end.code.len() && end.code.take(scope.code.len() as int) == scope.code,
    decreases body.len(),
{
    if body.len() == 0 {
        assert(scope.code.take(scope.code.len() as int) =~= scope.code);
    } else if let Ok(next) = stmt_step(scope, ret_kind, floats, body[0]) {
        lemma_code_grows(next, ret_kind, floats, body.drop_first());
        if let Ok(end) = body_steps(next, ret_kind, floats, body.drop_first()) {
            assert(next.code.take(scope.code.len() as int) =~= scope.code);
            assert(end.code.take(scope.code.len() as int) =~= end.code.take(
                next.code.len() as int,
            ).take(scope.code.len() as int));
        }
    }
}

/// The code of a declaration ends with the instruction that stores into
/// the declaration's own variable, which has the index behind those of the
/// arguments and of the declarations before it, where no declaration
/// before it has its name. In a body that is generated without a fault,
/// if the `k`-th statement is the `n`-th declaration, the code up to and
/// including this statement is the code before it and what the statement
/// adds, which ends with the local-set opcode and the number of arguments
/// plus `n`; and that code stands at the front of the code of the body.
pub proof fn lemma_local_set_index(f: FuncView, floats: Seq<FloatView>, k: int)
    requires
        f.args.len() <= 255,
        0 <= k < f.body.len(),
        f.body[k] is Def,
        body_steps(start_scope(f), f.ret_kind, floats, f.body) is Ok,
        forall|j: int|
            0 <= j < declared(f.body.take(k)).len() ==> (#[trigger] declared(
                f.body.take(k),
            )[j]).name != f.body[k]->Def_0.name,
    ensures
        ({
            let n = declared(f.body.take(k)).len();
            let before = body_steps(start_scope(f), f.ret_kind, floats, f.body.take(k));
            let behind = body_steps(start_scope(f), f.ret_kind, floats, f.body.take(k + 1));
            let whole = body_steps(start_scope(f), f.ret_kind, floats, f.body)->Ok_0;
            &&& before matches Ok(mid) && behind matches Ok(end) && mid.code.len() + 2
                <= end.code.len() <= whole.code.len() && end.code.take(mid.code.len() as int)
                == mid.code && whole.code.take(end.code.len() as int) == end.code
                && end.code[end.code.len() - 2] == 0x21 && end.code[end.code.len() - 1]
                == f.args.len() + n
            &&& declared(f.body)[n as int] == f.body[k]->Def_0
            &&& f.args.len() + n <= 255
        }),
{
    let start = start_scope(f);
    let d = f.body[k]->Def_0;
    let part = f.body.take(k + 1);
    lemma_body_steps_split(start, f.ret_kind, floats, f.body, k + 1);
    let end = body_steps(start, f.ret_kind, floats, part)->Ok_0;
    lemma_code_grows(end, f.ret_kind, floats, f.body.skip(k + 1));
    lemma_body_steps_split(start, f.ret_kind, floats, part, k);
    assert(part.take(k) =~= f.body.take(k));
    assert(part.skip(k) =~= seq![f.body[k]]);
    let mid = body_steps(start, f.ret_kind, floats, f.body.take(k))->Ok_0;
    lemma_table_after_body(start, f.ret_kind, floats, f.body.take(k));
    lemma_declared_take(f.body, k);
    let n = declared(f.body.take(k)).len();
    let one = seq![f.body[k]];
    assert(one.drop_first() =~= Seq::<AstView>::empty());
    assert(one[0] == f.body[k]);
    let step = stmt_step(mid, f.ret_kind, floats, f.body[k]);
    assert(body_steps(mid, f.ret_kind, floats, one) == (match step {
        Ok(next) => body_steps(next, f.ret_kind, floats, one.drop_first()),
        Err(e) => Err(e),
    }));
    assert(body_steps(step->Ok_0, f.ret_kind, floats, Seq::<AstView>::empty()) == Ok::<
        ScopeView,
        PlatError,
    >(step->Ok_0));
    assert(mid.locals =~= locals_of(f.args.len(), declared(f.body.take(k))));
    let own = VarView { name: d.name, index: (f.args.len() + n) as u8, kind: d.kind };
    let locals = mid.locals.push(own);
    assert forall|j: int| 0 <= j < locals.len() - 1 implies (#[trigger] locals[j]).name
        != d.name by {
        assert(locals[j].name == declared(f.body.take(k))[j].name);
    }
    lemma_find_last(locals, d.name);
    let code = def_code(locals, floats, d)->Ok_0;
    assert(end.code == mid.code + code);
    assert(end.code.take(mid.code.len() as int) =~= mid.code);
}

/// The constant of a float is its opcode and then all the bytes of the
/// bits that the literal is worth, 4 for the single and 8 for the double
/// precision: they read back as those bits, bit for bit.
pub proof fn lemma_float_code_whole(kind: PlatTypes, text: Seq<char>, floats: Seq<FloatView>)
    requires
        kind == PlatTypes::F32 || kind == PlatTypes::F64,
        literal_code(kind, text, floats) is Ok,
    ensures
        ({
            let code = literal_code(kind, text, floats)->Ok_0;
            let worth = find_float(floats, text)->0;
            if kind == PlatTypes::F32 {
                code.len() == 5 && code[0] == 0x43 && worth.single == Some(
                    le_value(code.skip(1)) as u32,
                )
            } else {
                code.len() == 9 && code[0] == 0x44 && worth.double == Some(
                    le_value(code.skip(1)) as u64,
                )
            }
        }),
{
    let code = literal_code(kind, text, floats)->Ok_0;
    let worth = find_float(floats, text)->0;
    lemma_pow256();
    if kind == PlatTypes::F32 {
        let bits = worth.single->0;
        lemma_le_bytes_len(bits as int, 4);
        lemma_le_round_trip(bits as int, 4);
        assert(code.skip(1) =~= le_bytes(bits as int, 4));
    } else {
        let bits = worth.double->0;
        lemma_le_bytes_len(bits as int, 8);
        lemma_le_round_trip(bits as int, 8);
        assert(code.skip(1) =~= le_bytes(bits as int, 8));
    }
}

/// Looks `name` up in a symbol table: the first entry with that name.
fn lookup(table: &Vec<Variable>, name: &str) -> (r: Option<(u8, PlatTypes)>)
    ensures
        match find_var(vars_view(table@), name@) {
            Some(var) => r == Some((var.index, var.kind)),
            None => r is None,
        },
{
    let ghost all = vars_view(table@);
    let mut i: usize = 0;
    assert(all.skip(0) =~= all);
    while i < table.len()
        invariant
            i <= table.len(),
            all == vars_view(table@),
            find_var(all, name@) == find_var(all.skip(i as int), name@),
        decreases table.len() - i,
    {
        assert(all.skip(i as int).drop_first() =~= all.skip(i + 1));
        assert(all.skip(i as int)[0] == table@[i as int]@);
        if same_text(table[i].name.as_str(), name) {
            return Some((table[i].index, table[i].kind));
        }
        i += 1;
    }
    None
}

/// Looks `name` up in a function: among the declared variables first, then
/// among the arguments.
fn find(args: &Vec<Variable>, locals: &Vec<Variable>, name: &str) -> (r: Option<(u8, PlatTypes)>)
    ensures
        match resolve(vars_view(args@), vars_view(locals@), name@) {
            Some(var) => r == Some((var.index, var.kind)),
            None => r is None,
        },
{
    match lookup(locals, name) {
        Some(found) => Some(found),
        None => lookup(args, name),
    }
}

/// Looks the worth of a float literal up: the first entry for its text.
fn lookup_float(floats: &Vec<FloatValue>, text: &str) -> (r: Option<(Option<u32>, Option<u64>)>)
    ensures
        match find_float(floats_view(floats@), text@) {
            Some(f) => r == Some((f.single, f.double)),
            None => r is None,
        },
{
    let ghost all = floats_view(floats@);
    let mut i: usize = 0;
    assert(all.skip(0) =~= all);
    while i < floats.len()
        invariant
            i <= floats.len(),
            all == floats_view(floats@),
            find_float(all, text@) == find_float(all.skip(i as int), text@),
        decreases floats.len() - i,
    {
        assert(all.skip(i as int).drop_first() =~= all.skip(i + 1));
        assert(all.skip(i as int)[0] == floats@[i as int]@);
        if same_text(floats[i].text.as_str(), text) {
            return Some((floats[i].single, floats[i].double));
        }
        i += 1;
    }
    None
}

/// The instruction that pushes the literal `text` as a value of the type
/// `kind`.
pub fn compile_literal(kind: PlatTypes, text: &str, floats: &Vec<FloatValue>) -> (r: Result<
    Vec<u8>,
    PlatError,
>)
    ensures
        match literal_code(kind, text@, floats_view(floats@)) {
            Ok(code) => r matches Ok(v) && v@ == code,
            Err(e) => r matches Err(x) && x == e,
        },
{
    let mut code: Vec<u8> = Vec::new();
    match kind {
        PlatTypes::I32 => match parse_int(text, false) {
            Some(v) => {
                code.push(0x41);
                let payload = encode_int(v, false);
                extend(&mut code, &payload);
                assert(code@ =~= seq![0x41u8] + payload@);
                Ok(code)
            },
            None => Err(PlatError::TypeMismatch),
        },
        PlatTypes::I64 => match parse_int(text, true) {
            Some(v) => {
                code.push(0x42);
                let payload = encode_int(v, true);
                extend(&mut code, &payload);
                assert(code@ =~= seq![0x42u8] + payload@);
                Ok(code)
            },
            None => Err(PlatError::TypeMismatch),
        },
        PlatTypes::F32 => match lookup_float(floats, text) {
            Some((Some(bits), _)) => {
                code.push(0x43);
                let payload = encode_bits(bits as u64, false);
                extend(&mut code, &payload);
                assert(code@ =~= seq![0x43u8] + payload@);
                Ok(code)
            },
            _ => Err(PlatError::TypeMismatch),
        },
        PlatTypes::F64 => match lookup_float(floats, text) {
            Some((_, Some(bits))) => {
                code.push(0x44);
                let payload = encode_bits(bits, true);
                extend(&mut code, &payload);
                assert(code@ =~= seq![0x44u8] + payload@);
                Ok(code)
            },
            _ => Err(PlatError::TypeMismatch),
        },
        PlatTypes::Void => Err(PlatError::TypeMismatch),
    }
}

/// Generates the code of a variable declaration behind `code`, where
/// `locals` are the declared variables of the function, this declaration's
/// own among them. On an error `code` is left as it was.
pub fn compile_def(
    locals: &Vec<Variable>,
    floats: &Vec<FloatValue>,
    expr: &DefExpr,
    code: &mut Vec<u8>,
) -> (r: Result<(), PlatError>)
    ensures
        match def_code(vars_view(locals@), floats_view(floats@), def_view(*expr)) {
            Ok(c) => r is Ok && final(code)@ == old(code)@ + c,
            Err(e) => r matches Err(x) && x == e && final(code)@ == old(code)@,
        },
{
    let index = match lookup(locals, expr.name.as_str()) {
        Some((index, _)) => index,
        None => {
            return Err(PlatError::UnresolvedSymbol);
        },
    };
    if expr.kind == PlatTypes::Void {
        return Err(PlatError::TypeMismatch);
    }
    match &expr.value {
        Expr::Literal(text) => {
            let mut body = compile_literal(expr.kind, text.as_str(), floats)?;
            let ghost pushed = body@;
            body.push(0x21);
            body.push(index);
            assert(body@ =~= pushed + seq![0x21u8, index]);
            extend(code, &body);
            Ok(())
        },
        _ => Err(PlatError::Unimplemented),
    }
}

/// Generates the code of a return statement behind `code`, where `args`
/// are the arguments and `locals` the declared variables of the function.
/// On an error `code` is left as it was.
pub fn compile_ret(
    args: &Vec<Variable>,
    locals: &Vec<Variable>,
    ret_kind: PlatTypes,
    expr: &Option<Expr>,
    code: &mut Vec<u8>,
) -> (r: Result<(), PlatError>)
    ensures
        match ret_code(
            vars_view(args@),
            vars_view(locals@),
            ret_kind,
            opt_expr_view(*expr),
        ) {
            Ok(c) => r is Ok && final(code)@ == old(code)@ + c,
            Err(e) => r matches Err(x) && x == e && final(code)@ == old(code)@,
        },
{
    match expr {
        None => {
            if ret_kind == PlatTypes::Void {
                code.push(0x0F);
                assert(code@ =~= old(code)@ + seq![0x0Fu8]);
                Ok(())
            } else {
                Err(PlatError::TypeMismatch)
            }
        },
        Some(Expr::Literal(name)) => match find(args, locals, name.as_str()) {
            None => Err(PlatError::UnresolvedSymbol),
            Some((index, kind)) => {
                if kind != ret_kind {
                    Err(PlatError::TypeMismatch)
                } else {
                    code.push(0x20);
                    code.push(index);
                    code.push(0x0F);
                    assert(code@ =~= old(code)@ + seq![0x20u8, index, 0x0Fu8]);
                    Ok(())
                }
            },
        },
        Some(_) => Err(PlatError::Unimplemented),
    }
}

/// Generates what is written for a function: its type entry and its body
/// in the code section.
pub fn compile_function(expr: &FuncExpr, floats: &Vec<FloatValue>) -> (r: Result<
    (Vec<u8>, Vec<u8>),
    PlatError,
>)
    ensures
        match function_entry(func_view(*expr), floats_view(floats@)) {
            Ok(entry) => r matches Ok((t, b)) && t@ == entry.type_entry && b@ == entry.body,
            Err(e) => r matches Err(x) && x == e,
        },
{
    let argc = expr.args.len();
    if argc > 255 {
        return Err(PlatError::CapacityExceeded);
    }
    let ghost f = func_view(*expr);
    let ghost fl = floats_view(floats@);
    let mut entry: Vec<u8> = Vec::new();
    entry.push(0x60);
    entry.push(argc as u8);
    let mut args: Vec<Variable> = Vec::new();
    let mut i: usize = 0;
    assert(entry@ =~= seq![0x60u8, argc as u8] + arg_types(f.args).take(0));
    assert(vars_view(args@) =~= arg_table(f.args).take(0));
    while i < argc
        invariant
            i <= argc,
            argc == expr.args.len(),
            argc <= 255,
            f == func_view(*expr),
            entry@ == seq![0x60u8, argc as u8] + arg_types(f.args).take(i as int),
            vars_view(args@) == arg_table(f.args).take(i as int),
        decreases argc - i,
    {
        let arg = &expr.args[i];
        let ghost before = args@;
        entry.push(plat_type_to_byte(arg.kind));
        let var = Variable { name: arg.name.clone(), index: i as u8, kind: arg.kind };
        args.push(var);
        assert(entry@ =~= seq![0x60u8, argc as u8] + arg_types(f.args).take(i + 1));
        assert(vars_view(args@) =~= vars_view(before).push(var@));
        assert(vars_view(args@) =~= arg_table(f.args).take(i + 1));
        i += 1;
    }
    assert(arg_types(f.args).take(argc as int) =~= arg_types(f.args));
    assert(arg_table(f.args).take(argc as int) =~= arg_table(f.args));
    if expr.ret_kind == PlatTypes::Void {
        entry.push(0x00);
    } else {
        entry.push(0x01);
        entry.push(plat_type_to_byte(expr.ret_kind));
    }
    assert(entry@ =~= type_entry(f));
    let mut locals: Vec<Variable> = Vec::new();
    let mut code: Vec<u8> = Vec::new();
    let ghost start = start_scope(f);
    let mut j: usize = 0;
    assert(f.body.skip(0) =~= f.body);
    assert(code@ =~= Seq::<u8>::empty());
    assert(vars_view(locals@) =~= Seq::<VarView>::empty());
    while j < expr.body.len()
        invariant
            j <= expr.body.len(),
            f == func_view(*expr),
            fl == floats_view(floats@),
            argc == expr.args.len(),
            argc == args@.len(),
            argc <= 255,
            vars_view(args@) == arg_table(f.args),
            start == start_scope(f),
            body_steps(start, f.ret_kind, fl, f.body) == body_steps(
                ScopeView {
                    args: vars_view(args@),
                    locals: vars_view(locals@),
                    code: code@,
                },
                f.ret_kind,
                fl,
                f.body.skip(j as int),
            ),
        decreases expr.body.len() - j,
    {
        assert(f.body.skip(j as int).drop_first() =~= f.body.skip(j + 1));
        assert(f.body.skip(j as int)[0] == ast_view(expr.body@[j as int]));
        match &expr.body[j] {
            AST::Func(_) => {
                return Err(PlatError::GrammarError);
            },
            AST::Def(def) => {
                if locals.len() > 255 - argc {
                    return Err(PlatError::CapacityExceeded);
                }
                let ghost before = locals@;
                let var = Variable {
                    name: def.name.clone(),
                    index: (argc + locals.len()) as u8,
                    kind: def.kind,
                };
                locals.push(var);
                assert(vars_view(locals@) =~= vars_view(before).push(var@));
                compile_def(&locals, floats, def, &mut code)?;
            },
            AST::Ret(value) => {
                compile_ret(&args, &locals, expr.ret_kind, value, &mut code)?;
            },
        }
        j += 1;
    }
    let ghost declared = vars_view(locals@);
    proof {
        lemma_local_decls_len(declared);
    }
    let count = locals.len();
    if count > 126 || code.len() > 253 - 2 * count {
        return Err(PlatError::CapacityExceeded);
    }
    let size = 2 + 2 * count + code.len();
    let mut body: Vec<u8> = Vec::new();
    body.push(size as u8);
    body.push(count as u8);
    let mut k: usize = 0;
    assert(declared.take(0) =~= Seq::<VarView>::empty());
    assert(body@ =~= seq![size as u8, count as u8] + local_decls(declared.take(0)));
    while k < locals.len()
        invariant
            k <= locals.len(),
            count == locals.len(),
            declared == vars_view(locals@),
            body@ == seq![size as u8, count as u8] + local_decls(declared.take(k as int)),
        decreases locals.len() - k,
    {
        let ghost done = declared.take(k as int);
        let ghost more = declared.take(k + 1);
        assert(more.drop_last() =~= done);
        assert(more.last() == locals@[k as int]@);
        body.push(0x01);
        body.push(plat_type_to_byte(locals[k].kind));
        assert(body@ =~= seq![size as u8, count as u8] + local_decls(more));
        k += 1;
    }
    assert(declared.take(count as int) =~= declared);
    extend(&mut body, &code);
    body.push(0x0B);
    proof {
        let inner = seq![declared.len() as u8] + local_decls(declared) + code@ + seq![0x0Bu8];
        assert(inner.len() == size);
        assert(body@ =~= seq![inner.len() as u8] + inner);
    }
    Ok((entry, body))
}

} // verus!
