use plat::ast::{BinaryExpr, DefExpr, Expr, FuncExpr, PlatTypes, UnaryExpr, AST};
use plat::codegen::{
    compile_def, compile_function, compile_literal, compile_ret, plat_type_to_byte, FloatValue,
    Variable,
};
use plat::compiler::Compiler;
use plat::error::PlatError;
use plat::lexer::{PlatToken, PlatTokenKinds};
use plat::module::{extend, Program};

const HEADER: [u8; 8] = [0x00, 0x61, 0x73, 0x6D, 0x01, 0x00, 0x00, 0x00];
const EXPORT: [u8; 10] = [0x07, 0x08, 0x01, 0x04, 0x6D, 0x61, 0x69, 0x6E, 0x00, 0x00];

fn worth(text: &str) -> FloatValue {
    FloatValue {
        text: text.to_string(),
        single: text.parse::<f32>().ok().map(|v| v.to_bits()),
        double: text.parse::<f64>().ok().map(|v| v.to_bits()),
    }
}

fn compile(source: &str) -> Result<Vec<u8>, PlatError> {
    let mut compiler = Compiler::new(source.to_string());
    let ast = compiler.parse()?;
    let floats = Compiler::float_literals(&ast).iter().map(|t| worth(t)).collect();
    compiler.set_floats(floats);
    compiler.compile(ast)
}

fn module(type_section: &[u8], functions: u8, code: &[u8]) -> Vec<u8> {
    let mut image = HEADER.to_vec();
    image.extend([0x01, type_section.len() as u8 + 1, functions]);
    image.extend(type_section);
    image.extend([0x03, functions + 1, functions]);
    image.extend(0..functions);
    image.extend(EXPORT);
    image.extend([0x0A, code.len() as u8 + 1, functions]);
    image.extend(code);
    image
}

fn lit(text: &str) -> Expr {
    Expr::Literal(text.to_string())
}

fn token(kind: PlatTokenKinds, text: &str) -> PlatToken {
    PlatToken { kind, value: text.to_string() }
}

fn function(ret_kind: PlatTypes, body: Vec<AST>) -> AST {
    AST::Func(FuncExpr { name: "main".to_string(), args: vec![], ret_kind, body })
}

fn def(name: &str, kind: PlatTypes, value: Expr) -> AST {
    AST::Def(DefExpr { name: name.to_string(), kind, value })
}

fn compile_nodes(nodes: Vec<AST>) -> Result<Vec<u8>, PlatError> {
    Compiler::new(String::new()).compile(nodes)
}

#[test]
fn type_bytes() {
    assert_eq!(plat_type_to_byte(PlatTypes::Void), 0x00);
    assert_eq!(plat_type_to_byte(PlatTypes::I32), 0x7F);
    assert_eq!(plat_type_to_byte(PlatTypes::I64), 0x7E);
    assert_eq!(plat_type_to_byte(PlatTypes::F32), 0x7D);
    assert_eq!(plat_type_to_byte(PlatTypes::F64), 0x7C);
}

#[test]
fn empty_program_is_four_empty_sections() {
    let image = Program::new().unite().unwrap();
    let mut expected = HEADER.to_vec();
    expected.extend([0x01, 0x01, 0x00, 0x03, 0x01, 0x00, 0x07, 0x01, 0x00, 0x0A, 0x01, 0x00]);
    assert_eq!(image, expected);
}

#[test]
fn compiling_nothing_still_exports_main() {
    assert_eq!(compile("").unwrap(), module(&[], 0, &[]));
}

#[test]
fn function_returning_its_argument() {
    let image = compile("func main(a: i32) i32 { return a; }").unwrap();
    assert_eq!(&image[..8], &HEADER);
    assert_eq!(
        image,
        module(&[0x60, 0x01, 0x7F, 0x01, 0x7F], 1, &[0x05, 0x00, 0x20, 0x00, 0x0F, 0x0B])
    );
    let export_at = 8 + 3 + 5 + 3 + 1;
    assert_eq!(&image[export_at..export_at + 10], &EXPORT);
}

#[test]
fn local_variables_get_the_indices_behind_the_arguments() {
    let image =
        compile("func f(a: i32, b: i32) void { let c: i32 = 1; let d: i32 = 2; return; }")
            .unwrap();
    assert_eq!(
        image,
        module(
            &[0x60, 0x02, 0x7F, 0x7F, 0x00],
            1,
            &[
                0x0F, 0x02, 0x01, 0x7F, 0x01, 0x7F, 0x41, 0x01, 0x21, 0x02, 0x41, 0x02, 0x21,
                0x03, 0x0F, 0x0B
            ]
        )
    );
}

#[test]
fn return_of_another_type_is_a_type_mismatch() {
    assert_eq!(
        compile("func f() i32 { let x: f64 = 1.0; return x; }").err(),
        Some(PlatError::TypeMismatch)
    );
}

#[test]
fn return_without_a_value_needs_a_function_without_a_result() {
    assert_eq!(compile("func f() i32 { return; }").err(), Some(PlatError::TypeMismatch));
    assert!(compile("func f() void { return; }").is_ok());
}

#[test]
fn integer_256_is_written_as_one_zero_byte() {
    let image = compile("func main() void { let x: i32 = 256; }").unwrap();
    assert_eq!(
        image,
        module(&[0x60, 0x00, 0x00], 1, &[0x08, 0x01, 0x01, 0x7F, 0x41, 0x00, 0x21, 0x00, 0x0B])
    );
}

#[test]
fn integer_declarations() {
    let image = compile("func main() i64 { let x: i64 = 258; let y: i32 = 0; return x; }").unwrap();
    assert_eq!(
        image,
        module(
            &[0x60, 0x00, 0x01, 0x7E],
            1,
            &[
                0x12, 0x02, 0x01, 0x7E, 0x01, 0x7F, 0x42, 0x02, 0x01, 0x21, 0x00, 0x41, 0x00,
                0x21, 0x01, 0x20, 0x00, 0x0F, 0x0B
            ]
        )
    );
}

#[test]
fn float_declarations_write_every_byte_of_the_number() {
    let image =
        compile("func main() f64 { let x: f32 = 1.5; let y: f64 = 0.1; return y; }").unwrap();
    let mut code = vec![0x1B, 0x02, 0x01, 0x7D, 0x01, 0x7C, 0x43];
    code.extend(1.5f32.to_le_bytes());
    code.extend([0x21, 0x00, 0x44]);
    code.extend(0.1f64.to_le_bytes());
    code.extend([0x21, 0x01, 0x20, 0x01, 0x0F, 0x0B]);
    assert_eq!(image, module(&[0x60, 0x00, 0x01, 0x7C], 1, &code));
    assert_eq!(f32::from_le_bytes(image[39..43].try_into().unwrap()).to_bits(), 1.5f32.to_bits());
    assert_eq!(f64::from_le_bytes(image[46..54].try_into().unwrap()).to_bits(), 0.1f64.to_bits());
}

#[test]
fn float_may_end_with_its_point() {
    let image = compile("func main() void { let x: f32 = 1.; }").unwrap();
    assert_eq!(
        image,
        module(
            &[0x60, 0x00, 0x00],
            1,
            &[0x0B, 0x01, 0x01, 0x7D, 0x43, 0x00, 0x00, 0x80, 0x3F, 0x21, 0x00, 0x0B]
        )
    );
    assert_eq!(
        compile("func main() void { let x: i32 = 1.; }").err(),
        Some(PlatError::TypeMismatch)
    );
}

#[test]
fn float_literals_are_listed_in_their_order() {
    let mut compiler = Compiler::new(
        "func f() void { let a: f32 = 1.5; let b: i32 = 2; let c: f64 = 7; ] \
         func g() void { let d: f64 = 1.5; ]"
            .to_string(),
    );
    let ast = compiler.parse().unwrap();
    assert_eq!(Compiler::float_literals(&ast), vec!["1.5", "7", "1.5"]);
}

#[test]
fn float_without_a_worth_is_a_type_mismatch() {
    let mut compiler = Compiler::new("func f() void { let a: f32 = 1.5; }".to_string());
    let ast = compiler.parse().unwrap();
    assert_eq!(compiler.compile(ast).err(), Some(PlatError::TypeMismatch));
    let nodes = vec![function(PlatTypes::Void, vec![def("a", PlatTypes::F64, lit("abc"))])];
    let mut compiler = Compiler::new(String::new());
    compiler.set_floats(vec![worth("abc")]);
    assert_eq!(compiler.compile(nodes).err(), Some(PlatError::TypeMismatch));
}

#[test]
fn literal_of_the_wrong_type_is_a_type_mismatch() {
    assert_eq!(
        compile("func f() void { let a: i32 = 1.5; }").err(),
        Some(PlatError::TypeMismatch)
    );
    assert_eq!(
        compile("func f() void { let a: i32 = 2147483648; }").err(),
        Some(PlatError::TypeMismatch)
    );
    assert_eq!(
        compile("func f(b: i32) void { let a: i32 = b; }").err(),
        Some(PlatError::TypeMismatch)
    );
    assert_eq!(
        compile("func f() void { let a: void = 1; }").err(),
        Some(PlatError::TypeMismatch)
    );
}

#[test]
fn unknown_name_is_an_unresolved_symbol() {
    assert_eq!(
        compile("func f() i32 { return x; }").err(),
        Some(PlatError::UnresolvedSymbol)
    );
    assert_eq!(
        compile("func f() i32 { return 5; }").err(),
        Some(PlatError::UnresolvedSymbol)
    );
    let table: Vec<Variable> = vec![];
    let mut code = vec![0xAA];
    let d = DefExpr { name: "x".to_string(), kind: PlatTypes::I32, value: lit("1") };
    assert_eq!(compile_def(&table, &vec![], &d, &mut code), Err(PlatError::UnresolvedSymbol));
    assert_eq!(code, vec![0xAA]);
}

#[test]
fn other_expression_forms_are_unimplemented() {
    let minus = || Expr::Unary(Box::new(UnaryExpr {
        operator: token(PlatTokenKinds::Minus, "-"),
        expr: lit("1"),
    }));
    let sum = Expr::Binary(Box::new(BinaryExpr {
        left: lit("1"),
        operator: token(PlatTokenKinds::Plus, "+"),
        right: lit("2"),
    }));
    let group = Expr::Group(Box::new(lit("1")));
    assert_eq!(
        compile_nodes(vec![function(PlatTypes::Void, vec![def("x", PlatTypes::I32, minus())])])
            .err(),
        Some(PlatError::Unimplemented)
    );
    assert_eq!(
        compile_nodes(vec![function(PlatTypes::Void, vec![def("x", PlatTypes::I32, sum)])]).err(),
        Some(PlatError::Unimplemented)
    );
    assert_eq!(
        compile_nodes(vec![function(PlatTypes::Void, vec![AST::Ret(Some(group))])]).err(),
        Some(PlatError::Unimplemented)
    );
    assert_eq!(
        compile("func f() void { let x: i32 = -1; }").err(),
        Some(PlatError::Unimplemented)
    );
    assert_eq!(compile("func f() i32 { return -x; }").err(), Some(PlatError::Unimplemented));
}

#[test]
fn statement_outside_a_function_is_a_grammar_error() {
    assert_eq!(compile("let x: i32 = 1;").err(), Some(PlatError::GrammarError));
    assert_eq!(compile("return x;").err(), Some(PlatError::GrammarError));
    let mut compiler = Compiler::new(String::new());
    assert_eq!(compiler.compile_node(&AST::Ret(None)), Err(PlatError::GrammarError));
    assert_eq!(compiler.program.sec_code.len(), 0);
}

#[test]
fn function_inside_a_function_is_rejected_by_the_generator() {
    let inner = function(PlatTypes::Void, vec![]);
    assert_eq!(
        compile_nodes(vec![function(PlatTypes::Void, vec![inner])]).err(),
        Some(PlatError::GrammarError)
    );
}

#[test]
fn lexical_and_grammar_errors_come_from_parsing() {
    assert_eq!(compile("func f() void { let x: i32 = 1a; }").err(), Some(PlatError::LexError));
    assert_eq!(compile("func f(a: i32 b: i32) void { }").err(), Some(PlatError::GrammarError));
}

#[test]
fn later_declaration_of_a_name_stores_into_the_first() {
    let image = compile("func f(a: i32) void { let a: i32 = 7; let a: i32 = 8; }").unwrap();
    assert_eq!(
        image,
        module(
            &[0x60, 0x01, 0x7F, 0x00],
            1,
            &[
                0x0E, 0x02, 0x01, 0x7F, 0x01, 0x7F, 0x41, 0x07, 0x21, 0x01, 0x41, 0x08, 0x21,
                0x01, 0x0B
            ]
        )
    );
}

#[test]
fn declaration_with_the_name_of_an_argument_stores_into_its_own_variable() {
    let image = compile("func f(a: i32) void { let a: i32 = 7; }").unwrap();
    assert_eq!(
        image,
        module(
            &[0x60, 0x01, 0x7F, 0x00],
            1,
            &[0x08, 0x01, 0x01, 0x7F, 0x41, 0x07, 0x21, 0x01, 0x0B]
        )
    );
}

#[test]
fn return_finds_a_declared_variable_before_an_argument() {
    let image = compile("func f(a: i64) i32 { let a: i32 = 7; return a; }").unwrap();
    assert_eq!(
        image,
        module(
            &[0x60, 0x01, 0x7E, 0x01, 0x7F],
            1,
            &[0x0B, 0x01, 0x01, 0x7F, 0x41, 0x07, 0x21, 0x01, 0x20, 0x01, 0x0F, 0x0B]
        )
    );
    assert_eq!(
        compile("func f(a: i32) i32 { let a: i64 = 7; return a; }").err(),
        Some(PlatError::TypeMismatch)
    );
    let image = compile("func f(a: i32, b: i32) i32 { let c: i32 = 7; return b; }").unwrap();
    assert_eq!(
        image,
        module(
            &[0x60, 0x02, 0x7F, 0x7F, 0x01, 0x7F],
            1,
            &[0x0B, 0x01, 0x01, 0x7F, 0x41, 0x07, 0x21, 0x02, 0x20, 0x01, 0x0F, 0x0B]
        )
    );
}

#[test]
fn each_declaration_stores_into_the_index_behind_the_one_before() {
    let f = FuncExpr {
        name: "f".to_string(),
        args: (0..3)
            .map(|i| plat::ast::FuncExprArg { name: format!("a{}", i), kind: PlatTypes::I64 })
            .collect(),
        ret_kind: PlatTypes::Void,
        body: (0..5).map(|i| def(&format!("v{}", i), PlatTypes::I32, lit("9"))).collect(),
    };
    let (_, body) = compile_function(&f, &vec![]).unwrap();
    assert_eq!(body[1], 5);
    assert_eq!(&body[2..12], &[0x01, 0x7F, 0x01, 0x7F, 0x01, 0x7F, 0x01, 0x7F, 0x01, 0x7F]);
    for n in 0..5 {
        assert_eq!(&body[12 + 4 * n..16 + 4 * n], &[0x41, 0x09, 0x21, 3 + n as u8]);
    }
}

#[test]
fn two_functions_have_two_entries_in_every_section() {
    let image = compile("func main() void { ] func g(a: f32) f32 { return a; ]").unwrap();
    assert_eq!(
        image,
        module(
            &[0x60, 0x00, 0x00, 0x60, 0x01, 0x7D, 0x01, 0x7D],
            2,
            &[0x02, 0x00, 0x0B, 0x05, 0x00, 0x20, 0x00, 0x0F, 0x0B]
        )
    );
}

#[test]
fn count_bytes_read_back_as_the_numbers_of_entries() {
    let image = compile(
        "func main() void { ] func g(a: i64) i64 { let b: i64 = 9; return a; ] func h() void { ]",
    )
    .unwrap();
    assert_eq!(&image[..8], &HEADER);
    let mut pos = 8;
    let mut sections = Vec::new();
    while pos < image.len() {
        let len = image[pos + 1] as usize;
        sections.push((image[pos], image[pos + 2], image[pos + 3..pos + 2 + len].to_vec()));
        pos += 2 + len;
    }
    assert_eq!(pos, image.len());
    assert_eq!(sections.iter().map(|s| s.0).collect::<Vec<u8>>(), vec![0x01, 0x03, 0x07, 0x0A]);
    let types = &sections[0].2;
    let mut entries = 0;
    let mut at = 0;
    while at < types.len() {
        assert_eq!(types[at], 0x60);
        at += 2 + types[at + 1] as usize;
        at += if types[at] == 0 { 1 } else { 2 };
        entries += 1;
    }
    let code = &sections[3].2;
    let mut bodies = 0;
    let mut at = 0;
    while at < code.len() {
        at += 1 + code[at] as usize;
        bodies += 1;
    }
    assert_eq!(at, code.len());
    assert_eq!(entries, 3);
    assert_eq!(sections[0].1, 3);
    assert_eq!(sections[1].1, 3);
    assert_eq!(sections[1].2, vec![0, 1, 2]);
    assert_eq!(sections[3].1, 3);
    assert_eq!(bodies, 3);
    assert_eq!(sections[2].1, 1);
    assert_eq!(sections[2].2, vec![0x04, 0x6D, 0x61, 0x69, 0x6E, 0x00, 0x00]);
}

#[test]
fn too_long_a_function_body_exceeds_the_capacity() {
    let with_locals = |n: usize| FuncExpr {
        name: "f".to_string(),
        args: vec![],
        ret_kind: PlatTypes::Void,
        body: (0..n).map(|i| def(&format!("v{}", i), PlatTypes::I32, lit("1"))).collect(),
    };
    let (_, body) = compile_function(&with_locals(42), &vec![]).unwrap();
    assert_eq!(body.len(), 255);
    assert_eq!(body[0], 254);
    assert_eq!(body[1], 42);
    assert_eq!(
        compile_function(&with_locals(43), &vec![]).err(),
        Some(PlatError::CapacityExceeded)
    );
    assert_eq!(
        compile_nodes(vec![AST::Func(with_locals(42))]).err(),
        Some(PlatError::CapacityExceeded)
    );
    assert!(compile_nodes(vec![AST::Func(with_locals(41))]).is_ok());
}

#[test]
fn too_long_a_section_exceeds_the_capacity() {
    let mut ok = Vec::new();
    for _ in 0..84 {
        ok.push(function(PlatTypes::Void, vec![]));
    }
    let image = compile_nodes(ok).unwrap();
    assert_eq!(image[8 + 1], 253);
    let mut nodes = Vec::new();
    for _ in 0..85 {
        nodes.push(function(PlatTypes::Void, vec![]));
    }
    let mut compiler = Compiler::new(String::new());
    assert_eq!(compiler.compile(nodes).err(), Some(PlatError::CapacityExceeded));
    assert_eq!(compiler.program.n_funcs, 0);
    assert_eq!(compiler.program.sec_type.len(), 0);
    assert_eq!(compiler.program.sec_code.len(), 0);
    let mut program = Program::new();
    program.sec_code = vec![0; 255];
    assert_eq!(program.unite().err(), Some(PlatError::CapacityExceeded));
    program.sec_code = vec![0; 254];
    assert!(program.unite().is_ok());
}

#[test]
fn too_many_arguments_exceed_the_capacity() {
    let args = (0..256)
        .map(|i| plat::ast::FuncExprArg { name: format!("a{}", i), kind: PlatTypes::I32 })
        .collect();
    let f = FuncExpr { name: "f".to_string(), args, ret_kind: PlatTypes::Void, body: vec![] };
    assert_eq!(compile_function(&f, &vec![]).err(), Some(PlatError::CapacityExceeded));
}

#[test]
fn failed_compilation_leaves_the_program_as_it_was() {
    let mut compiler = Compiler::new(String::new());
    compiler.compile_node(&function(PlatTypes::Void, vec![])).unwrap();
    let nodes = vec![
        function(PlatTypes::Void, vec![]),
        function(PlatTypes::I32, vec![AST::Ret(Some(lit("nowhere")))]),
    ];
    assert_eq!(compiler.compile(nodes).err(), Some(PlatError::UnresolvedSymbol));
    assert_eq!(compiler.program.n_types, 1);
    assert_eq!(compiler.program.n_funcs, 1);
    assert_eq!(compiler.program.sec_type, vec![0x60, 0x00, 0x00]);
    assert_eq!(compiler.program.sec_func, vec![0x00]);
    assert_eq!(compiler.program.sec_code, vec![0x02, 0x00, 0x0B]);
    assert_eq!(compiler.program.n_expos, 0);
}

#[test]
fn compile_function_gives_the_type_entry_and_the_body() {
    let f = FuncExpr {
        name: "f".to_string(),
        args: vec![plat::ast::FuncExprArg { name: "a".to_string(), kind: PlatTypes::F64 }],
        ret_kind: PlatTypes::F64,
        body: vec![AST::Ret(Some(lit("a")))],
    };
    let (entry, body) = compile_function(&f, &vec![]).unwrap();
    assert_eq!(entry, vec![0x60, 0x01, 0x7C, 0x01, 0x7C]);
    assert_eq!(body, vec![0x05, 0x00, 0x20, 0x00, 0x0F, 0x0B]);
}

#[test]
fn compile_literal_and_statements() {
    assert_eq!(compile_literal(PlatTypes::I32, "513", &vec![]), Ok(vec![0x41, 0x01, 0x02]));
    assert_eq!(compile_literal(PlatTypes::I64, "-1", &vec![]), Ok(vec![
        0x42, 0xFF, 0xFF, 0xFF, 0xFF, 0xFF, 0xFF, 0xFF, 0xFF
    ]));
    assert_eq!(
        compile_literal(PlatTypes::F32, "2", &vec![worth("1"), worth("2")]),
        Ok(vec![0x43, 0x00, 0x00, 0x00, 0x40])
    );
    assert_eq!(compile_literal(PlatTypes::Void, "1", &vec![]), Err(PlatError::TypeMismatch));
    let table = vec![
        Variable { name: "a".to_string(), index: 0, kind: PlatTypes::I32 },
        Variable { name: "b".to_string(), index: 1, kind: PlatTypes::I64 },
    ];
    let mut code = vec![];
    let none: Vec<Variable> = vec![];
    assert_eq!(compile_ret(&table, &none, PlatTypes::I64, &Some(lit("b")), &mut code), Ok(()));
    assert_eq!(code, vec![0x20, 0x01, 0x0F]);
    assert_eq!(
        compile_ret(&table, &none, PlatTypes::I64, &Some(lit("a")), &mut code),
        Err(PlatError::TypeMismatch)
    );
    assert_eq!(
        compile_ret(&none, &none, PlatTypes::I64, &Some(lit("a")), &mut code),
        Err(PlatError::UnresolvedSymbol)
    );
    assert_eq!(code, vec![0x20, 0x01, 0x0F]);
    let shadow = vec![Variable { name: "a".to_string(), index: 2, kind: PlatTypes::I64 }];
    assert_eq!(compile_ret(&table, &shadow, PlatTypes::I64, &Some(lit("a")), &mut code), Ok(()));
    assert_eq!(code, vec![0x20, 0x01, 0x0F, 0x20, 0x02, 0x0F]);
    code.truncate(3);
    let d = DefExpr { name: "b".to_string(), kind: PlatTypes::I64, value: lit("3") };
    assert_eq!(compile_def(&table, &vec![], &d, &mut code), Ok(()));
    assert_eq!(code, vec![0x20, 0x01, 0x0F, 0x42, 0x03, 0x21, 0x01]);
}

#[test]
fn extend_appends() {
    let mut out = vec![1, 2];
    extend(&mut out, &vec![3, 4, 5]);
    assert_eq!(out, vec![1, 2, 3, 4, 5]);
}
