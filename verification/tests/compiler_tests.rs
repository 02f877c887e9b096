use x_lang::compiler::Compiler;
use x_lang::ir::{BinOp, Instr, IrModule, Value};
use x_lang::shared::{CompileError, Kind, KindName, Node};

// ---- AST builders ------------------------------------------------------

fn num(v: f64) -> Node {
    Node::NumberLiteral { value: v.to_bits() }
}

fn ident(name: &str, kind: Kind) -> Node {
    Node::Identifier {
        name: name.to_string(),
        kind,
    }
}

fn num_ident(name: &str) -> Node {
    ident(name, Kind::Exact(KindName::Number))
}

fn var_decl(name: &str, kind: Kind, init: Node) -> Node {
    Node::VariableDeclaration {
        id: Box::new(ident(name, kind)),
        init: Box::new(init),
    }
}

fn bin(left: Node, op: &str, right: Node) -> Node {
    Node::BinaryExpression {
        left: Box::new(left),
        right: Box::new(right),
        operator: op.to_string(),
    }
}

fn assign(name: &str, value: Node) -> Node {
    Node::ExpressionStatement {
        expression: Box::new(Node::AssignmentExpression {
            left: Box::new(ident(name, Kind::NoValue)),
            right: Box::new(value),
            operator: "=".to_string(),
        }),
    }
}

fn call(name: &str, arguments: Vec<Node>) -> Node {
    Node::CallExpression {
        callee: Box::new(ident(name, Kind::NoValue)),
        arguments,
    }
}

fn fn_decl(name: &str, arguments: Vec<Node>, body: Vec<Node>, return_kind: Kind) -> Node {
    Node::FunctionDeclaration {
        id: Box::new(ident(name, Kind::NoValue)),
        arguments,
        body: Box::new(Node::BlockStatement { body }),
        return_kind,
    }
}

fn ret(argument: Node) -> Node {
    Node::ReturnStatement {
        argument: Box::new(argument),
    }
}

fn program(body: Vec<Node>) -> Node {
    Node::Program { body }
}

// ---- A tiny evaluator for the emitted IR -------------------------------

fn eval(v: &Value, regs: &[Option<f64>], params: &[f64]) -> f64 {
    match v {
        Value::Const { bits } => f64::from_bits(*bits),
        Value::Reg { index } => regs[*index].expect("register holds no value"),
        Value::Param { index } => params[*index],
    }
}

fn exec_fn(m: &IrModule, f: usize, params: &[f64], slots: &mut Vec<f64>) -> Option<f64> {
    let func = &m.functions[f];
    let mut regs: Vec<Option<f64>> = vec![None; func.body.len()];
    for i in 0..func.body.len() {
        match &func.body[i] {
            Instr::Alloca { .. } => {}
            Instr::Store { slot, value } => {
                slots[*slot] = eval(value, &regs, params);
            }
            Instr::Load { slot } => {
                regs[i] = Some(slots[*slot]);
            }
            Instr::Bin { op, left, right } => {
                let l = eval(left, &regs, params);
                let r = eval(right, &regs, params);
                regs[i] = Some(match op {
                    BinOp::Add => l + r,
                    BinOp::Sub => l - r,
                    BinOp::Mul => l * r,
                    BinOp::Div => l / r,
                });
            }
            Instr::Call { func: g, args } => {
                let av: Vec<f64> = args.iter().map(|a| eval(a, &regs, params)).collect();
                regs[i] = exec_fn(m, *g, &av, slots);
            }
            Instr::Ret { value } => {
                return value.as_ref().map(|v| eval(v, &regs, params));
            }
        }
    }
    None
}

/// Compiles and runs the program, returning the final contents of the
/// storage slot allocated for `name` (not a parameter slot).
fn run_and_read(ast: &Node, name: &str) -> f64 {
    let m = Compiler::compile(ast).expect("program should compile");
    let mut slots = vec![0.0f64; m.slots.len()];
    exec_fn(&m, 0, &[], &mut slots);
    for f in &m.functions {
        for ins in &f.body {
            if let Instr::Alloca {
                slot,
                name: n,
                arg: false,
            } = ins
            {
                if n == name {
                    return slots[*slot];
                }
            }
        }
    }
    panic!("no storage was allocated for {}", name);
}

// ---- Scenarios ---------------------------------------------------------

#[test]
fn scope_depth_returns_after_compiling_a_function() {
    let mut c = Compiler::new();
    let ast = program(vec![fn_decl(
        "f",
        vec![num_ident("a")],
        vec![ret(num_ident("a"))],
        Kind::Exact(KindName::Number),
    )]);
    assert_eq!(c.scope.depth(), 0);
    assert!(c.compile_program(&ast).is_ok());
    assert_eq!(c.scope.depth(), 0);
}

#[test]
fn scope_depth_returns_even_when_compilation_fails() {
    let mut c = Compiler::new();
    // the body declares `x` twice, so compilation aborts mid-function
    let ast = program(vec![
        var_decl("x", Kind::Exact(KindName::Number), num(1.0)),
        var_decl("x", Kind::Exact(KindName::Number), num(1.0)),
    ]);
    assert!(matches!(c.compile_program(&ast), Err(CompileError::DuplicateSymbol)));
    assert_eq!(c.scope.depth(), 0);
}

#[test]
fn duplicate_declaration_in_same_frame_fails() {
    let ast = program(vec![
        var_decl("x", Kind::Exact(KindName::Number), num(1.0)),
        var_decl("x", Kind::Exact(KindName::Number), num(1.0)),
    ]);
    assert!(matches!(Compiler::compile(&ast), Err(CompileError::DuplicateSymbol)));
}

#[test]
fn redeclaration_in_nested_block_is_allowed() {
    let ast = program(vec![
        var_decl("x", Kind::Exact(KindName::Number), num(1.0)),
        Node::BlockStatement {
            body: vec![var_decl("x", Kind::Exact(KindName::Number), num(2.0))],
        },
    ]);
    assert!(Compiler::compile(&ast).is_ok());
}

#[test]
fn inference_is_deterministic_and_mutates_nothing() {
    let c = Compiler::new();
    let e = bin(num(1.0), "+", bin(num(2.0), "*", num(3.0)));
    let first = c.infer_expression_kind(&e);
    let second = c.infer_expression_kind(&e);
    assert_eq!(first, second);
    assert_eq!(first, Ok(Kind::Exact(KindName::Number)));
}

#[test]
fn inference_resolves_call_to_declared_return_kind() {
    let mut c = Compiler::new();
    let ast = program(vec![
        fn_decl(
            "f",
            vec![],
            vec![ret(num(1.0))],
            Kind::Exact(KindName::Number),
        ),
        var_decl("x", Kind::Infer, call("f", vec![])),
    ]);
    assert!(c.compile_program(&ast).is_ok());
}

#[test]
fn arithmetic_evaluates_to_seven() {
    let ast = program(vec![var_decl(
        "x",
        Kind::Exact(KindName::Number),
        bin(num(1.0), "+", bin(num(2.0), "*", num(3.0))),
    )]);
    assert_eq!(run_and_read(&ast, "x"), 7.0);
}

#[test]
fn assigning_a_void_call_fails() {
    let ast = program(vec![
        fn_decl("f", vec![], vec![], Kind::Exact(KindName::Void)),
        var_decl("x", Kind::Exact(KindName::Number), call("f", vec![])),
    ]);
    assert!(matches!(Compiler::compile(&ast), Err(CompileError::VoidValue)));
}

#[test]
fn calling_an_undeclared_function_fails() {
    let ast = program(vec![var_decl(
        "x",
        Kind::Exact(KindName::Number),
        call("missing", vec![]),
    )]);
    assert!(matches!(Compiler::compile(&ast), Err(CompileError::UnknownSymbol)));
}

#[test]
fn assignment_round_trip_yields_six() {
    let ast = program(vec![
        var_decl("x", Kind::Exact(KindName::Number), num(0.0)),
        assign("x", num(5.0)),
        assign("x", bin(num_ident("x"), "+", num(1.0))),
    ]);
    assert_eq!(run_and_read(&ast, "x"), 6.0);
}

#[test]
fn invalid_type_annotation_is_rejected() {
    // `var x: str = 1;` — the annotation never parses into a kind
    assert_eq!(Kind::create("str"), Err(CompileError::InvalidTypeAnnotation));
}

#[test]
fn unsupported_operator_is_an_internal_error() {
    let ast = program(vec![var_decl(
        "x",
        Kind::Exact(KindName::Number),
        bin(num(1.0), "%", num(2.0)),
    )]);
    assert!(matches!(Compiler::compile(&ast), Err(CompileError::UnsupportedOperator)));
}

#[test]
fn assignment_to_a_non_identifier_is_malformed() {
    let ast = program(vec![Node::ExpressionStatement {
        expression: Box::new(Node::AssignmentExpression {
            left: Box::new(num(1.0)),
            right: Box::new(num(2.0)),
            operator: "=".to_string(),
        }),
    }]);
    assert!(matches!(Compiler::compile(&ast), Err(CompileError::MalformedNode)));
}

#[test]
fn assignment_to_a_function_name_fails() {
    let ast = program(vec![
        fn_decl("f", vec![], vec![], Kind::Exact(KindName::Void)),
        assign("f", num(5.0)),
    ]);
    assert!(matches!(Compiler::compile(&ast), Err(CompileError::VoidValue)));
}

#[test]
fn duplicate_parameter_names_fail() {
    let ast = program(vec![fn_decl(
        "f",
        vec![num_ident("a"), num_ident("a")],
        vec![],
        Kind::Exact(KindName::Void),
    )]);
    assert!(matches!(Compiler::compile(&ast), Err(CompileError::DuplicateSymbol)));
}

#[test]
fn void_parameter_is_a_configuration_error() {
    let ast = program(vec![fn_decl(
        "f",
        vec![ident("a", Kind::Exact(KindName::Void))],
        vec![],
        Kind::Exact(KindName::Void),
    )]);
    assert!(matches!(Compiler::compile(&ast), Err(CompileError::InvalidTypeAnnotation)));
}

#[test]
fn non_program_root_is_malformed() {
    assert!(matches!(Compiler::compile(&num(1.0)), Err(CompileError::MalformedNode)));
}

#[test]
fn call_with_arguments_executes_through_return() {
    let ast = program(vec![
        fn_decl(
            "add_one",
            vec![num_ident("a")],
            vec![ret(bin(num_ident("a"), "+", num(1.0)))],
            Kind::Exact(KindName::Number),
        ),
        var_decl("y", Kind::Exact(KindName::Number), call("add_one", vec![num(5.0)])),
    ]);
    assert_eq!(run_and_read(&ast, "y"), 6.0);
}

#[test]
fn loading_a_declared_variable_reads_its_value() {
    let ast = program(vec![
        var_decl("x", Kind::Exact(KindName::Number), num(5.0)),
        var_decl("y", Kind::Exact(KindName::Number), num_ident("x")),
    ]);
    assert_eq!(run_and_read(&ast, "y"), 5.0);
}

#[test]
fn division_and_subtraction_evaluate() {
    let ast = program(vec![var_decl(
        "x",
        Kind::Exact(KindName::Number),
        bin(bin(num(9.0), "/", num(2.0)), "-", num(0.5)),
    )]);
    assert_eq!(run_and_read(&ast, "x"), 4.0);
}

#[test]
fn entry_function_shape() {
    let ast = program(vec![]);
    let m = Compiler::compile(&ast).expect("empty program compiles");
    assert_eq!(m.functions.len(), 1);
    assert_eq!(m.functions[0].name, "entry");
    assert!(m.functions[0].param_kinds.is_empty());
    assert_eq!(m.functions[0].return_kind, KindName::Void);
}

#[test]
fn inferred_declaration_takes_the_initializer_kind() {
    let ast = program(vec![var_decl("x", Kind::Infer, num(3.5))]);
    assert_eq!(run_and_read(&ast, "x"), 3.5);
}

#[test]
fn declaration_that_cannot_be_inferred_fails() {
    // `true` gives the walk no opinion, so the kind never becomes exact
    let ast = program(vec![var_decl(
        "x",
        Kind::Infer,
        Node::BooleanLiteral { value: true },
    )]);
    assert!(Compiler::compile(&ast).is_err());
}

#[test]
fn void_variable_gets_no_storage() {
    let ast = program(vec![var_decl("x", Kind::Exact(KindName::Void), num(1.0))]);
    let m = Compiler::compile(&ast).expect("a void declaration compiles");
    for f in &m.functions {
        for ins in &f.body {
            if let Instr::Alloca { name, .. } = ins {
                assert_ne!(name, "x");
            }
        }
    }
}

#[test]
fn boolean_literal_has_no_lowering() {
    // codegen for boolean values is not part of this core
    let ast = program(vec![var_decl(
        "b",
        Kind::Exact(KindName::Boolean),
        Node::BooleanLiteral { value: true },
    )]);
    assert!(matches!(
        Compiler::compile(&ast),
        Err(CompileError::MalformedNode)
    ));
}
