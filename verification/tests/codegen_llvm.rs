use apexforge::ast::{
    BinaryOperator, Expression, Function, FunctionOverload, Item, Literal, MatchArm, Pattern, Program, Span, Statement, Type,
};
use apexforge::codegen::{BytecodeGenerator, CodeGenerator, LLVMCodeGenerator, WASMCodeGenerator};

fn lit(i: i64) -> Expression {
    Expression::Literal(Literal::Integer(i))
}

fn ident(s: &str) -> Expression {
    Expression::Identifier(s.to_string())
}

fn bin(l: Expression, op: BinaryOperator, r: Expression) -> Expression {
    Expression::BinaryOp { left: Box::new(l), op, right: Box::new(r) }
}

#[test]
fn expressions_become_llvm_operands() {
    let mut g = LLVMCodeGenerator::new();
    assert_eq!(g.generate_expression(&lit(42), &[]), "i32 42");
    assert_eq!(g.generate_expression(&lit(-7), &[]), "i32 -7");
    assert_eq!(
        g.generate_expression(&Expression::Literal(Literal::String("hi".to_string())), &[]),
        "getelementptr inbounds ([3 x i8], [3 x i8]* @.str.2, i32 0, i32 0)"
    );
    assert_eq!(g.generate_expression(&Expression::Literal(Literal::Boolean(true)), &[]), "i1 1");
    assert_eq!(g.generate_expression(&Expression::Literal(Literal::Char('A')), &[]), "i8 65");
    assert_eq!(g.generate_expression(&Expression::Literal(Literal::Float("2.5".to_string())), &[]), "double 2.5");
    let params = vec![("a".to_string(), Type::String), ("n".to_string(), Type::I32)];
    assert_eq!(
        g.generate_expression(&bin(ident("a"), BinaryOperator::Add, ident("b")), &params),
        "call i8* @string_concat(i8* %a, i8* %b)"
    );
    assert_eq!(g.generate_expression(&bin(ident("n"), BinaryOperator::Add, lit(1)), &params), "add i32 %n, i32 1");
    assert_eq!(g.generate_expression(&bin(lit(1), BinaryOperator::Subtract, lit(2)), &[]), "sub i32 i32 1, i32 2");
    assert_eq!(g.generate_expression(&bin(lit(1), BinaryOperator::Less, lit(2)), &[]), "add i32 i32 1, i32 2");
    let call = Expression::FunctionCall { name: "show".to_string(), args: vec![lit(1), ident("x")] };
    assert_eq!(g.generate_expression(&call, &[]), "call void @show(i32 1, %x)");
    let call = Expression::FunctionCall { name: "add_two".to_string(), args: vec![] };
    assert_eq!(g.generate_expression(&call, &[]), "call i32 @add_two()");
    let call = Expression::FunctionCall { name: "print_string_x".to_string(), args: vec![lit(3)] };
    assert_eq!(g.generate_expression(&call, &[]), "call i8* @print_string_x(i32 3)");
    assert_eq!(g.generate_expression(&Expression::Block(vec![]), &[]), "  ; TODO: Implement expression");
}

#[test]
fn statements_and_functions_become_llvm_code() {
    let mut g = LLVMCodeGenerator::new();
    assert_eq!(g.generate_statement(&Statement::Return(None), &[]), "  ret void");
    assert_eq!(g.generate_statement(&Statement::Return(Some(lit(3))), &[]), "  ret i32 3");
    let decl = Statement::VariableDeclaration { name: "x".to_string(), type_annotation: None, value: lit(5) };
    assert_eq!(g.generate_statement(&decl, &[]), "  %x = i32 5");
    assert_eq!(g.generate_statement(&Statement::Break, &[]), "  ; TODO: Implement statement");
    let m = Statement::Match {
        value: ident("v"),
        arms: vec![
            MatchArm { pattern: Pattern::Literal(Literal::Integer(1)), guard: None, body: lit(10) },
            MatchArm { pattern: Pattern::Wildcard, guard: None, body: lit(20) },
        ],
    };
    assert_eq!(
        g.generate_statement(&m, &[]),
        "  %cmp0 = eq i32 %v, 1\n  br i1 %cmp0, label %match0, label %next0\n\nmatch0:\n  i32 10\n  ret void\n\nnext0:\n  ; Wildcard pattern - default case\n  i32 20\n  ret void\n"
    );
    let f = Function {
        name: "f".to_string(),
        parameters: vec![("a".to_string(), Type::I32), ("s".to_string(), Type::String)],
        return_type: Some(Type::I32),
        body: vec![Statement::Return(Some(ident("a")))],
        is_async: false,
        is_unsafe: false,
        is_public: false,
        span: Span::new(0, 0, 1, 1),
    };
    assert_eq!(g.generate_function(&f), "define i32 @f(\ni32 %a, i8* %s) {\n  ret %a\n}\n");
}

fn function(name: &str, parameters: Vec<(String, Type)>, return_type: Option<Type>, body: Vec<Statement>) -> Function {
    Function {
        name: name.to_string(),
        parameters,
        return_type,
        body,
        is_async: false,
        is_unsafe: false,
        is_public: false,
        span: Span::new(0, 0, 1, 1),
    }
}

#[test]
fn programs_become_llvm_modules() {
    let mut p = Program::new();
    let show = Expression::FunctionCall {
        name: "show".to_string(),
        args: vec![Expression::Literal(Literal::String("hi".to_string()))],
    };
    p.add_item(Item::Function(function("main", vec![], None, vec![Statement::Expression(show)])));
    let mut group = FunctionOverload::new("add".to_string(), Span::new(0, 0, 1, 1));
    group.add_overload(function(
        "add",
        vec![("a".to_string(), Type::I32)],
        Some(Type::I32),
        vec![Statement::Return(Some(ident("a")))],
    ));
    assert_eq!(group.get_overloads().len(), 1);
    p.add_item(Item::FunctionOverload(group));
    p.add_item(Item::Import("io".to_string()));
    let expected = "declare i32 @printf(i8*, ...)\ndeclare i8* @string_concat(i8*, i8*)\ndeclare void @show(i8*)\ndeclare void @println(i8*)\n\n@.str.2 = private unnamed_addr constant [3 x i8] c\"hi\u{0}0\"\ndefine void @main(\n) {\ncall void @show(getelementptr inbounds ([3 x i8], [3 x i8]* @.str.2, i32 0, i32 0))\n}\n\ndefine i32 @add_0(\ni32 %a) {\n  ret %a\n}\n\n";
    let mut g = LLVMCodeGenerator::new();
    assert_eq!(g.generate_ir(&p), expected);
    assert_eq!(g.generate(&p).unwrap(), expected);
    assert_eq!(WASMCodeGenerator.generate(&p).unwrap(), ";; WASM code generation - TODO");
    assert_eq!(BytecodeGenerator.generate(&p).unwrap(), ";; Bytecode generation - TODO");
    assert_eq!(Program::default().items.len(), 0);
}
