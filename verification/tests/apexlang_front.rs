use apexforge::apexlang::ast::{BinaryOp, Expr, ImportKind, Statement, UnaryOp, Value};
use apexforge::apexlang::lexer::{lex, TokenKind};
use apexforge::apexlang::parser::Parser;
use apexforge::apexlang::visualize::{program_to_dot, visualize_source};

#[test]
fn visualize_simple_program() {
    let source = "fn helper(x) { return x; } fn apex() { return helper(1 + 2); }";
    let dot = visualize_source(source).expect("visualization to succeed");
    assert!(dot.contains("Program"));
    assert!(dot.contains("fn apex"));
    assert!(dot.contains("Binary: +"));
    assert!(dot.contains("Call"));
}

#[test]
fn visualize_gives_exact_graph() {
    let dot = visualize_source("import math as m; fn f(a, b) { let x = \"hi\"; return -a; }").unwrap();
    let expected = [
        "digraph ApexLangAST {",
        "    node [shape=box, fontname=\"FiraCode\"];",
        "    n0 [label=\"Program\"];",
        "    n1 [label=\"Import #1\"];",
        "    n2 [label=\"module math as m\"];",
        "    n3 [label=\"fn f(a, b)\"];",
        "    n4 [label=\"let x\"];",
        "    n5 [label=\"Literal: \\\"hi\\\"\"];",
        "    n6 [label=\"return\"];",
        "    n7 [label=\"Unary: -\"];",
        "    n8 [label=\"Path: a\"];",
        "    n0 -> n1;",
        "    n1 -> n2;",
        "    n4 -> n5;",
        "    n3 -> n4;",
        "    n7 -> n8;",
        "    n6 -> n7;",
        "    n3 -> n6;",
        "    n0 -> n3;",
        "}",
        "",
    ]
    .join("\n");
    assert_eq!(dot, expected);
}

#[test]
fn visualize_reports_parse_errors() {
    let err = visualize_source("fn f( { }").unwrap_err();
    assert_eq!(err.message(), "Expected parameter name at line 1, column 7 near '{'");
}

#[test]
fn lexer_reads_tokens_with_positions() {
    let tokens = lex("let x = 42;\n// note\nx >= 1.50").unwrap();
    let kinds: Vec<String> = tokens.iter().map(|t| t.kind_name()).collect();
    assert_eq!(
        kinds,
        vec!["let", "identifier", "'='", "integer", "';'", "identifier", "'>='", "number", "end of file"]
    );
    assert_eq!(tokens[3].lexeme, "42");
    assert_eq!((tokens[5].line, tokens[5].column), (3, 1));
    match &tokens[7].kind {
        TokenKind::Number(text) => assert_eq!(text, "1.50"),
        other => panic!("unexpected {:?}", other),
    }
    match &tokens[3].kind {
        TokenKind::Integer(text) => assert_eq!(text, "42"),
        other => panic!("unexpected {:?}", other),
    }
}

#[test]
fn lexer_normalizes_integer_text() {
    let tokens = lex("007").unwrap();
    match &tokens[0].kind {
        TokenKind::Integer(text) => assert_eq!(text, "7"),
        other => panic!("unexpected {:?}", other),
    }
}

#[test]
fn lexer_reports_errors() {
    assert_eq!(lex("a # b").unwrap_err().message(), "Unexpected character '#' at line 1, column 3");
    assert_eq!(lex("\"open").unwrap_err().message(), "Unterminated string literal at line 1, column 1");
    assert_eq!(lex("a & b").unwrap_err().message(), "Unexpected character '&' at line 1, column 3");
    assert_eq!(lex("\"a\\q\"").unwrap_err().message(), "Unsupported escape '\\q' at line 1, column 3");
}

#[test]
fn lexer_reads_escapes() {
    let tokens = lex("\"a\\n\\\"b\"").unwrap();
    match &tokens[0].kind {
        TokenKind::StringLiteral(text) => assert_eq!(text, "a\n\"b"),
        other => panic!("unexpected {:?}", other),
    }
}

#[test]
fn parser_builds_precedence_tree() {
    let program = Parser::parse("fn main() { return 1 + 2 * 3 == 7 && !false; }").unwrap();
    assert_eq!(program.functions.len(), 1);
    let body = &program.functions[0].body;
    match &body[0] {
        Statement::Return(Expr::Binary(left, BinaryOp::And, right)) => {
            match &**left {
                Expr::Binary(sum, BinaryOp::Eq, _) => match &**sum {
                    Expr::Binary(one, BinaryOp::Add, product) => {
                        assert!(matches!(&**one, Expr::Literal(Value::Int(t)) if t == "1"));
                        assert!(matches!(&**product, Expr::Binary(_, BinaryOp::Mul, _)));
                    }
                    other => panic!("unexpected {:?}", other),
                },
                other => panic!("unexpected {:?}", other),
            }
            assert!(matches!(&**right, Expr::Unary(UnaryOp::Not, _)));
        }
        other => panic!("unexpected {:?}", other),
    }
}

#[test]
fn parser_reads_imports_statements_and_calls() {
    let program = Parser::parse(
        "import math; import nats.gcd as g; fn f(a) { var n = a; n = g(n, 2); math.sqrt(n); }",
    )
    .unwrap();
    assert_eq!(program.imports.len(), 2);
    assert!(matches!(&program.imports[0].kind, ImportKind::Module { name, alias: None } if name == "math"));
    assert!(matches!(
        &program.imports[1].kind,
        ImportKind::Symbol { module, symbol, alias: Some(a) } if module == "nats" && symbol == "gcd" && a == "g"
    ));
    let body = &program.functions[0].body;
    assert!(matches!(&body[0], Statement::Let { name, mutable: true, .. } if name == "n"));
    assert!(matches!(&body[1], Statement::Assignment { name, value: Expr::Call { arguments, .. } } if name == "n" && arguments.len() == 2));
    match &body[2] {
        Statement::Expr(Expr::Call { callee, arguments }) => {
            assert_eq!(arguments.len(), 1);
            assert!(matches!(&**callee, Expr::Path(p) if p.segments == vec!["math".to_string(), "sqrt".to_string()]));
        }
        other => panic!("unexpected {:?}", other),
    }
}

#[test]
fn parser_reports_errors_with_position() {
    let missing_semicolon = Parser::parse("fn f() { return 1 }").unwrap_err();
    assert_eq!(missing_semicolon.message(), "Expected ';' after return expression at line 1, column 19 near '}'");
    let at_end = Parser::parse("fn f() { return 1;").unwrap_err();
    assert_eq!(at_end.message(), "Expected '}' to end function body at line 1, column 19 near end of file");
    let not_fn = Parser::parse("let x = 1;").unwrap_err();
    assert_eq!(not_fn.message(), "Expected 'fn' at the start of a function at line 1, column 1 near 'let'");
    let empty_string = Parser::parse("fn f() { \"\" }").unwrap_err();
    assert_eq!(empty_string.message(), "Expected ';' after expression at line 1, column 13 near '}'");
    let bad_expr = Parser::parse("fn f() { return ; }").unwrap_err();
    assert_eq!(bad_expr.message(), "Expected expression at line 1, column 17 near ';'");
    let kind_name = Parser::parse("fn f() { x = \"\" \"\"; }").unwrap_err();
    assert_eq!(kind_name.message(), "Expected ';' after assignment at line 1, column 17 near string literal");
}

#[test]
fn parser_accepts_empty_program() {
    let program = Parser::parse("   // nothing\n").unwrap();
    assert!(program.imports.is_empty());
    assert!(program.functions.is_empty());
    let dot = program_to_dot(&program);
    assert_eq!(dot, "digraph ApexLangAST {\n    node [shape=box, fontname=\"FiraCode\"];\n    n0 [label=\"Program\"];\n}\n");
}

#[test]
fn values_show_and_count_as_true() {
    assert_eq!(Value::Number("1.50".to_string()).to_string(), "1.5");
    assert_eq!(Value::Number("2.0".to_string()).to_string(), "2");
    assert_eq!(Value::Number("007.25".to_string()).to_string(), "7.25");
    assert_eq!(Value::String("x".to_string()).to_string(), "\"x\"");
    let tuple = Value::Tuple(vec![Value::Int("3".to_string()), Value::Bool(false)]);
    assert_eq!(tuple.to_string(), "(3, false)");
    assert!(!Value::Int("0".to_string()).is_truthy());
    assert!(Value::Int("5".to_string()).is_truthy());
    assert!(!Value::Number("0.00".to_string()).is_truthy());
    assert!(!Value::String(String::new()).is_truthy());
    assert!(Value::Tuple(vec![Value::Bool(false)]).is_truthy());
}
