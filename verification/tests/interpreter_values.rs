use apexforge::ast::BinaryOperator;
use apexforge::interpreter::{call_function, evaluate_binary_op, needed_arg_count, values_equal, Value};

fn text(s: &str) -> Value {
    Value::String(s.to_string())
}

#[test]
fn binary_operators_on_integers_and_text() {
    assert!(matches!(evaluate_binary_op(Value::Integer(7), BinaryOperator::Divide, Value::Integer(-2)), Ok(Value::Integer(-3))));
    assert!(matches!(evaluate_binary_op(Value::Integer(7), BinaryOperator::Subtract, Value::Integer(9)), Ok(Value::Integer(-2))));
    assert!(matches!(evaluate_binary_op(Value::Integer(6), BinaryOperator::Multiply, Value::Integer(7)), Ok(Value::Integer(42))));
    match evaluate_binary_op(text("ab"), BinaryOperator::Add, text("cd")) {
        Ok(Value::String(s)) => assert_eq!(s, "abcd"),
        _ => panic!("expected a string"),
    }
    assert_eq!(evaluate_binary_op(Value::Integer(1), BinaryOperator::Divide, Value::Integer(0)).unwrap_err(), "Division by zero");
    assert_eq!(evaluate_binary_op(text("a"), BinaryOperator::Add, Value::Integer(1)).unwrap_err(), "Cannot add incompatible types");
    assert_eq!(evaluate_binary_op(text("a"), BinaryOperator::Less, text("b")).unwrap_err(), "Cannot compare non-integer types with <");
    assert_eq!(evaluate_binary_op(Value::Integer(1), BinaryOperator::And, Value::Boolean(true)).unwrap_err(), "Cannot apply AND to non-boolean types");
    assert_eq!(evaluate_binary_op(Value::Integer(1), BinaryOperator::Modulo, Value::Integer(2)).unwrap_err(), "Unsupported binary operator");
    assert!(matches!(evaluate_binary_op(Value::Boolean(true), BinaryOperator::Or, Value::Boolean(false)), Ok(Value::Boolean(true))));
    assert!(matches!(evaluate_binary_op(Value::Integer(3), BinaryOperator::GreaterEqual, Value::Integer(3)), Ok(Value::Boolean(true))));
    assert!(matches!(evaluate_binary_op(Value::Null, BinaryOperator::Equal, Value::Null), Ok(Value::Boolean(true))));
    assert!(matches!(evaluate_binary_op(text("1"), BinaryOperator::NotEqual, Value::Integer(1)), Ok(Value::Boolean(true))));
}

#[test]
fn values_print_and_compare() {
    assert_eq!(Value::Integer(-5).as_string(), "-5");
    assert_eq!(Value::Boolean(true).as_string(), "true");
    assert_eq!(Value::Null.as_string(), "null");
    assert_eq!(text("x").as_string(), "x");
    assert!(values_equal(&text("x"), &text("x")));
    assert!(!values_equal(&Value::Integer(1), &Value::Boolean(true)));
}

#[test]
fn builtin_calls_print_and_return() {
    assert_eq!(needed_arg_count("show", 2), 1);
    assert_eq!(needed_arg_count("flutter_create_textfield", 3), 0);
    assert_eq!(needed_arg_count("flutter_create_listbox", 5), 5);
    let (lines, _) = call_function("show", 1, &vec![Value::Integer(3)], false).unwrap();
    assert_eq!(lines, vec!["3".to_string()]);
    let args = vec![text("w"), text("Title"), Value::Integer(800), Value::Integer(600)];
    match call_function("flutter_create_window", 4, &args, false) {
        Ok((lines, Value::String(s))) => {
            assert!(lines.is_empty());
            assert_eq!(s, "FlutterWindow(id::string = \"w\", title::string = \"Title\", width::i32 = 800, height::i32 = 600)");
        },
        _ => panic!("expected a window"),
    }
    match call_function("flutter_show_dialog", 1, &vec![], false) {
        Ok((_, Value::String(s))) => assert_eq!(s, "FlutterDialog created"),
        _ => panic!("expected a dialog"),
    }
    let (lines, _) = call_function("flutter_handle_save", 0, &vec![], false).unwrap();
    assert_eq!(lines.len(), 2);
    assert_eq!(lines[1], "💾 Flutter Save Action: Completed");
    assert_eq!(call_function("foo", 0, &vec![], false).unwrap_err(), "Unknown function: foo");
    let (lines, _) = call_function("foo", 0, &vec![], true).unwrap();
    assert_eq!(lines, vec!["Executing function: foo".to_string()]);
}
