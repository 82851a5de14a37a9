use apexforge::apexlang::scopes::{CallTarget, Scopes};

#[test]
fn declared_names_are_found_innermost_first() {
    let mut s: Scopes<i64> = Scopes::new();
    assert_eq!(
        s.declare("x", false, 1).unwrap_err().message(),
        "Internal error: missing execution frame"
    );
    s.push_frame();
    s.declare("x", false, 1).unwrap();
    s.declare("y", true, 2).unwrap();
    assert_eq!(
        s.declare("x", true, 3).unwrap_err().message(),
        "Variable 'x' is already defined in this scope"
    );
    assert_eq!(s.lookup("x"), Some(&1));
    s.push_frame();
    s.declare("x", true, 10).unwrap();
    assert_eq!(s.lookup("x"), Some(&10));
    assert_eq!(s.lookup("y"), Some(&2));
    assert_eq!(s.position("y"), Some((0, 1)));
    s.pop_frame();
    assert_eq!(s.lookup("x"), Some(&1));
    assert_eq!(s.lookup("z"), None);
    assert_eq!(s.depth(), 1);
}

#[test]
fn only_mutable_bindings_take_new_values() {
    let mut s: Scopes<i64> = Scopes::new();
    s.push_frame();
    s.declare("x", false, 1).unwrap();
    s.declare("y", true, 2).unwrap();
    s.assign("y", 20).unwrap();
    assert_eq!(s.lookup("y"), Some(&20));
    assert_eq!(
        s.assign("x", 5).unwrap_err().message(),
        "Cannot assign to immutable binding 'x'"
    );
    assert_eq!(s.lookup("x"), Some(&1));
    assert_eq!(s.assign("w", 5).unwrap_err().message(), "Unknown variable 'w'");
}

#[test]
fn calls_bind_their_parameters() {
    let mut s: Scopes<i64> = Scopes::new();
    let params = vec!["a".to_string(), "b".to_string()];
    assert_eq!(
        s.enter_call("f", &params, vec![1]).unwrap_err().message(),
        "Function 'f' expected 2 argument(s) but received 1"
    );
    let twice = vec!["a".to_string(), "a".to_string()];
    assert_eq!(
        s.enter_call("g", &twice, vec![1, 2]).unwrap_err().message(),
        "Duplicate parameter 'a' in function 'g'"
    );
    assert_eq!(s.depth(), 0);
    s.enter_call("f", &params, vec![7, 8]).unwrap();
    assert_eq!(s.lookup("a"), Some(&7));
    assert_eq!(s.lookup("b"), Some(&8));
    assert_eq!(
        s.assign("a", 1).unwrap_err().message(),
        "Cannot assign to immutable binding 'a'"
    );
    s.pop_frame();
    assert_eq!(s.depth(), 0);
}

#[test]
fn paths_name_bound_values() {
    let mut s: Scopes<i64> = Scopes::new();
    s.push_frame();
    s.declare("x", false, 4).unwrap();
    assert_eq!(s.path_value(&vec!["x".to_string()], false).unwrap(), &4);
    assert_eq!(
        s.path_value(&vec!["m".to_string(), "x".to_string()], false).unwrap_err().message(),
        "Module-qualified identifiers must be called as functions"
    );
    assert_eq!(
        s.path_value(&vec!["f".to_string()], true).unwrap_err().message(),
        "'f' is a function and must be called with parentheses"
    );
    assert_eq!(
        s.path_value(&vec!["q".to_string()], false).unwrap_err().message(),
        "Unknown identifier 'q'"
    );
}

#[test]
fn calls_find_their_callee() {
    let mut s: Scopes<i64> = Scopes::new();
    s.push_frame();
    s.declare("x", false, 1).unwrap();
    let one = |n: &str| vec![n.to_string()];
    let two = vec!["m".to_string(), "f".to_string()];
    assert_eq!(s.call_target(&one("x"), true, true, None, false).unwrap_err().message(), "'x' is not callable");
    assert_eq!(s.call_target(&one("f"), true, true, None, false).unwrap(), CallTarget::Symbol);
    assert_eq!(s.call_target(&one("f"), false, true, None, false).unwrap(), CallTarget::Function);
    assert_eq!(s.call_target(&one("g"), false, false, None, false).unwrap_err().message(), "Unknown function 'g'");
    assert_eq!(s.call_target(&two, false, false, None, false).unwrap_err().message(), "Unknown module alias 'm'");
    assert_eq!(s.call_target(&two, false, false, Some("math"), true).unwrap(), CallTarget::ModuleSymbol);
    assert_eq!(
        s.call_target(&two, false, false, Some("math"), false).unwrap_err().message(),
        "Unknown symbol 'math::f'"
    );
    assert_eq!(s.call_target(&Vec::new(), false, false, None, false).unwrap_err().message(), "Invalid callable path");
    let three = vec!["a".to_string(), "b".to_string(), "c".to_string()];
    assert_eq!(
        s.call_target(&three, false, false, None, false).unwrap_err().message(),
        "Nested module paths are not supported"
    );
}
