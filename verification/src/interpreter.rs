//! The decisions of the AFNS interpreter: how values print and compare,
//! what a binary operator gives, and what a call of a built-in function
//! prints and returns. Walking the program and printing stay with the
//! program that runs it.

use vstd::prelude::*;
use crate::ast::BinaryOperator;
use crate::text::{append_int, int_decimal, str_equal};

verus! {

/// A value of a running AFNS program.
#[derive(Debug, Clone)]
pub enum Value {
    String(String),
    Integer(i32),
    Boolean(bool),
    Null,
}

/// A value by its values.
pub enum Val {
    Str(Seq<char>),
    Int(int),
    Bool(bool),
    Null,
}

impl View for Value {
    type V = Val;

    open spec fn view(&self) -> Val {
        match self {
            Value::String(s) => Val::Str(s@),
            Value::Integer(i) => Val::Int(*i as int),
            Value::Boolean(b) => Val::Bool(*b),
            Value::Null => Val::Null,
        }
    }
}

/// How a value prints.
pub open spec fn value_text(v: Val) -> Seq<char> {
    match v {
        Val::Str(s) => s,
        Val::Int(i) => int_decimal(i),
        Val::Bool(b) => if b {
            "true"@
        } else {
            "false"@
        },
        Val::Null => "null"@,
    }
}

/// Whether two values are equal: of the same kind, with the same content.
pub open spec fn values_equal_spec(a: Val, b: Val) -> bool {
    match (a, b) {
        (Val::Str(x), Val::Str(y)) => x == y,
        (Val::Int(x), Val::Int(y)) => x == y,
        (Val::Bool(x), Val::Bool(y)) => x == y,
        (Val::Null, Val::Null) => true,
        _ => false,
    }
}

/// The quotient of a division that rounds toward zero.
pub open spec fn quot_toward_zero(a: int, b: int) -> int {
    let q = (if a < 0 { -a } else { a }) / (if b < 0 { -b } else { b });
    if (a < 0) != (b < 0) { -q } else { q }
}

/// Whether an `i32` holds a value.
pub open spec fn in_i32(v: int) -> bool {
    i32::MIN <= v <= i32::MAX
}

/// Whether the integer arithmetic of an operator stays within `i32`; the
/// interpreter's arithmetic is that of `i32`, which does not go beyond it.
pub open spec fn binary_fits(l: Val, op: BinaryOperator, r: Val) -> bool {
    match (l, r) {
        (Val::Int(a), Val::Int(b)) => match op {
            BinaryOperator::Add => in_i32(a + b),
            BinaryOperator::Subtract => in_i32(a - b),
            BinaryOperator::Multiply => in_i32(a * b),
            BinaryOperator::Divide => b != 0 ==> in_i32(quot_toward_zero(a, b)),
            _ => true,
        },
        _ => true,
    }
}

/// What a binary operator gives on two values, or the message of its error.
pub open spec fn binary_result(l: Val, op: BinaryOperator, r: Val) -> Result<Val, Seq<char>> {
    match op {
        BinaryOperator::Add => match (l, r) {
            (Val::Str(a), Val::Str(b)) => Ok(Val::Str(a + b)),
            (Val::Int(a), Val::Int(b)) => Ok(Val::Int(a + b)),
            _ => Err("Cannot add incompatible types"@),
        },
        BinaryOperator::Subtract => match (l, r) {
            (Val::Int(a), Val::Int(b)) => Ok(Val::Int(a - b)),
            _ => Err("Cannot subtract non-integer types"@),
        },
        BinaryOperator::Multiply => match (l, r) {
            (Val::Int(a), Val::Int(b)) => Ok(Val::Int(a * b)),
            _ => Err("Cannot multiply non-integer types"@),
        },
        BinaryOperator::Divide => match (l, r) {
            (Val::Int(a), Val::Int(b)) => if b != 0 {
                Ok(Val::Int(quot_toward_zero(a, b)))
            } else {
                Err("Division by zero"@)
            },
            _ => Err("Cannot divide non-integer types"@),
        },
        BinaryOperator::Equal => Ok(Val::Bool(values_equal_spec(l, r))),
        BinaryOperator::NotEqual => Ok(Val::Bool(!values_equal_spec(l, r))),
        BinaryOperator::Less => match (l, r) {
            (Val::Int(a), Val::Int(b)) => Ok(Val::Bool(a < b)),
            _ => Err("Cannot compare non-integer types with <"@),
        },
        BinaryOperator::Greater => match (l, r) {
            (Val::Int(a), Val::Int(b)) => Ok(Val::Bool(a > b)),
            _ => Err("Cannot compare non-integer types with >"@),
        },
        BinaryOperator::LessEqual => match (l, r) {
            (Val::Int(a), Val::Int(b)) => Ok(Val::Bool(a <= b)),
            _ => Err("Cannot compare non-integer types with <="@),
        },
        BinaryOperator::GreaterEqual => match (l, r) {
            (Val::Int(a), Val::Int(b)) => Ok(Val::Bool(a >= b)),
            _ => Err("Cannot compare non-integer types with >="@),
        },
        BinaryOperator::And => match (l, r) {
            (Val::Bool(a), Val::Bool(b)) => Ok(Val::Bool(a && b)),
            _ => Err("Cannot apply AND to non-boolean types"@),
        },
        BinaryOperator::Or => match (l, r) {
            (Val::Bool(a), Val::Bool(b)) => Ok(Val::Bool(a || b)),
            _ => Err("Cannot apply OR to non-boolean types"@),
        },
        _ => Err("Unsupported binary operator"@),
    }
}

/// A result with values by their values.
pub open spec fn result_v(r: Result<Value, String>) -> Result<Val, Seq<char>> {
    match r {
        Ok(v) => Ok(v@),
        Err(e) => Err(e@),
    }
}

impl Value {
    /// How the value prints
    pub fn as_string(&self) -> (s: String)
        ensures
            s@ == value_text(self@),
    {
        match self {
            Value::String(t) => t.clone(),
            Value::Integer(i) => {
                let mut s = String::new();
                append_int(&mut s, *i as i64);
                assert(s@ =~= int_decimal(*i as int));
                s
            },
            Value::Boolean(b) => if *b {
                String::from_str("true")
            } else {
                String::from_str("false")
            },
            Value::Null => String::from_str("null"),
        }
    }
}

/// Whether two values are equal: of the same kind, with the same content
pub fn values_equal(left: &Value, right: &Value) -> (b: bool)
    ensures
        b == values_equal_spec(left@, right@),
{
    match (left, right) {
        (Value::String(l), Value::String(r)) => str_equal(l.as_str(), r.as_str()),
        (Value::Integer(l), Value::Integer(r)) => *l == *r,
        (Value::Boolean(l), Value::Boolean(r)) => *l == *r,
        (Value::Null, Value::Null) => true,
        _ => false,
    }
}

fn quotient(l: i32, r: i32) -> (q: i32)
    requires
        r != 0,
        in_i32(quot_toward_zero(l as int, r as int)),
    ensures
        q == quot_toward_zero(l as int, r as int),
{
    let a: i64 = if l < 0 { -(l as i64) } else { l as i64 };
    let b: i64 = if r < 0 { -(r as i64) } else { r as i64 };
    let m: i64 = a / b;
    assert(0 <= m <= a) by (nonlinear_arith)
        requires a >= 0, b >= 1, m == a / b;
    let s: i64 = if (l < 0) != (r < 0) { -m } else { m };
    s as i32
}

/// What a binary operator gives on two values, or the message of its error
pub fn evaluate_binary_op(left: Value, op: BinaryOperator, right: Value) -> (r: Result<Value, String>)
    requires
        binary_fits(left@, op, right@),
    ensures
        result_v(r) == binary_result(left@, op, right@),
{
    match op {
        BinaryOperator::Add => match (left, right) {
            (Value::String(l), Value::String(r)) => {
                let mut s = l;
                s.append(r.as_str());
                Ok(Value::String(s))
            },
            (Value::Integer(l), Value::Integer(r)) => Ok(Value::Integer(l + r)),
            _ => Err(String::from_str("Cannot add incompatible types")),
        },
        BinaryOperator::Subtract => match (left, right) {
            (Value::Integer(l), Value::Integer(r)) => Ok(Value::Integer(l - r)),
            _ => Err(String::from_str("Cannot subtract non-integer types")),
        },
        BinaryOperator::Multiply => match (left, right) {
            (Value::Integer(l), Value::Integer(r)) => Ok(Value::Integer(l * r)),
            _ => Err(String::from_str("Cannot multiply non-integer types")),
        },
        BinaryOperator::Divide => match (left, right) {
            (Value::Integer(l), Value::Integer(r)) => if r != 0 {
                Ok(Value::Integer(quotient(l, r)))
            } else {
                Err(String::from_str("Division by zero"))
            },
            _ => Err(String::from_str("Cannot divide non-integer types")),
        },
        BinaryOperator::Equal => Ok(Value::Boolean(values_equal(&left, &right))),
        BinaryOperator::NotEqual => Ok(Value::Boolean(!values_equal(&left, &right))),
        BinaryOperator::Less => match (left, right) {
            (Value::Integer(l), Value::Integer(r)) => Ok(Value::Boolean(l < r)),
            _ => Err(String::from_str("Cannot compare non-integer types with <")),
        },
        BinaryOperator::Greater => match (left, right) {
            (Value::Integer(l), Value::Integer(r)) => Ok(Value::Boolean(l > r)),
            _ => Err(String::from_str("Cannot compare non-integer types with >")),
        },
        BinaryOperator::LessEqual => match (left, right) {
            (Value::Integer(l), Value::Integer(r)) => Ok(Value::Boolean(l <= r)),
            _ => Err(String::from_str("Cannot compare non-integer types with <=")),
        },
        BinaryOperator::GreaterEqual => match (left, right) {
            (Value::Integer(l), Value::Integer(r)) => Ok(Value::Boolean(l >= r)),
            _ => Err(String::from_str("Cannot compare non-integer types with >=")),
        },
        BinaryOperator::And => match (left, right) {
            (Value::Boolean(l), Value::Boolean(r)) => Ok(Value::Boolean(l && r)),
            _ => Err(String::from_str("Cannot apply AND to non-boolean types")),
        },
        BinaryOperator::Or => match (left, right) {
            (Value::Boolean(l), Value::Boolean(r)) => Ok(Value::Boolean(l || r)),
            _ => Err(String::from_str("Cannot apply OR to non-boolean types")),
        },
        _ => Err(String::from_str("Unsupported binary operator")),
    }
}

/// A unary operator leaves its value as it is in this interpreter
pub fn evaluate_unary_op(val: Value) -> (r: Value)
    ensures
        r@ == val@,
{
    val
}

/// How many of a call's arguments the interpreter evaluates, from the
/// first, for the function named `name` called with `n` arguments.
pub open spec fn needed_args(name: Seq<char>, n: nat) -> nat {
    if name == "show"@ || name == "println"@ || name == "flutter_update_status"@ {
        if n > 0 { 1 } else { 0 }
    } else if name == "flutter_create_window"@ || name == "flutter_create_button"@ {
        if n >= 4 { 4 } else { 0 }
    } else if name == "flutter_create_textfield"@ || name == "flutter_create_listbox"@ {
        if n >= 5 { 5 } else { 0 }
    } else if name == "flutter_show_dialog"@ {
        if n >= 2 { 2 } else { 0 }
    } else {
        0
    }
}

/// The text of a created window.
pub open spec fn window_text(a: Seq<Val>) -> Seq<char> {
    "FlutterWindow(id::string = \""@ + value_text(a[0]) + "\", title::string = \""@ + value_text(a[1])
        + "\", width::i32 = "@ + value_text(a[2]) + ", height::i32 = "@ + value_text(a[3]) + ")"@
}

/// The text of a created button.
pub open spec fn button_text(a: Seq<Val>) -> Seq<char> {
    "FlutterButton(id::string = \""@ + value_text(a[0]) + "\", text::string = \""@ + value_text(a[1])
        + "\", x::i32 = "@ + value_text(a[2]) + ", y::i32 = "@ + value_text(a[3]) + ")"@
}

/// The text of a created text field.
pub open spec fn text_field_text(a: Seq<Val>) -> Seq<char> {
    "FlutterTextField(id::string = \""@ + value_text(a[0]) + "\", placeholder::string = \""@
        + value_text(a[1]) + "\", x::i32 = "@ + value_text(a[2]) + ", y::i32 = "@ + value_text(a[3])
        + ", width::i32 = "@ + value_text(a[4]) + ")"@
}

/// The text of a created list box.
pub open spec fn list_box_text(a: Seq<Val>) -> Seq<char> {
    "FlutterListBox(id::string = \""@ + value_text(a[0]) + "\", x::i32 = "@ + value_text(a[1])
        + ", y::i32 = "@ + value_text(a[2]) + ", width::i32 = "@ + value_text(a[3]) + ", height::i32 = "@
        + value_text(a[4]) + ")"@
}

/// The text of a shown dialog.
pub open spec fn dialog_text(a: Seq<Val>) -> Seq<char> {
    "FlutterDialog(title::string = \""@ + value_text(a[0]) + "\", message::string = \""@ + value_text(
        a[1],
    ) + "\", modal::bool = true)"@
}

/// What a call of the function `name` with `n` arguments prints, line by
/// line, and returns, given the values of the arguments it evaluates and
/// whether a function of that name is declared; or the message of its
/// error.
pub open spec fn call_result(name: Seq<char>, n: nat, a: Seq<Val>, declared: bool) -> Result<
    (Seq<Seq<char>>, Val),
    Seq<char>,
> {
    if name == "show"@ || name == "println"@ {
        if n > 0 {
            Ok((seq![value_text(a[0])], Val::Null))
        } else {
            Ok((Seq::empty(), Val::Null))
        }
    } else if name == "flutter_init"@ {
        Ok(
            (
                seq![
                    "🚀 AFNS Flutter Integration Initialized!"@,
                    "Platform: Cross-platform Native"@,
                    "Performance: Maximum Speed"@,
                ],
                Val::Null,
            ),
        )
    } else if name == "flutter_create_window"@ {
        Ok((Seq::empty(), Val::Str(if n >= 4 { window_text(a) } else { "FlutterWindow created"@ })))
    } else if name == "flutter_create_button"@ {
        Ok((Seq::empty(), Val::Str(if n >= 4 { button_text(a) } else { "FlutterButton created"@ })))
    } else if name == "flutter_create_textfield"@ {
        Ok(
            (
                Seq::empty(),
                Val::Str(if n >= 5 { text_field_text(a) } else { "FlutterTextField created"@ }),
            ),
        )
    } else if name == "flutter_create_listbox"@ {
        Ok((Seq::empty(), Val::Str(if n >= 5 { list_box_text(a) } else { "FlutterListBox created"@ })))
    } else if name == "flutter_show_dialog"@ {
        Ok((Seq::empty(), Val::Str(if n >= 2 { dialog_text(a) } else { "FlutterDialog created"@ })))
    } else if name == "flutter_update_status"@ {
        if n > 0 {
            Ok((seq!["🔄 Flutter Status: "@ + value_text(a[0])], Val::Null))
        } else {
            Ok((Seq::empty(), Val::Null))
        }
    } else if name == "flutter_handle_save"@ {
        Ok(
            (
                seq!["🔄 Flutter Status: Project saved successfully"@, "💾 Flutter Save Action: Completed"@],
                Val::Null,
            ),
        )
    } else if name == "flutter_handle_load"@ {
        Ok(
            (
                seq!["🔄 Flutter Status: Project loaded successfully"@, "📂 Flutter Load Action: Completed"@],
                Val::Null,
            ),
        )
    } else if name == "flutter_handle_run"@ {
        Ok(
            (
                seq!["🔄 Flutter Status: Application running"@, "🚀 Flutter Run Action: Completed"@],
                Val::Null,
            ),
        )
    } else if name == "flutter_handle_debug"@ {
        Ok(
            (
                seq!["🔄 Flutter Status: Debug mode active"@, "🐛 Flutter Debug Action: Completed"@],
                Val::Null,
            ),
        )
    } else if declared {
        Ok((seq!["Executing function: "@ + name], Val::Null))
    } else {
        Err("Unknown function: "@ + name)
    }
}

/// How many of its `arg_count` arguments a call of `name` evaluates, from
/// the first
pub fn needed_arg_count(name: &str, arg_count: usize) -> (k: usize)
    ensures
        k == needed_args(name@, arg_count as nat),
{
    if str_equal(name, "show") || str_equal(name, "println") || str_equal(name, "flutter_update_status") {
        if arg_count > 0 { 1 } else { 0 }
    } else if str_equal(name, "flutter_create_window") || str_equal(name, "flutter_create_button") {
        if arg_count >= 4 { 4 } else { 0 }
    } else if str_equal(name, "flutter_create_textfield") || str_equal(name, "flutter_create_listbox") {
        if arg_count >= 5 { 5 } else { 0 }
    } else if str_equal(name, "flutter_show_dialog") {
        if arg_count >= 2 { 2 } else { 0 }
    } else {
        0
    }
}

fn lines_of(a: &str, b: &str) -> (v: Vec<String>)
    ensures
        v@.map_values(|s: String| s@) == seq![a@, b@],
{
    let v = vec![String::from_str(a), String::from_str(b)];
    assert(v@.map_values(|s: String| s@) =~= seq![a@, b@]);
    v
}

fn no_lines() -> (v: Vec<String>)
    ensures
        v@.map_values(|s: String| s@) == Seq::<Seq<char>>::empty(),
{
    let v: Vec<String> = Vec::new();
    assert(v@.map_values(|s: String| s@) =~= Seq::<Seq<char>>::empty());
    v
}

fn one_line(s: String) -> (v: Vec<String>)
    ensures
        v@.map_values(|t: String| t@) == seq![s@],
{
    let v = vec![s];
    assert(v@.map_values(|t: String| t@) =~= seq![v@[0]@]);
    v
}

/// Appends a text, then the printed form of a value.
fn append_value(s: &mut String, text: &str, v: &Value)
    ensures
        final(s)@ == old(s)@ + text@ + value_text(v@),
{
    s.append(text);
    let t = v.as_string();
    s.append(t.as_str());
}

/// What a call of the function `name` with `arg_count` arguments prints,
/// line by line, and returns, given the values of the arguments it
/// evaluates (`needed_arg_count` of them) and whether a function of that
/// name is declared; or the message of its error
pub fn call_function(name: &str, arg_count: usize, args: &Vec<Value>, declared: bool) -> (r: Result<
    (Vec<String>, Value),
    String,
>)
    requires
        args@.len() == needed_args(name@, arg_count as nat),
    ensures
        match call_result(name@, arg_count as nat, args@.map_values(|v: Value| v@), declared) {
            Ok((lines, v)) => r matches Ok((ls, w)) && ls@.map_values(|s: String| s@) == lines && w@ == v,
            Err(m) => r matches Err(e) && e@ == m,
        },
{
    let ghost a = args@.map_values(|v: Value| v@);
    proof {
        reveal_strlit("show");
        reveal_strlit("println");
        reveal_strlit("flutter_update_status");
        reveal_strlit("flutter_create_window");
        reveal_strlit("flutter_create_button");
        reveal_strlit("flutter_create_textfield");
        reveal_strlit("flutter_create_listbox");
        reveal_strlit("flutter_show_dialog");
        reveal_strlit("flutter_init");
        reveal_strlit("flutter_handle_save");
        reveal_strlit("flutter_handle_load");
        reveal_strlit("flutter_handle_run");
        reveal_strlit("flutter_handle_debug");
    }
    if str_equal(name, "show") || str_equal(name, "println") {
        if arg_count > 0 {
            Ok((one_line(args[0].as_string()), Value::Null))
        } else {
            Ok((no_lines(), Value::Null))
        }
    } else if str_equal(name, "flutter_init") {
        let mut v = vec![String::from_str("🚀 AFNS Flutter Integration Initialized!")];
        v.push(String::from_str("Platform: Cross-platform Native"));
        v.push(String::from_str("Performance: Maximum Speed"));
        assert(v@.map_values(|s: String| s@) =~= seq![
            "🚀 AFNS Flutter Integration Initialized!"@,
            "Platform: Cross-platform Native"@,
            "Performance: Maximum Speed"@,
        ]);
        Ok((v, Value::Null))
    } else if str_equal(name, "flutter_create_window") {
        if arg_count >= 4 {
            assert(name@ != "flutter_update_status"@) by {
                assert(name@[8] != "flutter_update_status"@[8]);
            }
            let mut s = String::new();
            append_value(&mut s, "FlutterWindow(id::string = \"", &args[0]);
            append_value(&mut s, "\", title::string = \"", &args[1]);
            append_value(&mut s, "\", width::i32 = ", &args[2]);
            append_value(&mut s, ", height::i32 = ", &args[3]);
            s.append(")");
            proof {
                assert(s@ =~= window_text(a));
            }
            Ok((no_lines(), Value::String(s)))
        } else {
            Ok((no_lines(), Value::String(String::from_str("FlutterWindow created"))))
        }
    } else if str_equal(name, "flutter_create_button") {
        if arg_count >= 4 {
            assert(name@ != "flutter_update_status"@) by {
                assert(name@[8] != "flutter_update_status"@[8]);
            }
            let mut s = String::new();
            append_value(&mut s, "FlutterButton(id::string = \"", &args[0]);
            append_value(&mut s, "\", text::string = \"", &args[1]);
            append_value(&mut s, "\", x::i32 = ", &args[2]);
            append_value(&mut s, ", y::i32 = ", &args[3]);
            s.append(")");
            proof {
                assert(s@ =~= button_text(a));
            }
            Ok((no_lines(), Value::String(s)))
        } else {
            Ok((no_lines(), Value::String(String::from_str("FlutterButton created"))))
        }
    } else if str_equal(name, "flutter_create_textfield") {
        if arg_count >= 5 {
            let mut s = String::new();
            append_value(&mut s, "FlutterTextField(id::string = \"", &args[0]);
            append_value(&mut s, "\", placeholder::string = \"", &args[1]);
            append_value(&mut s, "\", x::i32 = ", &args[2]);
            append_value(&mut s, ", y::i32 = ", &args[3]);
            append_value(&mut s, ", width::i32 = ", &args[4]);
            s.append(")");
            proof {
                assert(s@ =~= text_field_text(a));
            }
            Ok((no_lines(), Value::String(s)))
        } else {
            Ok((no_lines(), Value::String(String::from_str("FlutterTextField created"))))
        }
    } else if str_equal(name, "flutter_create_listbox") {
        if arg_count >= 5 {
            let mut s = String::new();
            append_value(&mut s, "FlutterListBox(id::string = \"", &args[0]);
            append_value(&mut s, "\", x::i32 = ", &args[1]);
            append_value(&mut s, ", y::i32 = ", &args[2]);
            append_value(&mut s, ", width::i32 = ", &args[3]);
            append_value(&mut s, ", height::i32 = ", &args[4]);
            s.append(")");
            proof {
                assert(s@ =~= list_box_text(a));
            }
            Ok((no_lines(), Value::String(s)))
        } else {
            Ok((no_lines(), Value::String(String::from_str("FlutterListBox created"))))
        }
    } else if str_equal(name, "flutter_show_dialog") {
        if arg_count >= 2 {
            let mut s = String::new();
            append_value(&mut s, "FlutterDialog(title::string = \"", &args[0]);
            append_value(&mut s, "\", message::string = \"", &args[1]);
            s.append("\", modal::bool = true)");
            proof {
                assert(s@ =~= dialog_text(a));
            }
            Ok((no_lines(), Value::String(s)))
        } else {
            Ok((no_lines(), Value::String(String::from_str("FlutterDialog created"))))
        }
    } else if str_equal(name, "flutter_update_status") {
        if arg_count > 0 {
            let mut s = String::from_str("🔄 Flutter Status: ");
            let t = args[0].as_string();
            s.append(t.as_str());
            Ok((one_line(s), Value::Null))
        } else {
            Ok((no_lines(), Value::Null))
        }
    } else if str_equal(name, "flutter_handle_save") {
        Ok((lines_of("🔄 Flutter Status: Project saved successfully", "💾 Flutter Save Action: Completed"), Value::Null))
    } else if str_equal(name, "flutter_handle_load") {
        Ok((lines_of("🔄 Flutter Status: Project loaded successfully", "📂 Flutter Load Action: Completed"), Value::Null))
    } else if str_equal(name, "flutter_handle_run") {
        Ok((lines_of("🔄 Flutter Status: Application running", "🚀 Flutter Run Action: Completed"), Value::Null))
    } else if str_equal(name, "flutter_handle_debug") {
        Ok((lines_of("🔄 Flutter Status: Debug mode active", "🐛 Flutter Debug Action: Completed"), Value::Null))
    } else if declared {
        let mut s = String::from_str("Executing function: ");
        s.append(name);
        Ok((one_line(s), Value::Null))
    } else {
        let mut s = String::from_str("Unknown function: ");
        s.append(name);
        Err(s)
    }
}

/// The order comparisons of integers agree with each other and with
/// subtraction: `a < b` exactly when `b - a` is positive; `a > b` is
/// `b < a`; exactly one of `a < b`, `a == b`, `a > b` holds; `<=` is the
/// negation of `>` and `>=` the negation of `<`.
pub proof fn lemma_comparisons_agree(a: int, b: int)
    ensures
        ({
            let lt = binary_result(Val::Int(a), BinaryOperator::Less, Val::Int(b));
            let gt = binary_result(Val::Int(a), BinaryOperator::Greater, Val::Int(b));
            let eq = binary_result(Val::Int(a), BinaryOperator::Equal, Val::Int(b));
            let le = binary_result(Val::Int(a), BinaryOperator::LessEqual, Val::Int(b));
            let ge = binary_result(Val::Int(a), BinaryOperator::GreaterEqual, Val::Int(b));
            let diff = binary_result(Val::Int(b), BinaryOperator::Subtract, Val::Int(a));
            &&& lt is Ok && gt is Ok && eq is Ok && le is Ok && ge is Ok
            &&& (lt == Ok::<Val, Seq<char>>(Val::Bool(true))) == (diff matches Ok(Val::Int(d)) && d > 0)
            &&& gt == binary_result(Val::Int(b), BinaryOperator::Less, Val::Int(a))
            &&& (eq == Ok::<Val, Seq<char>>(Val::Bool(true))) == (a == b)
            &&& ((lt == Ok::<Val, Seq<char>>(Val::Bool(true))) as int) + ((eq == Ok::<Val, Seq<char>>(
                Val::Bool(true),
            )) as int) + ((gt == Ok::<Val, Seq<char>>(Val::Bool(true))) as int) == 1
            &&& (le == Ok::<Val, Seq<char>>(Val::Bool(true))) == (gt == Ok::<Val, Seq<char>>(Val::Bool(false)))
            &&& (ge == Ok::<Val, Seq<char>>(Val::Bool(true))) == (lt == Ok::<Val, Seq<char>>(Val::Bool(false)))
        }),
{
}

/// The result of an operator on two values, when it gives one.
pub open spec fn result_of(l: Val, op: BinaryOperator, r: Val) -> Val {
    binary_result(l, op, r)->Ok_0
}

/// Integer arithmetic agrees with itself: addition is commutative, with
/// zero as its identity, and subtraction undoes it; multiplication by a
/// successor adds the multiplicand once more, and multiplying by zero or
/// one gives zero or the multiplicand; a quotient by a nonzero divisor
/// leaves a remainder smaller than the divisor with the sign of the
/// dividend, and a zero divisor is an error.
pub proof fn lemma_integer_arithmetic_agrees(a: int, b: int)
    ensures
        binary_result(Val::Int(a), BinaryOperator::Add, Val::Int(b)) is Ok,
        result_of(Val::Int(a), BinaryOperator::Add, Val::Int(b)) == result_of(Val::Int(b), BinaryOperator::Add, Val::Int(a)),
        result_of(Val::Int(0), BinaryOperator::Add, Val::Int(b)) == Val::Int(b),
        binary_result(result_of(Val::Int(a), BinaryOperator::Add, Val::Int(b)), BinaryOperator::Subtract, Val::Int(b))
            == Ok::<Val, Seq<char>>(Val::Int(a)),
        binary_result(Val::Int(a), BinaryOperator::Multiply, Val::Int(b)) is Ok,
        result_of(Val::Int(a), BinaryOperator::Multiply, Val::Int(0)) == Val::Int(0),
        result_of(Val::Int(a), BinaryOperator::Multiply, Val::Int(1)) == Val::Int(a),
        result_of(Val::Int(a), BinaryOperator::Multiply, result_of(Val::Int(b), BinaryOperator::Add, Val::Int(1)))
            == result_of(result_of(Val::Int(a), BinaryOperator::Multiply, Val::Int(b)), BinaryOperator::Add, Val::Int(a)),
        b == 0 ==> binary_result(Val::Int(a), BinaryOperator::Divide, Val::Int(b)) is Err,
        b != 0 ==> (binary_result(Val::Int(a), BinaryOperator::Divide, Val::Int(b)) matches Ok(Val::Int(q)) && ({
            let rem = a - q * b;
            &&& (if rem < 0 { -rem } else { rem }) < (if b < 0 { -b } else { b })
            &&& (rem == 0 || (rem < 0) == (a < 0))
        })),
{
    assert(a * (b + 1) == a * b + a) by (nonlinear_arith);
    if b != 0 {
        let x = if a < 0 { -a } else { a };
        let y = if b < 0 { -b } else { b };
        let q0 = x / y;
        assert(0 <= x - q0 * y < y) by (nonlinear_arith)
            requires
                y > 0,
                x >= 0,
                q0 == x / y,
        ;
        let q = quot_toward_zero(a, b);
        assert(a - q * b == (if a < 0 { -(x - q0 * y) } else { x - q0 * y })) by (nonlinear_arith)
            requires
                x == (if a < 0 { -a } else { a }),
                y == (if b < 0 { -b } else { b }),
                q == (if (a < 0) != (b < 0) { -q0 } else { q0 }),
        ;
    }
}

/// The boolean operators and equality agree with each other: `&&` and `||`
/// are commutative, `true && y` and `false || y` are `y`, `x || y` is the
/// negation of `!x && !y`; every value equals itself, and `!=` is the
/// negation of `==`. Joining two strings with `+` gives the first followed
/// by the second.
pub proof fn lemma_logic_and_equality_agree(x: bool, y: bool, v: Val, w: Val, s: Seq<char>, t: Seq<char>)
    ensures
        binary_result(Val::Bool(x), BinaryOperator::And, Val::Bool(y)) == binary_result(Val::Bool(y), BinaryOperator::And, Val::Bool(x)),
        binary_result(Val::Bool(x), BinaryOperator::Or, Val::Bool(y)) == binary_result(Val::Bool(y), BinaryOperator::Or, Val::Bool(x)),
        binary_result(Val::Bool(true), BinaryOperator::And, Val::Bool(y)) == Ok::<Val, Seq<char>>(Val::Bool(y)),
        binary_result(Val::Bool(false), BinaryOperator::Or, Val::Bool(y)) == Ok::<Val, Seq<char>>(Val::Bool(y)),
        binary_result(Val::Bool(x), BinaryOperator::Or, Val::Bool(y)) == Ok::<Val, Seq<char>>(Val::Bool(
            result_of(Val::Bool(!x), BinaryOperator::And, Val::Bool(!y)) == Val::Bool(false),
        )),
        binary_result(v, BinaryOperator::Equal, v) == Ok::<Val, Seq<char>>(Val::Bool(true)),
        binary_result(v, BinaryOperator::NotEqual, w) == Ok::<Val, Seq<char>>(Val::Bool(
            result_of(v, BinaryOperator::Equal, w) == Val::Bool(false),
        )),
        binary_result(Val::Str(s), BinaryOperator::Add, Val::Str(t)) matches Ok(Val::Str(u)) && u.len() == s.len()
            + t.len() && u.take(s.len() as int) == s && u.skip(s.len() as int) == t,
{
    match binary_result(Val::Str(s), BinaryOperator::Add, Val::Str(t)) {
        Ok(Val::Str(u)) => {
            assert(u.take(s.len() as int) =~= s);
            assert(u.skip(s.len() as int) =~= t);
        },
        _ => {},
    }
}

} // verus!
