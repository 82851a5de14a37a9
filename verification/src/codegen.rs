//! Code generators for the AFNS back ends: LLVM IR, WebAssembly and the
//! AFNS bytecode.

use vstd::prelude::*;
use vstd::utf8::encode_utf8;
use crate::ast::{
    BinaryOperator, Expression, Function, FunctionOverload, Item, Literal, MatchArm, Pattern, Program, Statement,
    Type,
};
use crate::text::push_char;
use crate::text::{append_decimal, append_int, append_wide_decimal, decimal, int_decimal, str_equal};

verus! {

/// The LLVM IR generator.
pub struct LLVMCodeGenerator;

/// The WebAssembly generator.
pub struct WASMCodeGenerator;

/// The bytecode generator.
pub struct BytecodeGenerator;

/// The LLVM type of an AFNS type: `i32`, `double`, `i1`, `i8*` for
/// strings, `i8` for characters and bytes, and `i32` for every other type.
pub open spec fn llvm_type_text(t: Type) -> Seq<char> {
    match t {
        Type::I32 => "i32"@,
        Type::F64 => "double"@,
        Type::Bool => "i1"@,
        Type::String => "i8*"@,
        Type::Char => "i8"@,
        Type::Byte => "i8"@,
        _ => "i32"@,
    }
}

impl LLVMCodeGenerator {
    /// A generator
    pub fn new() -> (g: Self)
        ensures
            g == LLVMCodeGenerator,
    {
        LLVMCodeGenerator
    }

    /// The LLVM type of an AFNS type
    pub fn type_to_llvm(&self, type_: &Type) -> (s: String)
        ensures
            s@ == llvm_type_text(*type_),
    {
        match type_ {
            Type::I32 => String::from_str("i32"),
            Type::F64 => String::from_str("double"),
            Type::Bool => String::from_str("i1"),
            Type::String => String::from_str("i8*"),
            Type::Char => String::from_str("i8"),
            Type::Byte => String::from_str("i8"),
            _ => String::from_str("i32"),
        }
    }

    /// The name of the constant that holds a string literal: `@.str.`
    /// and the literal's length in bytes (`str::len`)
    pub fn get_string_constant_name(&self, s: &str) -> (name: String)
        ensures
            name@ == "@.str."@ + crate::text::decimal(s.len() as nat),
    {
        let mut name = String::from_str("@.str.");
        crate::text::append_decimal(&mut name, s.len() as u64);
        name
    }
}

/// The LLVM operand of a literal. A string stands for the constant named
/// after its length in bytes, a character for its low byte.
pub open spec fn literal_code(l: Literal) -> Seq<char> {
    match l {
        Literal::Integer(i) => "i32 "@ + int_decimal(i as int),
        Literal::UnsignedInteger(u) => "i32 "@ + decimal(u as nat),
        Literal::Float(t) => "double "@ + t@,
        Literal::Boolean(b) => if b {
            "i1 1"@
        } else {
            "i1 0"@
        },
        Literal::String(t) => {
            let n = (encode_utf8(t@).len() as usize) as nat;
            "getelementptr inbounds (["@ + decimal(n + 1) + " x i8], ["@ + decimal(n + 1) + " x i8]* @.str."@
                + decimal(n) + ", i32 0, i32 0)"@
        },
        Literal::Char(c) => "i8 "@ + decimal(((c as int) % 256) as nat),
        Literal::Byte(b) => "i8 "@ + decimal(b as nat),
    }
}

/// Whether some parameter of this name has the string type.
pub open spec fn is_string_param(params: Seq<(String, Type)>, name: Seq<char>) -> bool {
    exists|i: int| 0 <= i < params.len() && (#[trigger] params[i]).0@ == name && params[i].1 is String
}

/// Whether an operand of `+` is a string: a string literal, or a
/// parameter of the string type.
pub open spec fn is_string_operand(e: Expression, params: Seq<(String, Type)>) -> bool {
    match e {
        Expression::Literal(Literal::String(_)) => true,
        Expression::Identifier(n) => is_string_param(params, n@),
        _ => false,
    }
}

/// The return type a call of the named function is given.
pub open spec fn call_return_type(name: Seq<char>) -> Seq<char> {
    if name == "show"@ || name == "println"@ {
        "void"@
    } else if "print_string_"@.is_prefix_of(name) {
        "i8*"@
    } else if "add_"@.is_prefix_of(name) {
        "i32"@
    } else {
        "void"@
    }
}

/// The LLVM instruction of a binary operator on two operands.
pub open spec fn binary_code(
    op: BinaryOperator,
    l: Seq<char>,
    r: Seq<char>,
    strings: bool,
) -> Seq<char> {
    match op {
        BinaryOperator::Add => if strings {
            "call i8* @string_concat(i8* "@ + l + ", i8* "@ + r + ")"@
        } else {
            "add i32 "@ + l + ", "@ + r
        },
        BinaryOperator::Subtract => "sub i32 "@ + l + ", "@ + r,
        BinaryOperator::Multiply => "mul i32 "@ + l + ", "@ + r,
        BinaryOperator::Divide => "sdiv i32 "@ + l + ", "@ + r,
        BinaryOperator::Equal => "eq i32 "@ + l + ", "@ + r,
        BinaryOperator::NotEqual => "ne i32 "@ + l + ", "@ + r,
        _ => "add i32 "@ + l + ", "@ + r,
    }
}

/// The LLVM code of an expression, with the enclosing function's
/// parameters.
pub open spec fn expr_code(e: Expression, params: Seq<(String, Type)>) -> Seq<char>
    decreases e, 0nat,
{
    match e {
        Expression::Literal(l) => literal_code(l),
        Expression::Identifier(n) => "%"@ + n@,
        Expression::BinaryOp { left, op, right } => binary_code(
            op,
            expr_code(*left, params),
            expr_code(*right, params),
            is_string_operand(*left, params) || is_string_operand(*right, params),
        ),
        Expression::FunctionCall { name, args } => "call "@ + call_return_type(name@) + " @"@ + name@ + "("@
            + args_code(args@, params, args@.len()) + ")"@,
        _ => "  ; TODO: Implement expression"@,
    }
}

/// The codes of the first `k` arguments, separated by ", ".
pub open spec fn args_code(args: Seq<Expression>, params: Seq<(String, Type)>, k: nat) -> Seq<char>
    decreases args, k,
{
    if k == 0 || k > args.len() {
        Seq::empty()
    } else if k == 1 {
        expr_code(args[0], params)
    } else {
        args_code(args, params, (k - 1) as nat) + ", "@ + expr_code(args[k - 1], params)
    }
}

/// The code of the rest of a match after its first arm compared an
/// integer: the second arm, or the end when there is none.
pub open spec fn second_arm_code(arms: Seq<MatchArm>, vc: Seq<char>, params: Seq<(String, Type)>) -> Seq<char> {
    if arms.len() > 1 {
        match arms[1].pattern {
            Pattern::Wildcard => "  ; Wildcard pattern - default case\n"@ + "  "@ + expr_code(arms[1].body, params)
                + "\n"@ + "  ret void\n"@,
            Pattern::Literal(Literal::Integer(j)) => "  %cmp1 = eq i32 "@ + vc + ", "@ + int_decimal(j as int)
                + "\n"@ + "  br i1 %cmp1, label %match1, label %next1\n"@ + "\n"@ + "match1:\n"@ + "  "@
                + expr_code(arms[1].body, params) + "\n"@ + "  ret void\n"@ + "\n"@ + "next1:\n"@
                + "  ; TODO: Handle more patterns\n"@ + "  ret i8* null\n"@,
            _ => "  ; TODO: Handle pattern\n"@,
        }
    } else {
        "  ; No more patterns\n"@ + "  ret i8* null\n"@
    }
}

/// The LLVM code of a match on a value with these arms: the first two
/// arms are compiled, an integer or a wildcard pattern each.
pub open spec fn match_code(vc: Seq<char>, arms: Seq<MatchArm>, params: Seq<(String, Type)>) -> Seq<char> {
    if arms.len() == 0 {
        Seq::empty()
    } else {
        match arms[0].pattern {
            Pattern::Literal(Literal::Integer(i)) => "  %cmp0 = eq i32 "@ + vc + ", "@ + int_decimal(i as int)
                + "\n"@ + "  br i1 %cmp0, label %match0, label %next0\n"@ + "\n"@ + "match0:\n"@ + "  "@
                + expr_code(arms[0].body, params) + "\n"@ + "  ret void\n"@ + "\n"@ + "next0:\n"@
                + second_arm_code(arms, vc, params),
            Pattern::Wildcard => "  ; Wildcard pattern - always matches\n"@ + "  %result = "@ + expr_code(
                arms[0].body,
                params,
            ) + "\n"@ + "  ret i8* %result\n"@,
            _ => "  ; TODO: Implement pattern matching"@,
        }
    }
}

/// The LLVM code of a statement, with the enclosing function's
/// parameters.
pub open spec fn statement_code(s: Statement, params: Seq<(String, Type)>) -> Seq<char> {
    match s {
        Statement::Expression(e) => expr_code(e, params),
        Statement::VariableDeclaration { name, value, .. } => "  %"@ + name@ + " = "@ + expr_code(value, params),
        Statement::Return(Some(e)) => "  ret "@ + expr_code(e, params),
        Statement::Return(None) => "  ret void"@,
        Statement::Match { value, arms } => match_code(expr_code(value, params), arms@, params),
        _ => "  ; TODO: Implement statement"@,
    }
}

/// The LLVM parameter list of the first `k` parameters.
pub open spec fn params_code(ps: Seq<(String, Type)>, k: nat) -> Seq<char>
    decreases k,
{
    if k == 0 || k > ps.len() {
        Seq::empty()
    } else {
        params_code(ps, (k - 1) as nat) + (if k > 1 {
            ", "@
        } else {
            Seq::empty()
        }) + llvm_type_text(ps[k - 1].1) + " %"@ + ps[k - 1].0@
    }
}

/// The LLVM code of the first `k` statements, each on its own line.
pub open spec fn body_code(stmts: Seq<Statement>, params: Seq<(String, Type)>, k: nat) -> Seq<char>
    decreases k,
{
    if k == 0 || k > stmts.len() {
        Seq::empty()
    } else {
        body_code(stmts, params, (k - 1) as nat) + statement_code(stmts[k - 1], params) + "\n"@
    }
}

/// The LLVM definition of a function under the given name.
pub open spec fn function_code_named(f: Function, name: Seq<char>) -> Seq<char> {
    "define "@ + (match f.return_type {
        Some(t) => llvm_type_text(t),
        None => "void"@,
    }) + " @"@ + name + "(\n"@ + params_code(f.parameters@, f.parameters@.len()) + ") {\n"@ + body_code(
        f.body@,
        f.parameters@,
        f.body@.len(),
    ) + "}\n"@
}

/// The LLVM definition of a function.
pub open spec fn function_code(f: Function) -> Seq<char> {
    function_code_named(f, f.name@)
}

/// The length in bytes of a string's text.
pub open spec fn byte_len(t: String) -> nat {
    (encode_utf8(t@).len() as usize) as nat
}

/// The line that declares the constant of a string literal.
pub open spec fn string_constant_line(t: String) -> Seq<char> {
    "@.str."@ + decimal(byte_len(t)) + " = private unnamed_addr constant ["@ + decimal(byte_len(t) + 1)
        + " x i8] c\""@ + t@ + seq!['\0', '0', '"', '\n']
}

/// The constant lines of the string literals in an expression: in string
/// literals, in the operands of binary operators and in call arguments.
pub open spec fn expr_strings(e: Expression) -> Seq<char>
    decreases e, 0nat,
{
    match e {
        Expression::Literal(Literal::String(t)) => string_constant_line(t),
        Expression::BinaryOp { left, right, .. } => expr_strings(*left) + expr_strings(*right),
        Expression::FunctionCall { args, .. } => args_strings(args@, args@.len()),
        _ => Seq::empty(),
    }
}

/// The constant lines of the string literals of the first `k` arguments.
pub open spec fn args_strings(args: Seq<Expression>, k: nat) -> Seq<char>
    decreases args, k,
{
    if k == 0 || k > args.len() {
        Seq::empty()
    } else {
        args_strings(args, (k - 1) as nat) + expr_strings(args[k - 1])
    }
}

/// The constant lines of the string literals of a statement: of an
/// expression statement, of a declaration's value, of a returned value.
pub open spec fn statement_strings(st: Statement) -> Seq<char> {
    match st {
        Statement::Expression(e) => expr_strings(e),
        Statement::VariableDeclaration { value, .. } => expr_strings(value),
        Statement::Return(Some(e)) => expr_strings(e),
        _ => Seq::empty(),
    }
}

/// The constant lines of the first `k` statements.
pub open spec fn body_strings(stmts: Seq<Statement>, k: nat) -> Seq<char>
    decreases k,
{
    if k == 0 || k > stmts.len() {
        Seq::empty()
    } else {
        body_strings(stmts, (k - 1) as nat) + statement_strings(stmts[k - 1])
    }
}

/// The constant lines of the first `k` functions.
pub open spec fn functions_strings(fs: Seq<Function>, k: nat) -> Seq<char>
    decreases k,
{
    if k == 0 || k > fs.len() {
        Seq::empty()
    } else {
        functions_strings(fs, (k - 1) as nat) + body_strings(fs[k - 1].body@, fs[k - 1].body@.len())
    }
}

/// The constant lines of an item's functions.
pub open spec fn item_strings(item: Item) -> Seq<char> {
    match item {
        Item::Function(f) => body_strings(f.body@, f.body@.len()),
        Item::FunctionOverload(g) => functions_strings(g.overloads@, g.overloads@.len()),
        _ => Seq::empty(),
    }
}

/// The constant lines of the first `k` items.
pub open spec fn items_strings(items: Seq<Item>, k: nat) -> Seq<char>
    decreases k,
{
    if k == 0 || k > items.len() {
        Seq::empty()
    } else {
        items_strings(items, (k - 1) as nat) + item_strings(items[k - 1])
    }
}

/// The definitions of the first `k` overloads, each named after itself,
/// '_' and its index, with an empty line after each.
pub open spec fn overloads_code(fs: Seq<Function>, k: nat) -> Seq<char>
    decreases k,
{
    if k == 0 || k > fs.len() {
        Seq::empty()
    } else {
        overloads_code(fs, (k - 1) as nat) + function_code_named(
            fs[k - 1],
            fs[k - 1].name@ + "_"@ + decimal((k - 1) as nat),
        ) + "\n"@
    }
}

/// The definitions an item gives: a function, or each overload of a group.
pub open spec fn item_code(item: Item) -> Seq<char> {
    match item {
        Item::Function(f) => function_code(f) + "\n"@,
        Item::FunctionOverload(g) => overloads_code(g.overloads@, g.overloads@.len()),
        _ => Seq::empty(),
    }
}

/// The definitions of the first `k` items.
pub open spec fn items_code(items: Seq<Item>, k: nat) -> Seq<char>
    decreases k,
{
    if k == 0 || k > items.len() {
        Seq::empty()
    } else {
        items_code(items, (k - 1) as nat) + item_code(items[k - 1])
    }
}

/// The declarations every module of LLVM IR starts with.
pub open spec fn ir_header() -> Seq<char> {
    "declare i32 @printf(i8*, ...)\n"@ + "declare i8* @string_concat(i8*, i8*)\n"@ + "declare void @show(i8*)\n"@
        + "declare void @println(i8*)\n\n"@
}

/// The LLVM IR of a program: the declarations, the string constants, then
/// the functions.
pub open spec fn ir_code(p: Program) -> Seq<char> {
    ir_header() + items_strings(p.items@, p.items@.len()) + items_code(p.items@, p.items@.len())
}

/// Whether some parameter of this name has the string type.
fn string_param(params: &[(String, Type)], name: &String) -> (b: bool)
    ensures
        b == is_string_param(params@, name@),
{
    let mut i: usize = 0;
    while i < params.len()
        invariant
            i <= params@.len(),
            forall|k: int| 0 <= k < i ==> !((#[trigger] params@[k]).0@ == name@ && params@[k].1 is String),
        decreases params@.len() - i,
    {
        if str_equal(params[i].0.as_str(), name.as_str()) {
            if let Type::String = params[i].1 {
                return true;
            }
        }
        i = i + 1;
    }
    false
}

fn string_operand(e: &Expression, params: &[(String, Type)]) -> (b: bool)
    ensures
        b == is_string_operand(*e, params@),
{
    match e {
        Expression::Literal(Literal::String(_)) => true,
        Expression::Identifier(n) => string_param(params, n),
        _ => false,
    }
}

fn starts_with(s: &str, prefix: &str) -> (b: bool)
    ensures
        b == prefix@.is_prefix_of(s@),
{
    let v = crate::text::chars_of(s);
    let p = crate::text::chars_of(prefix);
    if p.len() > v.len() {
        return false;
    }
    let mut i: usize = 0;
    while i < p.len()
        invariant
            i <= p@.len() <= v@.len(),
            v@ == s@,
            p@ == prefix@,
            forall|k: int| 0 <= k < i ==> p@[k] == v@[k],
        decreases p@.len() - i,
    {
        if p[i] != v[i] {
            assert(v@.subrange(0, p@.len() as int)[i as int] != p@[i as int]);
            return false;
        }
        i = i + 1;
    }
    assert(p@ =~= v@.subrange(0, p@.len() as int));
    true
}

fn return_type_of(name: &str) -> (s: String)
    ensures
        s@ == call_return_type(name@),
{
    if str_equal(name, "show") || str_equal(name, "println") {
        String::from_str("void")
    } else if starts_with(name, "print_string_") {
        String::from_str("i8*")
    } else if starts_with(name, "add_") {
        String::from_str("i32")
    } else {
        String::from_str("void")
    }
}

fn push3(s: &mut String, a: &str, b: &str, c: &str)
    ensures
        final(s)@ == old(s)@ + a@ + b@ + c@,
{
    s.append(a);
    s.append(b);
    s.append(c);
}

impl LLVMCodeGenerator {
    /// The LLVM operand of a literal
    pub fn generate_literal(&self, literal: &Literal) -> (s: String)
        ensures
            s@ == literal_code(*literal),
    {
        match literal {
            Literal::Integer(i) => {
                let mut s = String::from_str("i32 ");
                append_int(&mut s, *i);
                assert(s@ == literal_code(*literal));
                s
            },
            Literal::UnsignedInteger(u) => {
                let mut s = String::from_str("i32 ");
                append_decimal(&mut s, *u);
                assert(s@ == literal_code(*literal));
                s
            },
            Literal::Float(t) => {
                let mut s = String::from_str("double ");
                s.append(t.as_str());
                assert(s@ == literal_code(*literal));
                s
            },
            Literal::Boolean(b) => if *b {
                String::from_str("i1 1")
            } else {
                String::from_str("i1 0")
            },
            Literal::String(t) => {
                let ts = t.as_str();
                let n = ts.len();
                proof {
                    assert(ts@ == t@);
                    assert(n as nat == (encode_utf8(t@).len() as usize) as nat);
                }
                let mut s = String::from_str("getelementptr inbounds ([");
                append_wide_decimal(&mut s, n as u128 + 1);
                s.append(" x i8], [");
                append_wide_decimal(&mut s, n as u128 + 1);
                s.append(" x i8]* @.str.");
                append_wide_decimal(&mut s, n as u128);
                s.append(", i32 0, i32 0)");
                assert(s@ == literal_code(*literal));
                s
            },
            Literal::Char(c) => {
                let mut s = String::from_str("i8 ");
                append_decimal(&mut s, ((*c as u32) % 256) as u64);
                assert(s@ == literal_code(*literal));
                s
            },
            Literal::Byte(b) => {
                let mut s = String::from_str("i8 ");
                append_decimal(&mut s, *b as u64);
                assert(s@ == literal_code(*literal));
                s
            },
        }
    }

    /// The LLVM code of an expression, with the enclosing function's
    /// parameters
    pub fn generate_expression(&mut self, expr: &Expression, params: &[(String, Type)]) -> (r: String)
        ensures
            r@ == expr_code(*expr, params@),
        decreases expr,
    {
        match expr {
            Expression::Literal(literal) => {
                let s = self.generate_literal(literal);
                assert(expr_code(*expr, params@) == literal_code(*literal));
                s
            },
            Expression::Identifier(name) => {
                let mut s = String::from_str("%");
                s.append(name.as_str());
                assert(s@ == expr_code(*expr, params@));
                s
            },
            Expression::BinaryOp { left, op, right } => {
                let l = self.generate_expression(&**left, params);
                let r = self.generate_expression(&**right, params);
                let strings = string_operand(&**left, params) || string_operand(&**right, params);
                let mut s = String::new();
                match op {
                    BinaryOperator::Add => if strings {
                        push3(&mut s, "call i8* @string_concat(i8* ", l.as_str(), ", i8* ");
                        s.append(r.as_str());
                        s.append(")");
                    } else {
                        push3(&mut s, "add i32 ", l.as_str(), ", ");
                        s.append(r.as_str());
                    },
                    BinaryOperator::Subtract => {
                        push3(&mut s, "sub i32 ", l.as_str(), ", ");
                        s.append(r.as_str());
                    },
                    BinaryOperator::Multiply => {
                        push3(&mut s, "mul i32 ", l.as_str(), ", ");
                        s.append(r.as_str());
                    },
                    BinaryOperator::Divide => {
                        push3(&mut s, "sdiv i32 ", l.as_str(), ", ");
                        s.append(r.as_str());
                    },
                    BinaryOperator::Equal => {
                        push3(&mut s, "eq i32 ", l.as_str(), ", ");
                        s.append(r.as_str());
                    },
                    BinaryOperator::NotEqual => {
                        push3(&mut s, "ne i32 ", l.as_str(), ", ");
                        s.append(r.as_str());
                    },
                    _ => {
                        push3(&mut s, "add i32 ", l.as_str(), ", ");
                        s.append(r.as_str());
                    },
                }
                proof {
                    assert(s@ =~= binary_code(*op, l@, r@, strings));
                    assert(s@ == expr_code(*expr, params@));
                }
                s
            },
            Expression::FunctionCall { name, args } => {
                let ret = return_type_of(name.as_str());
                let mut s = String::from_str("call ");
                push3(&mut s, ret.as_str(), " @", name.as_str());
                s.append("(");
                let ghost head = s@;
                let mut i: usize = 0;
                proof {
                    assert(decreases_to!(*expr => *args));
                    assert(s@ =~= head + args_code(args@, params@, 0));
                }
                while i < args.len()
                    invariant
                        decreases_to!(*expr => *args),
                        i <= args@.len(),
                        s@ == head + args_code(args@, params@, i as nat),
                    decreases args@.len() - i,
                {
                    proof {
                        assert(decreases_to!(*args => args@));
                        assert(decreases_to!(args@ => args@[i as int]));
                    }
                    let c = self.generate_expression(&args[i], params);
                    if i > 0 {
                        s.append(", ");
                    }
                    s.append(c.as_str());
                    proof {
                        assert(s@ =~= head + args_code(args@, params@, (i + 1) as nat));
                    }
                    i = i + 1;
                }
                s.append(")");
                proof {
                    assert(s@ =~= "call "@ + call_return_type(name@) + " @"@ + name@ + "("@ + args_code(
                        args@,
                        params@,
                        args@.len(),
                    ) + ")"@);
                }
                s
            },
            _ => {
                let s = String::from_str("  ; TODO: Implement expression");
                assert(s@ == expr_code(*expr, params@));
                s
            },
        }
    }

    /// The code of the second arm of a match whose first arm compared an
    /// integer, or the end when there is no second arm.
    fn generate_second_arm(&mut self, arms: &Vec<MatchArm>, vc: &String, params: &[(String, Type)]) -> (s: String)
        ensures
            s@ == second_arm_code(arms@, vc@, params@),
    {
        if arms.len() > 1 {
            match &arms[1].pattern {
                Pattern::Wildcard => {
                    let body = self.generate_expression(&arms[1].body, params);
                    let mut s = String::from_str("  ; Wildcard pattern - default case\n");
                    push3(&mut s, "  ", body.as_str(), "\n");
                    s.append("  ret void\n");
                    proof {
                        assert(s@ =~= second_arm_code(arms@, vc@, params@));
                    }
                    s
                },
                Pattern::Literal(Literal::Integer(j)) => {
                    let body = self.generate_expression(&arms[1].body, params);
                    let mut s = String::from_str("  %cmp1 = eq i32 ");
                    s.append(vc.as_str());
                    s.append(", ");
                    append_int(&mut s, *j);
                    push3(&mut s, "\n", "  br i1 %cmp1, label %match1, label %next1\n", "\n");
                    push3(&mut s, "match1:\n", "  ", body.as_str());
                    push3(&mut s, "\n", "  ret void\n", "\n");
                    push3(&mut s, "next1:\n", "  ; TODO: Handle more patterns\n", "  ret i8* null\n");
                    proof {
                        assert(s@ =~= second_arm_code(arms@, vc@, params@));
                    }
                    s
                },
                _ => String::from_str("  ; TODO: Handle pattern\n"),
            }
        } else {
            let mut s = String::from_str("  ; No more patterns\n");
            s.append("  ret i8* null\n");
            proof {
                assert(s@ =~= second_arm_code(arms@, vc@, params@));
            }
            s
        }
    }

    /// The LLVM code of a statement, with the enclosing function's
    /// parameters
    pub fn generate_statement(&mut self, stmt: &Statement, params: &[(String, Type)]) -> (r: String)
        ensures
            r@ == statement_code(*stmt, params@),
    {
        match stmt {
            Statement::Expression(expr) => self.generate_expression(expr, params),
            Statement::VariableDeclaration { name, value, .. } => {
                let code = self.generate_expression(value, params);
                let mut s = String::from_str("  %");
                push3(&mut s, name.as_str(), " = ", code.as_str());
                s
            },
            Statement::Return(Some(expr)) => {
                let code = self.generate_expression(expr, params);
                let mut s = String::from_str("  ret ");
                s.append(code.as_str());
                s
            },
            Statement::Return(None) => String::from_str("  ret void"),
            Statement::Match { value, arms } => {
                let vc = self.generate_expression(value, params);
                if arms.len() == 0 {
                    return String::new();
                }
                match &arms[0].pattern {
                    Pattern::Literal(Literal::Integer(i)) => {
                        let mut s = String::from_str("  %cmp0 = eq i32 ");
                        s.append(vc.as_str());
                    s.append(", ");
                        append_int(&mut s, *i);
                        push3(&mut s, "\n", "  br i1 %cmp0, label %match0, label %next0\n", "\n");
                        let body = self.generate_expression(&arms[0].body, params);
                        push3(&mut s, "match0:\n", "  ", body.as_str());
                        push3(&mut s, "\n", "  ret void\n", "\n");
                        s.append("next0:\n");
                        let rest = self.generate_second_arm(arms, &vc, params);
                        s.append(rest.as_str());
                        proof {
                            assert(s@ =~= match_code(vc@, arms@, params@));
                        }
                        s
                    },
                    Pattern::Wildcard => {
                        let body = self.generate_expression(&arms[0].body, params);
                        let mut s = String::from_str("  ; Wildcard pattern - always matches\n");
                        push3(&mut s, "  %result = ", body.as_str(), "\n");
                        s.append("  ret i8* %result\n");
                        proof {
                            assert(s@ =~= match_code(vc@, arms@, params@));
                        }
                        s
                    },
                    _ => String::from_str("  ; TODO: Implement pattern matching"),
                }
            },
            _ => String::from_str("  ; TODO: Implement statement"),
        }
    }
}

impl LLVMCodeGenerator {
    /// The LLVM definition of a function
    pub fn generate_function(&mut self, func: &Function) -> (r: String)
        ensures
            r@ == function_code(*func),
    {
        self.generate_function_named(func, func.name.as_str())
    }

    /// The LLVM definition of a function under the given name.
    fn generate_function_named(&mut self, func: &Function, name: &str) -> (r: String)
        ensures
            r@ == function_code_named(*func, name@),
    {
        let mut s = String::from_str("define ");
        match &func.return_type {
            Some(t) => {
                let tt = self.type_to_llvm(t);
                s.append(tt.as_str());
            },
            None => s.append("void"),
        }
        push3(&mut s, " @", name, "(\n");
        let ghost head = s@;
        let ps = &func.parameters;
        let mut i: usize = 0;
        assert(s@ =~= head + params_code(ps@, 0));
        while i < ps.len()
            invariant
                i <= ps@.len(),
                s@ == head + params_code(ps@, i as nat),
            decreases ps@.len() - i,
        {
            if i > 0 {
                s.append(", ");
            }
            let tt = self.type_to_llvm(&ps[i].1);
            push3(&mut s, tt.as_str(), " %", ps[i].0.as_str());
            proof {
                assert(s@ =~= head + params_code(ps@, (i + 1) as nat));
            }
            i = i + 1;
        }
        s.append(") {\n");
        let ghost mid = s@;
        let body = &func.body;
        let mut j: usize = 0;
        assert(s@ =~= mid + body_code(body@, ps@, 0));
        while j < body.len()
            invariant
                j <= body@.len(),
                s@ == mid + body_code(body@, ps@, j as nat),
            decreases body@.len() - j,
        {
            let code = self.generate_statement(&body[j], ps.as_slice());
            s.append(code.as_str());
            s.append("\n");
            proof {
                assert(s@ =~= mid + body_code(body@, ps@, (j + 1) as nat));
            }
            j = j + 1;
        }
        s.append("}\n");
        proof {
            assert(s@ =~= function_code_named(*func, name@));
        }
        s
    }
}

/// Generators of code for a whole program.
pub trait CodeGenerator {
    /// The code of a program
    fn generate(&mut self, program: &Program) -> Result<String, String>;
}

impl LLVMCodeGenerator {
    /// Appends the constant line of a string literal.
    fn push_string_constant(&self, out: &mut String, t: &String)
        ensures
            final(out)@ == old(out)@ + string_constant_line(*t),
    {
        let ts = t.as_str();
        let n = ts.len();
        proof {
            assert(ts@ == t@);
        }
        out.append("@.str.");
        append_wide_decimal(out, n as u128);
        out.append(" = private unnamed_addr constant [");
        append_wide_decimal(out, n as u128 + 1);
        out.append(" x i8] c\"");
        out.append(ts);
        push_char(out, '\0');
        push_char(out, '0');
        push_char(out, '"');
        push_char(out, '\n');
        proof {
            assert(final(out)@ =~= old(out)@ + string_constant_line(*t));
        }
    }

    /// Appends the constant lines of the string literals of an expression.
    fn collect_strings_in_expression(&self, expr: &Expression, out: &mut String)
        ensures
            final(out)@ == old(out)@ + expr_strings(*expr),
        decreases expr,
    {
        match expr {
            Expression::Literal(Literal::String(t)) => self.push_string_constant(out, t),
            Expression::BinaryOp { left, right, .. } => {
                self.collect_strings_in_expression(&**left, out);
                self.collect_strings_in_expression(&**right, out);
                proof {
                    assert(final(out)@ =~= old(out)@ + expr_strings(*expr));
                }
            },
            Expression::FunctionCall { args, .. } => {
                let ghost start = out@;
                let mut i: usize = 0;
                proof {
                    assert(decreases_to!(*expr => *args));
                    assert(out@ =~= start + args_strings(args@, 0));
                }
                while i < args.len()
                    invariant
                        decreases_to!(*expr => *args),
                        i <= args@.len(),
                        out@ == start + args_strings(args@, i as nat),
                    decreases args@.len() - i,
                {
                    proof {
                        assert(decreases_to!(*args => args@));
                        assert(decreases_to!(args@ => args@[i as int]));
                    }
                    self.collect_strings_in_expression(&args[i], out);
                    proof {
                        assert(out@ =~= start + args_strings(args@, (i + 1) as nat));
                    }
                    i = i + 1;
                }
            },
            _ => {
                assert(final(out)@ =~= old(out)@ + expr_strings(*expr));
            },
        }
    }

    /// Appends the constant lines of the string literals of a function's
    /// statements.
    fn collect_strings_in_function(&self, func: &Function, out: &mut String)
        ensures
            final(out)@ == old(out)@ + body_strings(func.body@, func.body@.len()),
    {
        let ghost start = out@;
        let body = &func.body;
        let mut i: usize = 0;
        assert(out@ =~= start + body_strings(body@, 0));
        while i < body.len()
            invariant
                i <= body@.len(),
                out@ == start + body_strings(body@, i as nat),
            decreases body@.len() - i,
        {
            match &body[i] {
                Statement::Expression(e) => self.collect_strings_in_expression(e, out),
                Statement::VariableDeclaration { value, .. } => self.collect_strings_in_expression(value, out),
                Statement::Return(Some(e)) => self.collect_strings_in_expression(e, out),
                _ => {},
            }
            proof {
                assert(out@ =~= start + body_strings(body@, (i + 1) as nat));
            }
            i = i + 1;
        }
    }

    /// Appends the constant lines of the string literals of a program's
    /// functions.
    fn collect_string_literals(&self, program: &Program, out: &mut String)
        ensures
            final(out)@ == old(out)@ + items_strings(program.items@, program.items@.len()),
    {
        let ghost start = out@;
        let items = &program.items;
        let mut i: usize = 0;
        assert(out@ =~= start + items_strings(items@, 0));
        while i < items.len()
            invariant
                i <= items@.len(),
                out@ == start + items_strings(items@, i as nat),
            decreases items@.len() - i,
        {
            let ghost before = out@;
            match &items[i] {
                Item::Function(f) => self.collect_strings_in_function(f, out),
                Item::FunctionOverload(g) => {
                    let fs = &g.overloads;
                    let mut j: usize = 0;
                    assert(out@ =~= before + functions_strings(fs@, 0));
                    while j < fs.len()
                        invariant
                            j <= fs@.len(),
                            out@ == before + functions_strings(fs@, j as nat),
                        decreases fs@.len() - j,
                    {
                        self.collect_strings_in_function(&fs[j], out);
                        proof {
                            assert(out@ =~= before + functions_strings(fs@, (j + 1) as nat));
                        }
                        j = j + 1;
                    }
                },
                _ => {},
            }
            proof {
                assert(out@ =~= start + items_strings(items@, (i + 1) as nat));
            }
            i = i + 1;
        }
    }

    /// The LLVM IR of a program: the declarations, the constants of its
    /// string literals, then its functions, each overload of a group named
    /// after itself, '_' and its index
    pub fn generate_ir(&mut self, program: &Program) -> (r: String)
        ensures
            r@ == ir_code(*program),
    {
        let mut out = String::from_str("declare i32 @printf(i8*, ...)\n");
        out.append("declare i8* @string_concat(i8*, i8*)\n");
        out.append("declare void @show(i8*)\n");
        out.append("declare void @println(i8*)\n\n");
        self.collect_string_literals(program, &mut out);
        let ghost mid = out@;
        let items = &program.items;
        let mut i: usize = 0;
        assert(out@ =~= mid + items_code(items@, 0));
        while i < items.len()
            invariant
                i <= items@.len(),
                out@ == mid + items_code(items@, i as nat),
            decreases items@.len() - i,
        {
            let ghost before = out@;
            match &items[i] {
                Item::Function(f) => {
                    let code = self.generate_function(f);
                    out.append(code.as_str());
                    out.append("\n");
                },
                Item::FunctionOverload(g) => {
                    let fs = &g.overloads;
                    let mut j: usize = 0;
                    assert(out@ =~= before + overloads_code(fs@, 0));
                    while j < fs.len()
                        invariant
                            j <= fs@.len(),
                            out@ == before + overloads_code(fs@, j as nat),
                        decreases fs@.len() - j,
                    {
                        let mut name = String::new();
                        name.append(fs[j].name.as_str());
                        name.append("_");
                        append_decimal(&mut name, j as u64);
                        let code = self.generate_function_named(&fs[j], name.as_str());
                        out.append(code.as_str());
                        out.append("\n");
                        proof {
                            assert(name@ =~= fs@[j as int].name@ + "_"@ + decimal(j as nat));
                            assert(out@ =~= before + overloads_code(fs@, (j + 1) as nat));
                        }
                        j = j + 1;
                    }
                },
                _ => {},
            }
            proof {
                assert(out@ =~= mid + items_code(items@, (i + 1) as nat));
            }
            i = i + 1;
        }
        proof {
            assert(out@ =~= ir_code(*program));
        }
        out
    }
}

impl CodeGenerator for LLVMCodeGenerator {
    /// The LLVM IR of a program; it never fails
    fn generate(&mut self, program: &Program) -> (r: Result<String, String>)
        ensures
            r matches Ok(s) && s@ == ir_code(*program),
    {
        Ok(self.generate_ir(program))
    }
}

impl CodeGenerator for WASMCodeGenerator {
    /// WebAssembly is not generated yet: the text says so
    fn generate(&mut self, program: &Program) -> (r: Result<String, String>)
        ensures
            r matches Ok(s) && s@ == ";; WASM code generation - TODO"@,
    {
        Ok(String::from_str(";; WASM code generation - TODO"))
    }
}

impl CodeGenerator for BytecodeGenerator {
    /// Bytecode is not generated yet: the text says so
    fn generate(&mut self, program: &Program) -> (r: Result<String, String>)
        ensures
            r matches Ok(s) && s@ == ";; Bytecode generation - TODO"@,
    {
        Ok(String::from_str(";; Bytecode generation - TODO"))
    }
}

/// Integer arithmetic is lowered to the LLVM instruction of its operator,
/// applied to the operands' codes in order: `+` to `add`, `-` to `sub`,
/// `*` to `mul` and `/` to `sdiv`, each on `i32`; so no two of these
/// operators give the same code. `==` and `!=` are written as `eq` and `ne`
/// comparisons on `i32`. `+` on a string operand is a call of
/// `string_concat` instead.
pub proof fn lemma_arithmetic_instructions(left: Expression, right: Expression, params: Seq<(String, Type)>)
    ensures
        ({
            let l = expr_code(left, params);
            let r = expr_code(right, params);
            let code = |op: BinaryOperator| expr_code(
                Expression::BinaryOp { left: Box::new(left), op, right: Box::new(right) },
                params,
            );
            let strings = is_string_operand(left, params) || is_string_operand(right, params);
            &&& !strings ==> code(BinaryOperator::Add) == "add i32 "@ + l + ", "@ + r
            &&& strings ==> code(BinaryOperator::Add) == "call i8* @string_concat(i8* "@ + l + ", i8* "@ + r + ")"@
            &&& code(BinaryOperator::Subtract) == "sub i32 "@ + l + ", "@ + r
            &&& code(BinaryOperator::Multiply) == "mul i32 "@ + l + ", "@ + r
            &&& code(BinaryOperator::Divide) == "sdiv i32 "@ + l + ", "@ + r
            &&& code(BinaryOperator::Equal) == "eq i32 "@ + l + ", "@ + r
            &&& code(BinaryOperator::NotEqual) == "ne i32 "@ + l + ", "@ + r
            &&& code(BinaryOperator::Equal) != code(BinaryOperator::NotEqual)
            &&& code(BinaryOperator::Subtract) != code(BinaryOperator::Multiply)
            &&& code(BinaryOperator::Multiply) != code(BinaryOperator::Divide)
            &&& code(BinaryOperator::Subtract) != code(BinaryOperator::Divide)
            &&& code(BinaryOperator::Add) != code(BinaryOperator::Multiply)
            &&& code(BinaryOperator::Add) != code(BinaryOperator::Subtract)
            &&& code(BinaryOperator::Add) != code(BinaryOperator::Divide)
        }),
{
    let l = expr_code(left, params);
    let r = expr_code(right, params);
    reveal_strlit("add i32 ");
    reveal_strlit("sub i32 ");
    reveal_strlit("mul i32 ");
    reveal_strlit("sdiv i32 ");
    reveal_strlit("eq i32 ");
    reveal_strlit("ne i32 ");
    reveal_strlit("call i8* @string_concat(i8* ");
    let add = "add i32 "@ + l + ", "@ + r;
    let sub = "sub i32 "@ + l + ", "@ + r;
    let mul = "mul i32 "@ + l + ", "@ + r;
    let div = "sdiv i32 "@ + l + ", "@ + r;
    let cat = "call i8* @string_concat(i8* "@ + l + ", i8* "@ + r + ")"@;
    assert(add[0] == 'a' && sub[0] == 's' && mul[0] == 'm' && div[0] == 's' && cat[0] == 'c');
    assert(sub[1] == 'u' && div[1] == 'd');
    let eq = "eq i32 "@ + l + ", "@ + r;
    let ne = "ne i32 "@ + l + ", "@ + r;
    assert(eq[0] == 'e' && ne[0] == 'n');
}

} // verus!
