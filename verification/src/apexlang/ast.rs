//! The syntax tree of ApexLang programs.

use vstd::prelude::*;

verus! {

/// A program: its imports, then its functions.
#[derive(Debug)]
pub struct Program {
    pub imports: Vec<Import>,
    pub functions: Vec<Function>,
}

/// An import at the head of a program.
#[derive(Debug, Clone)]
pub struct Import {
    pub kind: ImportKind,
}

/// What an import brings in: a whole module, or one symbol of a module;
/// either under an alias.
#[derive(Debug, Clone)]
pub enum ImportKind {
    Module { name: String, alias: Option<String> },
    Symbol { module: String, symbol: String, alias: Option<String> },
}

/// A function: its name, its parameters and its statements.
#[derive(Debug)]
pub struct Function {
    pub name: String,
    pub params: Vec<String>,
    pub body: Vec<Statement>,
}

/// A statement of a function body.
#[derive(Debug)]
pub enum Statement {
    Let { name: String, mutable: bool, value: Expr },
    Assignment { name: String, value: Expr },
    Expr(Expr),
    Return(Expr),
}

/// An expression.
#[derive(Debug)]
pub enum Expr {
    Literal(Value),
    Path(Path),
    Unary(UnaryOp, Box<Expr>),
    Binary(Box<Expr>, BinaryOp, Box<Expr>),
    Call { callee: Box<Expr>, arguments: Vec<Expr> },
}

/// A name, possibly qualified by module names (`math.sqrt`).
#[derive(Debug, Clone)]
pub struct Path {
    pub segments: Vec<String>,
}

impl Path {
    /// A path of one segment
    pub fn single(name: String) -> (p: Self)
        ensures
            p.segments@.len() == 1 && p.segments@[0] == name,
    {
        Self { segments: vec![name] }
    }

    /// A path of these segments
    pub fn join(segments: Vec<String>) -> (p: Self)
        ensures
            p.segments@ == segments@,
    {
        Self { segments }
    }
}

/// A prefix operator.
#[derive(Debug, Clone, Copy, PartialEq, Eq)]
pub enum UnaryOp {
    Plus,
    Minus,
    Not,
}

/// An infix operator.
#[derive(Debug, Clone, Copy, PartialEq, Eq)]
pub enum BinaryOp {
    Add,
    Sub,
    Mul,
    Div,
    Mod,
    Eq,
    Ne,
    Lt,
    Le,
    Gt,
    Ge,
    And,
    Or,
}

/// A literal value of a program.
///
/// An integer is kept as its decimal text (with no leading zeros), and a
/// number with a fraction as the text it was written with; evaluation turns
/// them into big integers and floating-point numbers.
#[derive(Debug)]
pub enum Value {
    Int(String),
    Number(String),
    Bool(bool),
    String(String),
    Tuple(Vec<Value>),
}

/// Whether every digit of a number's text is zero.
pub open spec fn all_zero_digits(s: Seq<char>) -> bool {
    forall|i: int| 0 <= i < s.len() ==> s[i] == '0' || s[i] == '.'
}

fn zero_digits(s: &str) -> (b: bool)
    ensures
        b == all_zero_digits(s@),
{
    let v = crate::text::chars_of(s);
    let mut i: usize = 0;
    while i < v.len()
        invariant
            i <= v@.len(),
            v@ == s@,
            forall|j: int| 0 <= j < i ==> v@[j] == '0' || v@[j] == '.',
        decreases v@.len() - i,
    {
        if v[i] != '0' && v[i] != '.' {
            return false;
        }
        i = i + 1;
    }
    true
}

/// Whether a value counts as true: a true boolean, a non-zero number, a
/// non-empty string or tuple.
pub open spec fn truthy(v: Value) -> bool {
    match v {
        Value::Bool(b) => b,
        Value::Int(t) => t@ != "0"@,
        Value::Number(t) => !all_zero_digits(t@),
        Value::String(t) => t@.len() != 0,
        Value::Tuple(vs) => vs@.len() != 0,
    }
}

impl Value {
    /// Whether the value counts as true
    pub fn is_truthy(&self) -> (b: bool)
        ensures
            b == truthy(*self),
    {
        match self {
            Value::Bool(b) => *b,
            Value::Int(t) => {
                let v = crate::text::chars_of(t.as_str());
                let z = crate::text::chars_of("0");
                !crate::text::chars_equal(&v, &z)
            },
            Value::Number(t) => !zero_digits(t.as_str()),
            Value::String(t) => !t.as_str().is_empty(),
            Value::Tuple(vs) => vs.len() != 0,
        }
    }
}

/// A literal value by its values.
pub enum ValueV {
    Int(Seq<char>),
    Number(Seq<char>),
    Bool(bool),
    Str(Seq<char>),
    Tuple(Seq<ValueV>),
}

/// An expression by its values.
pub enum ExprV {
    Literal(ValueV),
    Path(Seq<Seq<char>>),
    Unary(UnaryOp, Box<ExprV>),
    Binary(Box<ExprV>, BinaryOp, Box<ExprV>),
    Call(Box<ExprV>, Seq<ExprV>),
}

/// A statement by its values.
pub enum StatementV {
    Let { name: Seq<char>, mutable: bool, value: ExprV },
    Assignment { name: Seq<char>, value: ExprV },
    Expr(ExprV),
    Return(ExprV),
}

/// A function by its values.
pub struct FunctionV {
    pub name: Seq<char>,
    pub params: Seq<Seq<char>>,
    pub body: Seq<StatementV>,
}

/// An import by its values.
pub enum ImportV {
    Module { name: Seq<char>, alias: Option<Seq<char>> },
    Symbol { module: Seq<char>, symbol: Seq<char>, alias: Option<Seq<char>> },
}

/// A program by its values.
pub struct ProgramV {
    pub imports: Seq<ImportV>,
    pub functions: Seq<FunctionV>,
}

/// The texts of strings.
pub open spec fn texts(v: Seq<String>) -> Seq<Seq<char>> {
    v.map_values(|s: String| s@)
}

/// The text of an optional string.
pub open spec fn opt_text(o: Option<String>) -> Option<Seq<char>> {
    match o {
        Some(s) => Some(s@),
        None => None,
    }
}

pub open spec fn value_v(v: Value) -> ValueV
    decreases v,
{
    match v {
        Value::Int(t) => ValueV::Int(t@),
        Value::Number(t) => ValueV::Number(t@),
        Value::Bool(b) => ValueV::Bool(b),
        Value::String(t) => ValueV::Str(t@),
        Value::Tuple(vs) => ValueV::Tuple(
            Seq::new(
                vs@.len(),
                |i: int|
                    if 0 <= i < vs@.len() {
                        value_v(vs@[i])
                    } else {
                        ValueV::Bool(false)
                    },
            ),
        ),
    }
}

pub open spec fn expr_v(e: Expr) -> ExprV
    decreases e,
{
    match e {
        Expr::Literal(v) => ExprV::Literal(value_v(v)),
        Expr::Path(p) => ExprV::Path(texts(p.segments@)),
        Expr::Unary(op, inner) => ExprV::Unary(op, Box::new(expr_v(*inner))),
        Expr::Binary(l, op, r) => ExprV::Binary(Box::new(expr_v(*l)), op, Box::new(expr_v(*r))),
        Expr::Call { callee, arguments } => ExprV::Call(
            Box::new(expr_v(*callee)),
            Seq::new(
                arguments@.len(),
                |i: int|
                    if 0 <= i < arguments@.len() {
                        expr_v(arguments@[i])
                    } else {
                        ExprV::Path(Seq::empty())
                    },
            ),
        ),
    }
}

/// The values of expressions.
pub open spec fn exprs_v(v: Seq<Expr>) -> Seq<ExprV> {
    v.map_values(|e: Expr| expr_v(e))
}

pub open spec fn statement_v(s: Statement) -> StatementV {
    match s {
        Statement::Let { name, mutable, value } => StatementV::Let {
            name: name@,
            mutable,
            value: expr_v(value),
        },
        Statement::Assignment { name, value } => StatementV::Assignment {
            name: name@,
            value: expr_v(value),
        },
        Statement::Expr(e) => StatementV::Expr(expr_v(e)),
        Statement::Return(e) => StatementV::Return(expr_v(e)),
    }
}

pub open spec fn function_v(f: Function) -> FunctionV {
    FunctionV {
        name: f.name@,
        params: texts(f.params@),
        body: f.body@.map_values(|s: Statement| statement_v(s)),
    }
}

pub open spec fn import_v(i: Import) -> ImportV {
    match i.kind {
        ImportKind::Module { name, alias } => ImportV::Module { name: name@, alias: opt_text(alias) },
        ImportKind::Symbol { module, symbol, alias } => ImportV::Symbol {
            module: module@,
            symbol: symbol@,
            alias: opt_text(alias),
        },
    }
}

pub open spec fn program_v(p: Program) -> ProgramV {
    ProgramV {
        imports: p.imports@.map_values(|i: Import| import_v(i)),
        functions: p.functions@.map_values(|f: Function| function_v(f)),
    }
}

/// Text with its leading zeros taken off, keeping one digit.
pub open spec fn strip_leading_zeros(t: Seq<char>) -> Seq<char>
    decreases t.len(),
{
    if t.len() > 1 && t[0] == '0' {
        strip_leading_zeros(t.drop_first())
    } else {
        t
    }
}

/// Text with its trailing zeros taken off.
pub open spec fn strip_trailing_zeros(t: Seq<char>) -> Seq<char>
    decreases t.len(),
{
    if t.len() > 0 && t.last() == '0' {
        strip_trailing_zeros(t.drop_last())
    } else {
        t
    }
}

/// How a number literal is shown: its integer part without leading zeros
/// ("0" when empty), and its fraction without trailing zeros, the point
/// left out when no fraction remains ("1.50" shows as "1.5", "2.0" as "2").
pub open spec fn number_text(t: Seq<char>) -> Seq<char> {
    let d = crate::text::first_index_of(t, '.');
    let whole = if d < 0 { t } else { t.subrange(0, d) };
    let fraction = if d < 0 { Seq::empty() } else { strip_trailing_zeros(t.subrange(d + 1, t.len() as int)) };
    let w = strip_leading_zeros(whole);
    let w = if w.len() == 0 { "0"@ } else { w };
    if fraction.len() == 0 { w } else { w + "."@ + fraction }
}

/// How a value is shown: an integer by its decimal text, a number as
/// `number_text` says, a string in double quotes, a tuple as its items in
/// parentheses separated by ", ".
pub open spec fn value_text(v: ValueV) -> Seq<char>
    decreases v,
{
    match v {
        ValueV::Int(t) => t,
        ValueV::Number(t) => number_text(t),
        ValueV::Bool(b) => if b { "true"@ } else { "false"@ },
        ValueV::Str(t) => "\""@ + t + "\""@,
        ValueV::Tuple(vs) => "("@ + values_text(vs) + ")"@,
    }
}

/// Values shown one after the other, separated by ", ".
pub open spec fn values_text(vs: Seq<ValueV>) -> Seq<char>
    decreases vs,
{
    if vs.len() == 0 {
        Seq::empty()
    } else if vs.len() == 1 {
        value_text(vs[0])
    } else {
        values_text(vs.drop_last()) + ", "@ + value_text(vs.last())
    }
}

/// The start of `v[from..to]` once its leading zeros are skipped, keeping
/// one digit.
fn skip_leading_zeros(v: &Vec<char>, from: usize, to: usize) -> (a: usize)
    requires
        from <= to <= v@.len(),
    ensures
        from <= a <= to,
        v@.subrange(a as int, to as int) == strip_leading_zeros(v@.subrange(from as int, to as int)),
{
    let mut a = from;
    while to - a > 1 && v[a] == '0'
        invariant
            from <= a <= to <= v@.len(),
            strip_leading_zeros(v@.subrange(from as int, to as int)) == strip_leading_zeros(v@.subrange(a as int, to as int)),
        decreases to - a,
    {
        proof {
            assert(v@.subrange(a as int, to as int).drop_first() =~= v@.subrange(a + 1, to as int));
        }
        a = a + 1;
    }
    a
}

/// The end of `v[from..to]` once its trailing zeros are dropped.
fn drop_trailing_zeros(v: &Vec<char>, from: usize, to: usize) -> (b: usize)
    requires
        from <= to <= v@.len(),
    ensures
        from <= b <= to,
        v@.subrange(from as int, b as int) == strip_trailing_zeros(v@.subrange(from as int, to as int)),
{
    let mut b = to;
    while b > from && v[b - 1] == '0'
        invariant
            from <= b <= to <= v@.len(),
            strip_trailing_zeros(v@.subrange(from as int, to as int)) == strip_trailing_zeros(v@.subrange(from as int, b as int)),
        decreases b - from,
    {
        proof {
            assert(v@.subrange(from as int, b as int).drop_last() =~= v@.subrange(from as int, b - 1));
        }
        b = b - 1;
    }
    b
}

/// How a number literal is shown
fn number_display(t: &str) -> (s: String)
    ensures
        s@ == number_text(t@),
{
    let c = crate::text::chars_of(t);
    let n = c.len();
    proof {
        assert(c@.skip(0) =~= c@);
    }
    let dot = crate::text::find_char(&c, 0, '.');
    let whole_end = match dot {
        Some(d) => d,
        None => n,
    };
    proof {
        if dot is None {
            assert(c@.subrange(0, n as int) =~= c@);
        }
    }
    let a = skip_leading_zeros(&c, 0, whole_end);
    let mut s = if a == whole_end {
        String::from_str("0")
    } else {
        crate::text::string_of(&c, a, whole_end)
    };
    proof {
        if a == whole_end {
            reveal_strlit("0");
        }
    }
    match dot {
        Some(d) => {
            let b = drop_trailing_zeros(&c, d + 1, n);
            if b > d + 1 {
                s.append(".");
                let fraction = crate::text::string_of(&c, d + 1, b);
                s.append(fraction.as_str());
            }
        },
        None => {},
    }
    s
}

impl Value {
    /// How the value is shown
    pub fn to_string(&self) -> (s: String)
        ensures
            s@ == value_text(value_v(*self)),
        decreases self,
    {
        match self {
            Value::Int(t) => t.clone(),
            Value::Number(t) => number_display(t.as_str()),
            Value::Bool(b) => {
                if *b {
                    String::from_str("true")
                } else {
                    String::from_str("false")
                }
            },
            Value::String(t) => {
                let mut s = String::from_str("\"");
                s.append(t.as_str());
                s.append("\"");
                s
            },
            Value::Tuple(vs) => {
                let ghost tv = match value_v(*self) {
                    ValueV::Tuple(x) => x,
                    _ => Seq::empty(),
                };
                let mut s = String::from_str("(");
                let ghost open = s@;
                let mut i: usize = 0;
                proof {
                    assert(tv.take(0) =~= Seq::<ValueV>::empty());
                    assert(s@ =~= open + values_text(tv.take(0)));
                }
                while i < vs.len()
                    invariant
                        i <= vs@.len(),
                        *self == Value::Tuple(*vs),
                        tv.len() == vs@.len(),
                        forall|j: int| 0 <= j < vs@.len() ==> tv[j] == value_v(#[trigger] vs@[j]),
                        s@ == open + values_text(tv.take(i as int)),
                    decreases vs@.len() - i,
                {
                    if i > 0 {
                        s.append(", ");
                    }
                    proof {
                        assert(*vs == self->Tuple_0);
                        assert(decreases_to!(*self => self->Tuple_0));
                        assert(decreases_to!(*vs => vs@));
                        assert(decreases_to!(vs@ => vs@[i as int]));
                        assert(decreases_to!(*self => vs@[i as int]));
                    }
                    let item = vs[i].to_string();
                    s.append(item.as_str());
                    proof {
                        let t = tv.take(i + 1);
                        assert(t.drop_last() =~= tv.take(i as int));
                        assert(t.last() == value_v(vs@[i as int]));
                        if i == 0 {
                            assert(t.len() == 1);
                        }
                    }
                    i = i + 1;
                }
                s.append(")");
                proof {
                    assert(tv.take(i as int) =~= tv);
                }
                s
            },
        }
    }
}

} // verus!
