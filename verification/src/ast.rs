//! The syntax tree of ApexForge NightScript: source positions, type
//! annotations, operators and the declarations of structs, enums and traits.

use vstd::prelude::*;

verus! {

/// Where a node stands in the source: byte offsets, line and column.
#[derive(Debug, Clone, Copy, PartialEq, Eq)]
pub struct Span {
    pub start: usize,
    pub end: usize,
    pub line: usize,
    pub column: usize,
}

impl Span {
    /// A span of these offsets, at this line and column
    pub fn new(start: usize, end: usize, line: usize, column: usize) -> (s: Self)
        ensures
            s == (Span { start, end, line, column }),
    {
        Self { start, end, line, column }
    }
}

/// Type annotations.
#[derive(Debug)]
pub enum Type {
    I8,
    I16,
    I32,
    I64,
    I128,
    Isize,
    U8,
    U16,
    U32,
    U64,
    U128,
    Usize,
    F32,
    F64,
    Bool,
    String,
    Byte,
    Char,
    Decimal,
    BigInt,
    Complex,
    Rational,
    Array(Box<Type>),
    SetOf(Box<Type>),
    Queue(Box<Type>),
    Stack(Box<Type>),
    LinkedList(Box<Type>),
    RingBuffer(Box<Type>),
    CircularBuffer(Box<Type>),
    MapOf(Box<Type>, Box<Type>),
    Tuple(Vec<Type>),
    Option(Box<Type>),
    Result(Box<Type>, Box<Type>),
    UUID,
    Email,
    URL,
    IPAddress,
    MACAddress,
    Date,
    Duration,
    Timeline(Box<Type>),
    Holo(Box<Type>),
    Chain(Box<Type>),
    Echo(Box<Type>),
    Portal(Box<Type>),
    Mirror(Box<Type>),
    Trace(Box<Type>),
    Dream(Box<Type>),
    Fractal(Box<Type>),
    Paradox(Box<Type>),
    Anchor(Box<Type>),
    CVar(Box<Type>),
    Reactiv(Box<Type>),
    Function(Vec<Type>, Box<Type>),
    Closure(Vec<Type>, Box<Type>),
    Actor(Vec<Type>, Box<Type>),
    Generic(String),
    UserDefined(String),
    Reference(Box<Type>),
    MutableReference(Box<Type>),
    RawPointer(Box<Type>),
}

/// How a type is written: primitives in lower case, other types by name
/// with their parameters in angle brackets, tuples in parentheses, function
/// types as `fn(a, b) -> r`.
pub open spec fn type_text(t: Type) -> Seq<char>
    decreases t,
{
    match t {
        Type::I8 => "i8"@,
        Type::I16 => "i16"@,
        Type::I32 => "i32"@,
        Type::I64 => "i64"@,
        Type::I128 => "i128"@,
        Type::Isize => "isize"@,
        Type::U8 => "u8"@,
        Type::U16 => "u16"@,
        Type::U32 => "u32"@,
        Type::U64 => "u64"@,
        Type::U128 => "u128"@,
        Type::Usize => "usize"@,
        Type::F32 => "f32"@,
        Type::F64 => "f64"@,
        Type::Bool => "bool"@,
        Type::String => "string"@,
        Type::Byte => "byte"@,
        Type::Char => "char"@,
        Type::Decimal => "Decimal"@,
        Type::BigInt => "BigInt"@,
        Type::Complex => "Complex"@,
        Type::Rational => "Rational"@,
        Type::Array(inner) => "Array<"@ + type_text(*inner) + ">"@,
        Type::SetOf(inner) => "Set<"@ + type_text(*inner) + ">"@,
        Type::Queue(inner) => "Queue<"@ + type_text(*inner) + ">"@,
        Type::Stack(inner) => "Stack<"@ + type_text(*inner) + ">"@,
        Type::LinkedList(inner) => "LinkedList<"@ + type_text(*inner) + ">"@,
        Type::RingBuffer(inner) => "RingBuffer<"@ + type_text(*inner) + ">"@,
        Type::CircularBuffer(inner) => "CircularBuffer<"@ + type_text(*inner) + ">"@,
        Type::MapOf(key, value) => "Map<"@ + type_text(*key) + ", "@ + type_text(*value) + ">"@,
        Type::Tuple(types) => "("@ + types_text(types@) + ")"@,
        Type::Option(inner) => "Option<"@ + type_text(*inner) + ">"@,
        Type::Result(ok, err) => "Result<"@ + type_text(*ok) + ", "@ + type_text(*err) + ">"@,
        Type::UUID => "UUID"@,
        Type::Email => "Email"@,
        Type::URL => "URL"@,
        Type::IPAddress => "IPAddress"@,
        Type::MACAddress => "MACAddress"@,
        Type::Date => "Date"@,
        Type::Duration => "Duration"@,
        Type::Timeline(inner) => "Timeline<"@ + type_text(*inner) + ">"@,
        Type::Holo(inner) => "Holo<"@ + type_text(*inner) + ">"@,
        Type::Chain(inner) => "Chain<"@ + type_text(*inner) + ">"@,
        Type::Echo(inner) => "Echo<"@ + type_text(*inner) + ">"@,
        Type::Portal(inner) => "Portal<"@ + type_text(*inner) + ">"@,
        Type::Mirror(inner) => "Mirror<"@ + type_text(*inner) + ">"@,
        Type::Trace(inner) => "Trace<"@ + type_text(*inner) + ">"@,
        Type::Dream(inner) => "Dream<"@ + type_text(*inner) + ">"@,
        Type::Fractal(inner) => "Fractal<"@ + type_text(*inner) + ">"@,
        Type::Paradox(inner) => "Paradox<"@ + type_text(*inner) + ">"@,
        Type::Anchor(inner) => "Anchor<"@ + type_text(*inner) + ">"@,
        Type::CVar(inner) => "CVar<"@ + type_text(*inner) + ">"@,
        Type::Reactiv(inner) => "Reactiv<"@ + type_text(*inner) + ">"@,
        Type::Function(params, ret) => "fn("@ + types_text(params@) + ") -> "@ + type_text(*ret),
        Type::Closure(params, ret) => "closure("@ + types_text(params@) + ") -> "@ + type_text(*ret),
        Type::Actor(params, ret) => "actor("@ + types_text(params@) + ") -> "@ + type_text(*ret),
        Type::Generic(name) => name@,
        Type::UserDefined(name) => name@,
        Type::Reference(inner) => "&"@ + type_text(*inner),
        Type::MutableReference(inner) => "&mut "@ + type_text(*inner),
        Type::RawPointer(inner) => "*const "@ + type_text(*inner),
    }
}

/// Types written one after the other, separated by ", ".
pub open spec fn types_text(ts: Seq<Type>) -> Seq<char>
    decreases ts,
{
    if ts.len() == 0 {
        Seq::empty()
    } else if ts.len() == 1 {
        type_text(ts[0])
    } else {
        types_text(ts.drop_last()) + ", "@ + type_text(ts.last())
    }
}

/// Appends types written one after the other, separated by ", ".
fn append_types(s: &mut String, types: &Vec<Type>)
    ensures
        final(s)@ == old(s)@ + types_text(types@),
    decreases types,
{
    let mut i: usize = 0;
    proof {
        assert(types@.take(0) =~= Seq::<Type>::empty());
    }
    while i < types.len()
        invariant
            i <= types@.len(),
            s@ == old(s)@ + types_text(types@.take(i as int)),
        decreases types@.len() - i,
    {
        if i > 0 {
            s.append(", ");
        }
        proof {
            assert(decreases_to!(*types => types@));
            assert(decreases_to!(types@ => types@[i as int]));
        }
        let item = types[i].to_string();
        s.append(item.as_str());
        proof {
            let t = types@.take(i + 1);
            assert(t.drop_last() =~= types@.take(i as int));
            if i == 0 {
                assert(t.len() == 1);
            }
        }
        i = i + 1;
    }
    proof {
        assert(types@.take(i as int) =~= types@);
    }
}

/// `head`, the written type, then `tail`.
fn wrapped(head: &str, inner: &Type, tail: &str) -> (s: String)
    ensures
        s@ == head@ + type_text(*inner) + tail@,
    decreases inner, 1nat,
{
    let mut s = String::from_str(head);
    let t = inner.to_string();
    s.append(t.as_str());
    s.append(tail);
    s
}

impl Type {
    /// How the type is written
    pub fn to_string(&self) -> (s: String)
        ensures
            s@ == type_text(*self),
        decreases self, 0nat,
    {
        match self {
            Type::I8 => String::from_str("i8"),
            Type::I16 => String::from_str("i16"),
            Type::I32 => String::from_str("i32"),
            Type::I64 => String::from_str("i64"),
            Type::I128 => String::from_str("i128"),
            Type::Isize => String::from_str("isize"),
            Type::U8 => String::from_str("u8"),
            Type::U16 => String::from_str("u16"),
            Type::U32 => String::from_str("u32"),
            Type::U64 => String::from_str("u64"),
            Type::U128 => String::from_str("u128"),
            Type::Usize => String::from_str("usize"),
            Type::F32 => String::from_str("f32"),
            Type::F64 => String::from_str("f64"),
            Type::Bool => String::from_str("bool"),
            Type::String => String::from_str("string"),
            Type::Byte => String::from_str("byte"),
            Type::Char => String::from_str("char"),
            Type::Decimal => String::from_str("Decimal"),
            Type::BigInt => String::from_str("BigInt"),
            Type::Complex => String::from_str("Complex"),
            Type::Rational => String::from_str("Rational"),
            Type::Array(inner) => wrapped("Array<", &**inner, ">"),
            Type::SetOf(inner) => wrapped("Set<", &**inner, ">"),
            Type::Queue(inner) => wrapped("Queue<", &**inner, ">"),
            Type::Stack(inner) => wrapped("Stack<", &**inner, ">"),
            Type::LinkedList(inner) => wrapped("LinkedList<", &**inner, ">"),
            Type::RingBuffer(inner) => wrapped("RingBuffer<", &**inner, ">"),
            Type::CircularBuffer(inner) => wrapped("CircularBuffer<", &**inner, ">"),
            Type::MapOf(key, value) => {
                let mut s = wrapped("Map<", &**key, ", ");
                let v = value.to_string();
                s.append(v.as_str());
                s.append(">");
                s
            },
            Type::Tuple(types) => {
                let mut s = String::from_str("(");
                append_types(&mut s, types);
                s.append(")");
                s
            },
            Type::Option(inner) => wrapped("Option<", &**inner, ">"),
            Type::Result(ok, err) => {
                let mut s = wrapped("Result<", &**ok, ", ");
                let e = err.to_string();
                s.append(e.as_str());
                s.append(">");
                s
            },
            Type::UUID => String::from_str("UUID"),
            Type::Email => String::from_str("Email"),
            Type::URL => String::from_str("URL"),
            Type::IPAddress => String::from_str("IPAddress"),
            Type::MACAddress => String::from_str("MACAddress"),
            Type::Date => String::from_str("Date"),
            Type::Duration => String::from_str("Duration"),
            Type::Timeline(inner) => wrapped("Timeline<", &**inner, ">"),
            Type::Holo(inner) => wrapped("Holo<", &**inner, ">"),
            Type::Chain(inner) => wrapped("Chain<", &**inner, ">"),
            Type::Echo(inner) => wrapped("Echo<", &**inner, ">"),
            Type::Portal(inner) => wrapped("Portal<", &**inner, ">"),
            Type::Mirror(inner) => wrapped("Mirror<", &**inner, ">"),
            Type::Trace(inner) => wrapped("Trace<", &**inner, ">"),
            Type::Dream(inner) => wrapped("Dream<", &**inner, ">"),
            Type::Fractal(inner) => wrapped("Fractal<", &**inner, ">"),
            Type::Paradox(inner) => wrapped("Paradox<", &**inner, ">"),
            Type::Anchor(inner) => wrapped("Anchor<", &**inner, ">"),
            Type::CVar(inner) => wrapped("CVar<", &**inner, ">"),
            Type::Reactiv(inner) => wrapped("Reactiv<", &**inner, ">"),
            Type::Function(params, ret) => {
                let mut s = String::from_str("fn(");
                append_types(&mut s, params);
                s.append(") -> ");
                let r = ret.to_string();
                s.append(r.as_str());
                s
            },
            Type::Closure(params, ret) => {
                let mut s = String::from_str("closure(");
                append_types(&mut s, params);
                s.append(") -> ");
                let r = ret.to_string();
                s.append(r.as_str());
                s
            },
            Type::Actor(params, ret) => {
                let mut s = String::from_str("actor(");
                append_types(&mut s, params);
                s.append(") -> ");
                let r = ret.to_string();
                s.append(r.as_str());
                s
            },
            Type::Generic(name) => name.clone(),
            Type::UserDefined(name) => name.clone(),
            Type::Reference(inner) => {
                let mut s = String::from_str("&");
                let t = inner.to_string();
                s.append(t.as_str());
                s
            },
            Type::MutableReference(inner) => {
                let mut s = String::from_str("&mut ");
                let t = inner.to_string();
                s.append(t.as_str());
                s
            },
            Type::RawPointer(inner) => {
                let mut s = String::from_str("*const ");
                let t = inner.to_string();
                s.append(t.as_str());
                s
            },
        }
    }
}

/// Binary operators.
#[derive(Debug, Clone, Copy, PartialEq, Eq)]
pub enum BinaryOperator {
    Add,
    Subtract,
    Multiply,
    Divide,
    Modulo,
    Equal,
    NotEqual,
    Less,
    Greater,
    LessEqual,
    GreaterEqual,
    And,
    Or,
    BitAnd,
    BitOr,
    BitXor,
    LeftShift,
    RightShift,
}

/// Unary operators.
#[derive(Debug, Clone, Copy, PartialEq, Eq)]
pub enum UnaryOperator {
    Not,
    Negate,
    Dereference,
    Reference,
    MutableReference,
}

/// A struct definition: its name, its typed fields, whether it is public.
#[derive(Debug)]
pub struct Struct {
    pub name: String,
    pub fields: Vec<(String, Type)>,
    pub is_public: bool,
    pub span: Span,
}

/// An enum definition.
#[derive(Debug)]
pub struct Enum {
    pub name: String,
    pub variants: Vec<EnumVariant>,
    pub is_public: bool,
    pub span: Span,
}

/// A variant of an enum, with its typed fields.
#[derive(Debug)]
pub struct EnumVariant {
    pub name: String,
    pub fields: Vec<(String, Type)>,
}

/// A trait definition.
#[derive(Debug)]
pub struct Trait {
    pub name: String,
    pub methods: Vec<TraitMethod>,
    pub is_public: bool,
    pub span: Span,
}

/// The signature of a trait's method.
#[derive(Debug)]
pub struct TraitMethod {
    pub name: String,
    pub parameters: Vec<(String, Type)>,
    pub return_type: Option<Type>,
    pub is_async: bool,
    pub is_unsafe: bool,
}

/// Literal values. A float literal is held as the text it prints as.
#[derive(Debug)]
pub enum Literal {
    Integer(i64),
    UnsignedInteger(u64),
    Float(String),
    Boolean(bool),
    String(String),
    Char(char),
    Byte(u8),
}

/// How a literal is written: numbers in decimal (a float by its text),
/// `true` or `false`, a string in double quotes, a character in single
/// quotes.
pub open spec fn literal_text(l: Literal) -> Seq<char> {
    match l {
        Literal::Integer(i) => crate::text::int_decimal(i as int),
        Literal::UnsignedInteger(u) => crate::text::decimal(u as nat),
        Literal::Float(t) => t@,
        Literal::Boolean(b) => if b {
            "true"@
        } else {
            "false"@
        },
        Literal::String(t) => seq!['"'] + t@ + seq!['"'],
        Literal::Char(c) => seq!['\'', c, '\''],
        Literal::Byte(b) => crate::text::decimal(b as nat),
    }
}

impl Literal {
    /// How the literal is written
    pub fn to_string(&self) -> (s: String)
        ensures
            s@ == literal_text(*self),
    {
        let mut s = String::new();
        match self {
            Literal::Integer(i) => crate::text::append_int(&mut s, *i),
            Literal::UnsignedInteger(u) => crate::text::append_decimal(&mut s, *u),
            Literal::Float(t) => s.append(t.as_str()),
            Literal::Boolean(b) => if *b {
                s.append("true")
            } else {
                s.append("false")
            },
            Literal::String(t) => {
                crate::text::push_char(&mut s, '"');
                s.append(t.as_str());
                crate::text::push_char(&mut s, '"');
            },
            Literal::Char(c) => {
                crate::text::push_char(&mut s, '\'');
                crate::text::push_char(&mut s, *c);
                crate::text::push_char(&mut s, '\'');
            },
            Literal::Byte(b) => crate::text::append_decimal(&mut s, *b as u64),
        }
        assert(s@ =~= literal_text(*self));
        s
    }
}

/// Expressions.
#[derive(Debug)]
pub enum Expression {
    Literal(Literal),
    Identifier(String),
    BinaryOp { left: Box<Expression>, op: BinaryOperator, right: Box<Expression> },
    UnaryOp { op: UnaryOperator, expr: Box<Expression> },
    FunctionCall { name: String, args: Vec<Expression> },
    MethodCall { object: Box<Expression>, method: String, args: Vec<Expression> },
    ArrayAccess { array: Box<Expression>, index: Box<Expression> },
    FieldAccess { object: Box<Expression>, field: String },
    If { condition: Box<Expression>, then_branch: Box<Expression>, else_branch: Option<Box<Expression>> },
    Match { value: Box<Expression>, arms: Vec<MatchArm> },
    Block(Vec<Statement>),
    Lambda { params: Vec<(String, Type)>, body: Box<Expression> },
    Actor { params: Vec<(String, Type)>, body: Box<Expression> },
}

/// A match arm: a pattern, an optional guard and the body.
#[derive(Debug)]
pub struct MatchArm {
    pub pattern: Pattern,
    pub guard: Option<Expression>,
    pub body: Expression,
}

/// Patterns of match arms.
#[derive(Debug)]
pub enum Pattern {
    Literal(Literal),
    Identifier(String),
    Wildcard,
    Tuple(Vec<Pattern>),
    Struct { name: String, fields: Vec<(String, Pattern)> },
    Enum { name: String, variant: String, fields: Vec<Pattern> },
}

/// Statements.
#[derive(Debug)]
pub enum Statement {
    Expression(Expression),
    VariableDeclaration { name: String, type_annotation: Option<Type>, value: Expression },
    Assignment { target: Expression, value: Expression },
    If { condition: Expression, then_branch: Vec<Statement>, else_branch: Option<Vec<Statement>> },
    While { condition: Expression, body: Vec<Statement> },
    For { variable: String, iterable: Expression, body: Vec<Statement> },
    Loop { body: Vec<Statement> },
    Break,
    Continue,
    Return(Option<Expression>),
    Match { value: Expression, arms: Vec<MatchArm> },
    Block(Vec<Statement>),
    Unsafe(Vec<Statement>),
}

/// A function definition.
#[derive(Debug)]
pub struct Function {
    pub name: String,
    pub parameters: Vec<(String, Type)>,
    pub return_type: Option<Type>,
    pub body: Vec<Statement>,
    pub is_async: bool,
    pub is_unsafe: bool,
    pub is_public: bool,
    pub span: Span,
}

/// A group of functions of one name, told apart by their parameters.
#[derive(Debug)]
pub struct FunctionOverload {
    pub name: String,
    pub overloads: Vec<Function>,
    pub span: Span,
}

impl FunctionOverload {
    /// An empty group of this name
    pub fn new(name: String, span: Span) -> (g: Self)
        ensures
            g.name == name,
            g.overloads@.len() == 0,
            g.span == span,
    {
        Self { name, overloads: Vec::new(), span }
    }

    /// Adds an overload at the end of the group
    pub fn add_overload(&mut self, function: Function)
        ensures
            final(self).overloads@ == old(self).overloads@.push(function),
            final(self).name == old(self).name,
            final(self).span == old(self).span,
    {
        self.overloads.push(function);
    }

    /// The overloads, in the order they were added
    pub fn get_overloads(&self) -> (v: &Vec<Function>)
        ensures
            v == &self.overloads,
    {
        &self.overloads
    }
}

/// An implementation block.
#[derive(Debug)]
pub struct Implementation {
    pub target: String,
    pub trait_name: Option<String>,
    pub methods: Vec<Function>,
    pub span: Span,
}

/// A module definition.
#[derive(Debug)]
pub struct Module {
    pub name: String,
    pub items: Vec<Item>,
    pub is_public: bool,
    pub span: Span,
}

/// Top-level items.
#[derive(Debug)]
pub enum Item {
    Function(Function),
    FunctionOverload(FunctionOverload),
    Struct(Struct),
    Enum(Enum),
    Implementation(Implementation),
    Trait(Trait),
    Module(Module),
    Import(String),
    TypeAlias { name: String, type_: Type },
}

/// A whole program.
#[derive(Debug)]
pub struct Program {
    pub items: Vec<Item>,
    pub span: Span,
}

impl Program {
    /// A program with no items, spanning nothing at line 1, column 1
    pub fn new() -> (p: Self)
        ensures
            p.items@.len() == 0,
            p.span == (Span { start: 0, end: 0, line: 1, column: 1 }),
    {
        Self { items: Vec::new(), span: Span::new(0, 0, 1, 1) }
    }

    /// Adds an item at the end
    pub fn add_item(&mut self, item: Item)
        ensures
            final(self).items@ == old(self).items@.push(item),
            final(self).span == old(self).span,
    {
        self.items.push(item);
    }
}

impl Default for Program {
    fn default() -> (p: Self)
        ensures
            p.items@.len() == 0,
            p.span == (Span { start: 0, end: 0, line: 1, column: 1 }),
    {
        Self::new()
    }
}

} // verus!
