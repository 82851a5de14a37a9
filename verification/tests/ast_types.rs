use apexforge::ast::{Span, Type};
use apexforge::codegen::LLVMCodeGenerator;
use apexforge::flutter_integration::FlutterIntegration;

#[test]
fn test_type_display() {
    assert_eq!(Type::I32.to_string(), "i32");
    assert_eq!(Type::String.to_string(), "string");
    assert_eq!(Type::Array(Box::new(Type::I32)).to_string(), "Array<i32>");
    assert_eq!(
        Type::MapOf(Box::new(Type::String), Box::new(Type::I32)).to_string(),
        "Map<string, i32>"
    );
}

#[test]
fn compound_types_are_written_in_full() {
    let f = Type::Function(vec![Type::I32, Type::Bool], Box::new(Type::String));
    assert_eq!(f.to_string(), "fn(i32, bool) -> string");
    let t = Type::Tuple(vec![Type::U8, Type::Char]);
    assert_eq!(t.to_string(), "(u8, char)");
    let r = Type::Result(Box::new(Type::I64), Box::new(Type::String));
    assert_eq!(r.to_string(), "Result<i64, string>");
    assert_eq!(Type::Reference(Box::new(Type::I32)).to_string(), "&i32");
    assert_eq!(Type::MutableReference(Box::new(Type::I32)).to_string(), "&mut i32");
    assert_eq!(Type::SetOf(Box::new(Type::Usize)).to_string(), "Set<usize>");
    assert_eq!(Type::UserDefined("Point".to_string()).to_string(), "Point");
}

#[test]
fn span_keeps_its_fields() {
    let s = Span::new(3, 9, 2, 4);
    assert_eq!((s.start, s.end, s.line, s.column), (3, 9, 2, 4));
}

#[test]
fn llvm_types_of_afns_types() {
    let g = LLVMCodeGenerator::new();
    assert_eq!(g.type_to_llvm(&Type::I32), "i32");
    assert_eq!(g.type_to_llvm(&Type::F64), "double");
    assert_eq!(g.type_to_llvm(&Type::Bool), "i1");
    assert_eq!(g.type_to_llvm(&Type::String), "i8*");
    assert_eq!(g.type_to_llvm(&Type::Char), "i8");
    assert_eq!(g.type_to_llvm(&Type::U64), "i32");
}

#[test]
fn string_constants_are_named_by_length() {
    let g = LLVMCodeGenerator::new();
    assert_eq!(g.get_string_constant_name("hello"), "@.str.5");
    assert_eq!(g.get_string_constant_name(""), "@.str.0");
    assert_eq!(g.get_string_constant_name("é"), "@.str.2");
}

#[test]
fn flutter_integration_starts_with_generators() {
    let f = FlutterIntegration::new();
    assert_eq!(f.llvm_generator.type_to_llvm(&Type::Bool), "i1");
}

#[test]
fn test_literal_display() {
    assert_eq!(apexforge::ast::Literal::Integer(42).to_string(), "42");
    assert_eq!(apexforge::ast::Literal::String("hello".to_string()).to_string(), "\"hello\"");
    assert_eq!(apexforge::ast::Literal::Boolean(true).to_string(), "true");
    assert_eq!(apexforge::ast::Literal::Char('x').to_string(), "'x'");
}

#[test]
fn test_program_creation() {
    let mut program = apexforge::ast::Program::new();
    let function = apexforge::ast::Function {
        name: "main".to_string(),
        parameters: Vec::new(),
        return_type: None,
        body: Vec::new(),
        is_async: false,
        is_unsafe: false,
        is_public: false,
        span: apexforge::ast::Span::new(0, 0, 1, 1),
    };
    program.add_item(apexforge::ast::Item::Function(function));
    assert_eq!(program.items.len(), 1);
}
