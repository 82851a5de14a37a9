//! ApexForge: the verified core of the AFNS standard library and the
//! ApexLang front end.

pub mod apexlang;
pub mod ast;
pub mod codegen;
pub mod flutter_integration;
pub mod forge;
pub mod interpreter;
pub mod text;
