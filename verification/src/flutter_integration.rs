//! Native libraries of AFNS programs for the Flutter platforms.

use vstd::prelude::*;
use crate::codegen::{BytecodeGenerator, LLVMCodeGenerator, WASMCodeGenerator};

verus! {

/// A platform that Flutter builds for, with the target to build.
pub enum FlutterPlatform {
    Android(FluentTarget),
    IOS(FluentTarget),
    Web(FluentTarget),
    Desktop(FluentTarget),
}

/// A build target: its architecture triple, its SDK version and the
/// directory the library is written to.
pub struct FluentTarget {
    pub arch: String,
    pub sdk_version: String,
    pub output_path: String,
}

/// The generators a Flutter build uses.
pub struct FlutterIntegration {
    pub llvm_generator: LLVMCodeGenerator,
    pub wasm_generator: WASMCodeGenerator,
    pub bytecode_generator: BytecodeGenerator,
}

impl FlutterIntegration {
    /// An integration with one generator of each kind
    pub fn new() -> (f: Self)
        ensures
            f.llvm_generator == LLVMCodeGenerator,
    {
        Self {
            llvm_generator: LLVMCodeGenerator,
            wasm_generator: WASMCodeGenerator,
            bytecode_generator: BytecodeGenerator,
        }
    }
}

} // verus!
