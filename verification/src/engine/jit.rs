//! Just-in-time execution of a compiled module.
use vstd::prelude::*;
use inkwell::execution_engine::ExecutionEngine;
use inkwell::module::Module;
use inkwell::OptimizationLevel;
use crate::codegen::llvm::create_jit_execution_engine;

verus! {

/// An LLVM execution engine that runs a module's functions in this process.
pub struct JitEngine<'ctx> {
    pub execution_engine: ExecutionEngine<'ctx>,
}

impl<'ctx> JitEngine<'ctx> {
    /// Hands the module to a JIT execution engine at the default
    /// optimisation level; LLVM's message when it cannot make one.
    pub fn new(module: Module<'ctx>) -> Result<Self, String> {
        match create_jit_execution_engine(module, OptimizationLevel::Default) {
            Ok(execution_engine) => Ok(JitEngine { execution_engine }),
            Err(message) => Err(message),
        }
    }
}

} // verus!
