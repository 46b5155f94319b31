//! Function-level optimisation passes.
use vstd::prelude::*;
use inkwell::module::Module;
use inkwell::passes::PassManager;
use inkwell::values::FunctionValue;
use crate::codegen::llvm::{function_pass_manager, initialize_passes, run_passes};

verus! {

/// A pass manager that runs over one function at a time.
pub struct OptimizationManager<'ctx> {
    pub fpm: PassManager<FunctionValue<'ctx>>,
}

impl<'ctx> OptimizationManager<'ctx> {
    /// A function pass manager for the module's functions, initialised.
    pub fn new(module: &Module<'ctx>) -> Self {
        let fpm = function_pass_manager(module);
        initialize_passes(&fpm);
        OptimizationManager { fpm }
    }

    /// Runs the passes on `function`.
    pub fn optimize_function(&self, function: FunctionValue<'ctx>) {
        run_passes(&self.fpm, &function);
    }
}

} // verus!
