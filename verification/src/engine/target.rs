//! The native target machine.
use vstd::prelude::*;
use inkwell::targets::{CodeModel, RelocMode, TargetMachine};
use inkwell::OptimizationLevel;
use crate::codegen::llvm::{
    create_target_machine, default_triple, initialize_native, target_from_triple,
};

verus! {

/// A machine description for the host, for emitting native code.
pub struct TargetManager {
    pub target_machine: TargetMachine,
}

impl TargetManager {
    /// Initialises the native target and builds a generic machine for the
    /// host's triple at the default optimisation level, relocation mode and
    /// code model. Each failing step gives LLVM's message; when LLVM makes no
    /// machine the error says so.
    pub fn new() -> Result<Self, String> {
        match initialize_native() {
            Ok(()) => {},
            Err(message) => return Err(message),
        }
        let triple = default_triple();
        let target = match target_from_triple(&triple) {
            Ok(t) => t,
            Err(message) => return Err(message),
        };
        match create_target_machine(
            &target,
            &triple,
            "generic",
            "",
            OptimizationLevel::Default,
            RelocMode::Default,
            CodeModel::Default,
        ) {
            Some(target_machine) => Ok(TargetManager { target_machine }),
            None => Err("Failed to create target machine".to_owned()),
        }
    }
}

} // verus!
