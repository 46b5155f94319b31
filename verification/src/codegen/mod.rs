pub mod compiler;
pub mod llvm;
