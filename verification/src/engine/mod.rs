pub mod jit;
pub mod target;
