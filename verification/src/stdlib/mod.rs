pub mod env;
pub mod errno;
pub mod metadata;
pub mod path;
