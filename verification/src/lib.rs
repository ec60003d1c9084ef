//! Translator from a stack-oriented virtual-machine language to assembly
//! for a 16-bit register/memory architecture.

pub mod assembly;
pub mod codegen;
pub mod command;
pub mod control;
pub mod driver;
pub mod linker;
pub mod machine;
pub mod text;
