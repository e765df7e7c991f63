pub mod assembler;
pub mod emitter;
pub mod encoding;
pub mod error;
pub mod instruction;
pub mod label;
pub mod register;
pub mod text;
