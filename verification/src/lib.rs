//! A minimal, non-verifying virtual machine: it loads one compiled
//! class file in a standard portable bytecode format, decodes its
//! instruction stream, and executes it by interpreting instructions one
//! at a time over an explicit call stack of activation frames, backed
//! by a garbage-collected object heap.

pub mod bytecode;
pub mod class_file;
pub mod engine;
pub mod error;
pub mod runtime;
pub mod text;
