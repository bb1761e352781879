//! A verified core for the Arabic-keyword scripting language runtime: the
//! runtime value model, its operators and comparisons, the error type, the
//! bytecode machine's stack, frame and exception discipline, a set of pure
//! builtins, and the format-specification engine.

pub mod text;
pub mod textops;
pub mod error;
pub mod value;
pub mod ops;
pub mod containers;
pub mod machine;
pub mod steps;
pub mod fused;
pub mod methods;
pub mod tailcall;
pub mod grid;
pub mod keywords;
pub mod unpack;
pub mod runtime;
pub mod formatting;
pub mod jit;
pub mod builtins;
pub mod builtin_codec;
pub mod builtin_lists;
pub mod builtin_text;
pub mod builtin_math;
pub mod laws;
pub mod value_laws;
pub mod source;
