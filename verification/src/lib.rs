//! Verified core of the ScriptLang compiler's text-level passes.
pub mod assemble;
pub mod binding;
pub mod builder;
pub mod classify;
pub mod collections;
pub mod const_eval;
pub mod const_value;
pub mod dispatch;
pub mod env;
pub mod errors;
pub mod expr;
pub mod form;
pub mod laws;
pub mod lower;
pub mod macro_registry;
pub mod macros;
pub mod names;
pub mod pipeline;
pub mod program;
pub mod quote;
pub mod readback;
pub mod resolve;
pub mod scope;
pub mod semantic;
pub mod session;
pub mod text;
