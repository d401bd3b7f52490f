//! Runtime core of a small, statically typed, typeclass-polymorphic,
//! concurrency-aware scripting language.
//!
//! The crate owns the representation of types and values, the rules for
//! binding names to values, the multi-tier storage of global state, and the
//! algorithm for resolving a callable and preparing its invocation.  Parsing
//! source text and evaluating function bodies are left to outside
//! collaborators: they hand the core already-built `Type` and `Value` trees
//! and opaque body handles, and run the invocations this core prepares.

pub mod errors;
pub mod interpreter;
pub mod scope;
pub mod types;
pub mod values;
pub mod variable;
