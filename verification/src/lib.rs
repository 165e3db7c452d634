//! A small S-expression language: values, lexical environments, an evaluator
//! with closures and native procedures, a reader and a printer.
//!
//! Every executable function carries a contract over the mathematical model
//! of its arguments: `Value` for objects, `EnvView` for environments. The
//! modules `laws`, `scopes`, `identity` and `depth` hold what is proved of
//! the evaluator from its definition, `read` and `roundtrip` what is proved
//! of the reader and the printer.

pub mod builtin;
pub mod depth;
pub mod env;
pub mod equal;
pub mod error;
pub mod eval;
pub mod identity;
pub mod laws;
pub mod object;
pub mod printer;
pub mod read;
pub mod reader;
pub mod roundtrip;
pub mod scopes;
