//! Schema-driven F# source emitter.
//!
//! Given an in-memory description of a set of data types (primitives,
//! structs, tagged unions, enums and generic containers), the library
//! renders, for each top-level type, an F# declaration together with a
//! binary encoder and decoder for it.  A verified model of the binary
//! wire format that the generated code implements lives in `value` and
//! `codec`.

pub mod emitter;
pub mod name;
pub mod codec;
pub mod decl;
pub mod gen;
pub mod laws;
pub mod schema;
pub mod textutil;
pub mod value;
