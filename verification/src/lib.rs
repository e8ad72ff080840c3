//! Attribute dissection for structured record types.
//!
//! Given the declaration of a record type and a per-field configuration,
//! this library classifies each field's type shape, validates the whole
//! declaration, and converts a list of untyped annotation entries into a
//! typed record value with precise per-field error reporting.
//!
//! Parsing host-language source text into the syntax model used here, and
//! rendering anything back out, are left to the surrounding application;
//! the library works entirely on its own data model and every function in
//! it is verified.

pub mod ast;
pub mod classify;
pub mod config;
pub mod dissect;
pub mod expand;
pub mod laws;
pub mod parse;
pub mod resolver;
