//! ACBS Package Metadata Language (APML) syntax trees, parser and evaluator.

pub mod array;
pub mod ast;
pub mod ast_roundtrip;
pub mod context;
pub mod eval;
pub mod glob;
pub mod grammar;
pub mod lst;
pub mod model;
pub mod pattern;
pub mod union;
pub mod parser;
pub mod roundtrip;
