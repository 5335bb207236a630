//! Extraction of typed operations from annotated execution logs.
//!
//! A log is read line by line; the records that it holds between the markers
//! of a sequence are decoded into typed fields and taken into a model that
//! declares structures and enumerations, interns arrays and operations by
//! content, and keeps the order of the occurrences.

pub mod case;
pub mod decimal;
pub mod generators;
pub mod grammar;
pub mod interning;
pub mod laws;
pub mod model;
pub mod number;
pub mod parser;
pub mod text;
pub mod unirecord;

pub use generators::c_generation::CGeneration;
pub use generators::c_sharp_generation::CSharpGeneration;
pub use generators::rust_generation::RustGeneration;
pub use model::Model;
pub use parser::Parser;
