//! Assembler for a small fictional CPU: it turns assembly-like source text
//! into a fixed-width binary instruction stream.
//!
//! The pipeline has four stages, each with a full functional contract:
//! line classification and tokenization (`parser`), numeric and string
//! literal parsing (`literal`), instruction construction (`parser`), and
//! bit-level encoding (`instruction`).

pub mod error;
pub mod instruction;
pub mod text;
pub mod literal;
pub mod parser;
pub mod laws;
