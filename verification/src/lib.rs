//! A macro templating engine for a static-site builder.
//!
//! Text may hold macros: spans bounded by a literal `{{` and the nearest
//! following `}}`. Expansion runs in two passes over a document. The first
//! pass rewrites generator shorthand (`markdown content`, `markdown <field>`)
//! into script macros bound to the document's source path; the second hands
//! each macro body to an embedded Lua interpreter and substitutes the result,
//! falling back to the literal macro text (with a line-accurate diagnostic)
//! when a script fails.

pub mod generator;
pub mod lines;
pub mod pipeline;
pub mod render;
pub mod scanner;
pub mod script;
