//! A streaming encoder that turns code-search matches into one pretty-printed
//! JSON array.
//!
//! Matches arrive batch by batch, typically one batch per source file. Each
//! match becomes a record, each record is rendered as a JSON object, and the
//! printer frames the rendered records with brackets, commas and newlines so
//! that the bytes written over a whole run form a single array.
//!
//! - [`node`], [`env`], [`rule`]: what the search engine and the rule
//!   configuration hand over, as plain values.
//! - [`record`]: the records built from them.
//! - [`wire`]: the JSON object that stands for each record.
//! - [`json`]: JSON documents and the calls into `serde_json`.
//! - [`printer`]: the printer and what holds of its output.
//! - [`table`]: lists of named entries, which the other modules share.

pub mod env;
pub mod json;
pub mod node;
pub mod printer;
pub mod record;
pub mod rule;
pub mod table;
pub mod wire;
