//! A library for maintaining "chip" documents: JSON-like trees holding a list
//! of sub-chip records, each with a name, an identifier, and a fixed-capacity
//! array of integer slots. The library parses comma-separated integer text
//! (decimal or `0x`-prefixed hexadecimal), distributes the parsed integers
//! into the slot arrays in order, and renders a human-readable report of the
//! records.

pub mod decimal;
pub mod distribute;
pub mod model;
pub mod parse;
pub mod process;
pub mod report;
