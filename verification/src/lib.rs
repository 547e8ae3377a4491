//! Typed columnar tables from spreadsheet-style row data.
//!
//! Given a rectangular grid of heterogeneous cells with a header row, the
//! crate deduplicates header names, builds either an all-string table or a
//! table whose per-column types are inferred from the first data row, and
//! casts named columns of an existing table to new types.

pub mod cell;
pub mod column;
pub mod error;
pub mod headers;
pub mod laws;
pub mod sheet;
pub mod table;
pub mod text;
