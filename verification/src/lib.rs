//! Extraction of literal row data from SQL `INSERT INTO ... VALUES ...`
//! statements.
//!
//! The library scans a text buffer for INSERT statements, parses each
//! statement's column list and value tuples (respecting quoted strings and
//! nested parentheses), and yields a [`Table`](extract::Table): the column
//! names of the most recent INSERT together with the rows accumulated from
//! every INSERT in the buffer. The whole pipeline is specified by the spec
//! functions in [`model`] and the executable code is proved to compute
//! exactly that model.

pub mod model;
pub mod text;
pub mod scan;
pub mod extract;

pub use extract::{extract, csv_lines, csv_line, pad_row, parse_insert_stmt, Table};
