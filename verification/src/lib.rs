//! Reader for Oracle classic EXP dump files (`.dmp`).
//!
//! The binary format is framed into records; this crate splits the
//! records, decodes column values (NUMBER, DATE, TIMESTAMP, text), turns
//! the record stream into high-level events and renders them as CSV, SQL
//! INSERT statements, JSON Lines or a hex dump.

pub mod cli;
pub mod error;
pub mod laws;
pub mod number;
pub mod output;
pub mod parser;
pub mod reader;
pub mod text;
pub mod types;

pub use error::DumpError;
pub use reader::DumpReader;
pub use types::{RecordType, RawRecord, OracleType, ColumnValue, ColumnMeta, TableMeta, DumpHeader, TableRow};
