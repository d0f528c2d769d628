//! Minimal schema reader: decodes the schema table into enough structure to drive the table
//! and index cursors, independent of the SQL parser.
pub mod ddl_reader;
pub mod scan;

pub use crate::schema::ddl_reader::{read_schema, DdlError, TableSchema};
