//! An embeddable SQL engine core: a SQL front end, the record format, the
//! bytecode machine with its value semantics, and the file layer beneath it.
pub mod parser;
pub mod record;
pub mod schema;
pub mod text;
pub mod vdbe;
pub mod vfs;
pub mod decimal;
pub mod double;
pub mod natural;
