//! The bytecode machine: instructions, value semantics, cursors, and the
//! fetch-decode-execute loop.
pub mod affinity;
pub mod aggregate;
pub mod arithmetic;
pub mod change;
pub mod coerce;
pub mod compare;
pub mod control;
pub mod cursor;
pub mod debug;
pub mod error;
pub mod exec;
pub mod explain;
pub mod filter;
pub mod index;
pub mod laws;
pub mod opcodes;
pub mod order;
pub mod program;
pub mod request;
pub mod result;
pub mod saturate;
pub mod slot;
pub mod sorter;
pub mod vm;

