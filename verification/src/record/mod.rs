//! SQLite record format: varints, serial types, and the record header walk, in both
//! directions. Pure computation, no I/O.
pub mod collation;
pub mod conversions;
pub mod decode;
pub mod encode;
pub mod error;
pub mod round_trip;
pub mod value;
pub mod varint;

pub use crate::record::collation::{compare_text, Collation};
pub use crate::record::decode::{decode_column, decode_record};
pub use crate::record::encode::encode_record;
pub use crate::record::error::RecordError;
pub use crate::record::value::{TextEncoding, Value};
pub use crate::record::varint::decode_varint;
