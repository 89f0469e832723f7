//! A bridge between a typed data model and the dynamically typed values of a
//! JavaScript host: numbers, strings, arrays, objects and buffers on one side,
//! structs, enums, maps and sequences on the other.

pub mod de;
pub mod errors;
pub mod laws;
pub mod native;
pub mod number;
pub mod roundtrip;
pub mod ser;
pub mod text;
pub mod value;

pub use de::from_value;
pub use de::from_value_opt;
pub use ser::to_value;
