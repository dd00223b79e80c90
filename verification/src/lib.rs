use vstd::prelude::*;

pub mod text;
pub mod temporal;
pub mod decimal;
pub mod uuid_text;
pub mod arrow_model;
pub mod error;
pub mod column;
pub mod schema;
pub mod options;
pub mod writer;
pub mod metadata;
pub mod reader;
pub mod php;
pub mod column_data;
pub mod decode;
pub mod encode;
pub mod roundtrip;
pub mod list_roundtrip;
pub mod struct_roundtrip;
pub mod map_roundtrip;
pub mod batch_roundtrip;
pub mod calendar;
pub mod clock;
pub mod nullability;
pub mod parquet_types;
pub mod properties;
pub mod parquet_bytes;

verus! {

} // verus!
