//! The types of Parquet that the library holds.
use vstd::prelude::*;

use parquet::basic::Compression as ParquetCodec;
use parquet::basic::Encoding as ParquetEncoding;

verus! {

#[verifier::external_type_specification]
#[verifier::external_body]
pub struct ExCompression(ParquetCodec);

#[verifier::external_type_specification]
#[verifier::external_body]
pub struct ExEncoding(ParquetEncoding);

#[verifier::external_type_specification]
#[verifier::external_body]
pub struct ExWriterProperties(parquet::file::properties::WriterProperties);

#[verifier::external_type_specification]
#[verifier::external_body]
pub struct ExWriterPropertiesBuilder(parquet::file::properties::WriterPropertiesBuilder);

} // verus!
