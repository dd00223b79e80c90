//! Parquet files held in memory.
use vstd::prelude::*;

use crate::error::{ErrorModel, ParquetError};
use crate::metadata::{opt_text, Metadata, MetadataModel};

verus! {

/// What Parquet reads from the footer of a file held in bytes: the number
/// of rows and of row groups, the application that wrote it and the format
/// version; or the text of the error it gives for bytes that are not a
/// Parquet file.
pub uninterp spec fn parquet_footer(bytes: Seq<u8>) -> Result<(i64, usize, Option<Seq<char>>, i32), Seq<char>>;

/// A footer read, taken by the views of its texts.
pub open spec fn footer_view(r: Result<(i64, usize, Option<String>, i32), String>) -> Result<
    (i64, usize, Option<Seq<char>>, i32),
    Seq<char>,
> {
    match r {
        Ok((rows, groups, by, version)) => Ok((rows, groups, opt_text(by), version)),
        Err(e) => Err(e@),
    }
}

/// Calls parquet's `ParquetRecordBatchReaderBuilder::try_new` on the bytes
/// and reads the footer's `num_rows`, `num_row_groups`, `created_by` and
/// `version`; on failure the `Display` text of parquet's error. The contract
/// names the result, a function of the bytes alone.
#[verifier::external_body]
fn read_footer(bytes: &Vec<u8>) -> (r: Result<(i64, usize, Option<String>, i32), String>)
    ensures
        footer_view(r) == parquet_footer(bytes@),
{
    let data = bytes::Bytes::from(bytes.clone());
    match parquet::arrow::arrow_reader::ParquetRecordBatchReaderBuilder::try_new(data) {
        Ok(b) => {
            let m = b.metadata();
            let f = m.file_metadata();
            Ok((f.num_rows(), m.num_row_groups(), f.created_by().map(String::from), f.version()))
        },
        Err(e) => Err(e.to_string()),
    }
}

/// The metadata of a Parquet file held in bytes, as its footer gives it;
/// bytes that are not a Parquet file are refused with Parquet's message.
pub fn parquet_bytes_metadata(bytes: &Vec<u8>) -> (r: Result<Metadata, ParquetError>)
    ensures
        match parquet_footer(bytes@) {
            Ok((rows, groups, by, version)) => r matches Ok(m) && m@ == (MetadataModel {
                row_count: rows,
                row_group_count: groups as i64,
                created_by: by,
                version: version as i64,
            }),
            Err(msg) => r matches Err(e) && e@ == ErrorModel::InvalidParquetData(msg),
        },
{
    match read_footer(bytes) {
        Ok((rows, groups, by, version)) => Ok(Metadata::from_footer(rows, groups, by, version)),
        Err(msg) => Err(ParquetError::InvalidParquetData(msg)),
    }
}

} // verus!
