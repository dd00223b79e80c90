//! Parquet's codecs, encodings and writer properties for the options of the
//! library.
use vstd::prelude::*;

use crate::options::{Compression, Encoding};

verus! {

/// Parquet's codec for a compression of the library; its view is that
/// compression.
pub struct Codec {
    compression: Compression,
    codec: parquet::basic::Compression,
}

impl View for Codec {
    type V = Compression;

    closed spec fn view(&self) -> Compression {
        self.compression
    }
}

/// Parquet's encoding for an encoding of the library; its view is that
/// encoding.
pub struct ColumnEncoding {
    encoding: Encoding,
    parquet_encoding: parquet::basic::Encoding,
}

impl View for ColumnEncoding {
    type V = Encoding;

    closed spec fn view(&self) -> Encoding {
        self.encoding
    }
}

/// The dictionary encodings, which Parquet refuses as the encoding of a
/// column.
pub open spec fn is_dictionary(e: Encoding) -> bool {
    e == Encoding::PlainDictionary || e == Encoding::RleDictionary
}

/// Parquet's `Compression::UNCOMPRESSED`, tagged as `Compression::Uncompressed`.
#[verifier::external_body]
fn codec_uncompressed() -> (r: Codec)
    ensures
        r@ == Compression::Uncompressed,
{
    Codec { compression: Compression::Uncompressed, codec: parquet::basic::Compression::UNCOMPRESSED }
}

/// Parquet's `Compression::SNAPPY`, tagged as `Compression::Snappy`.
#[verifier::external_body]
fn codec_snappy() -> (r: Codec)
    ensures
        r@ == Compression::Snappy,
{
    Codec { compression: Compression::Snappy, codec: parquet::basic::Compression::SNAPPY }
}

/// Parquet's `Compression::GZIP` at `GzipLevel::default()`, tagged as
/// `Compression::Gzip`.
#[verifier::external_body]
fn codec_gzip() -> (r: Codec)
    ensures
        r@ == Compression::Gzip,
{
    Codec {
        compression: Compression::Gzip,
        codec: parquet::basic::Compression::GZIP(parquet::basic::GzipLevel::default()),
    }
}

/// Parquet's `Compression::BROTLI` at `BrotliLevel::default()`, tagged as
/// `Compression::Brotli`.
#[verifier::external_body]
fn codec_brotli() -> (r: Codec)
    ensures
        r@ == Compression::Brotli,
{
    Codec {
        compression: Compression::Brotli,
        codec: parquet::basic::Compression::BROTLI(parquet::basic::BrotliLevel::default()),
    }
}

/// Parquet's `Compression::LZ4_RAW`, tagged as `Compression::Lz4Raw`.
#[verifier::external_body]
fn codec_lz4_raw() -> (r: Codec)
    ensures
        r@ == Compression::Lz4Raw,
{
    Codec { compression: Compression::Lz4Raw, codec: parquet::basic::Compression::LZ4_RAW }
}

/// Parquet's `Compression::ZSTD` at `ZstdLevel::default()`, tagged as
/// `Compression::Zstd`.
#[verifier::external_body]
fn codec_zstd() -> (r: Codec)
    ensures
        r@ == Compression::Zstd,
{
    Codec {
        compression: Compression::Zstd,
        codec: parquet::basic::Compression::ZSTD(parquet::basic::ZstdLevel::default()),
    }
}

/// Parquet's codec for a compression, gzip, brotli and zstd at their default
/// levels.
pub fn parquet_compression(c: Compression) -> (r: Codec)
    ensures
        r@ == c,
{
    match c {
        Compression::Uncompressed => codec_uncompressed(),
        Compression::Snappy => codec_snappy(),
        Compression::Gzip => codec_gzip(),
        Compression::Brotli => codec_brotli(),
        Compression::Lz4Raw => codec_lz4_raw(),
        Compression::Zstd => codec_zstd(),
    }
}

/// Parquet's `Encoding::PLAIN`, tagged as `Encoding::Plain`.
#[verifier::external_body]
fn encoding_plain() -> (r: ColumnEncoding)
    ensures
        r@ == Encoding::Plain,
{
    ColumnEncoding {
        encoding: Encoding::Plain,
        parquet_encoding: parquet::basic::Encoding::PLAIN,
    }
}

/// Parquet's `Encoding::PLAIN_DICTIONARY`, tagged as `Encoding::PlainDictionary`.
#[verifier::external_body]
fn encoding_plain_dictionary() -> (r: ColumnEncoding)
    ensures
        r@ == Encoding::PlainDictionary,
{
    ColumnEncoding {
        encoding: Encoding::PlainDictionary,
        #[allow(deprecated)]
        parquet_encoding: parquet::basic::Encoding::PLAIN_DICTIONARY,
    }
}

/// Parquet's `Encoding::RLE_DICTIONARY`, tagged as `Encoding::RleDictionary`.
#[verifier::external_body]
fn encoding_rle_dictionary() -> (r: ColumnEncoding)
    ensures
        r@ == Encoding::RleDictionary,
{
    ColumnEncoding {
        encoding: Encoding::RleDictionary,
        parquet_encoding: parquet::basic::Encoding::RLE_DICTIONARY,
    }
}

/// Parquet's `Encoding::DELTA_BINARY_PACKED`, tagged as `Encoding::DeltaBinaryPacked`.
#[verifier::external_body]
fn encoding_delta_binary_packed() -> (r: ColumnEncoding)
    ensures
        r@ == Encoding::DeltaBinaryPacked,
{
    ColumnEncoding {
        encoding: Encoding::DeltaBinaryPacked,
        parquet_encoding: parquet::basic::Encoding::DELTA_BINARY_PACKED,
    }
}

/// Parquet's `Encoding::DELTA_LENGTH_BYTE_ARRAY`, tagged as `Encoding::DeltaLengthByteArray`.
#[verifier::external_body]
fn encoding_delta_length_byte_array() -> (r: ColumnEncoding)
    ensures
        r@ == Encoding::DeltaLengthByteArray,
{
    ColumnEncoding {
        encoding: Encoding::DeltaLengthByteArray,
        parquet_encoding: parquet::basic::Encoding::DELTA_LENGTH_BYTE_ARRAY,
    }
}

/// Parquet's `Encoding::DELTA_BYTE_ARRAY`, tagged as `Encoding::DeltaByteArray`.
#[verifier::external_body]
fn encoding_delta_byte_array() -> (r: ColumnEncoding)
    ensures
        r@ == Encoding::DeltaByteArray,
{
    ColumnEncoding {
        encoding: Encoding::DeltaByteArray,
        parquet_encoding: parquet::basic::Encoding::DELTA_BYTE_ARRAY,
    }
}

/// Parquet's `Encoding::BYTE_STREAM_SPLIT`, tagged as `Encoding::ByteStreamSplit`.
#[verifier::external_body]
fn encoding_byte_stream_split() -> (r: ColumnEncoding)
    ensures
        r@ == Encoding::ByteStreamSplit,
{
    ColumnEncoding {
        encoding: Encoding::ByteStreamSplit,
        parquet_encoding: parquet::basic::Encoding::BYTE_STREAM_SPLIT,
    }
}

/// Parquet's encoding for an encoding.
pub fn parquet_encoding(e: Encoding) -> (r: ColumnEncoding)
    ensures
        r@ == e,
{
    match e {
        Encoding::Plain => encoding_plain(),
        Encoding::PlainDictionary => encoding_plain_dictionary(),
        Encoding::RleDictionary => encoding_rle_dictionary(),
        Encoding::DeltaBinaryPacked => encoding_delta_binary_packed(),
        Encoding::DeltaLengthByteArray => encoding_delta_length_byte_array(),
        Encoding::DeltaByteArray => encoding_delta_byte_array(),
        Encoding::ByteStreamSplit => encoding_byte_stream_split(),
    }
}

/// The settings of writer properties that the library sets: the codec of
/// the columns without one of their own, the largest number of rows in a row
/// group, the data page size limit in bytes, and the codec and encoding of
/// single columns, by column name.
pub struct SettingsModel {
    pub codec: Compression,
    pub row_group_rows: Option<usize>,
    pub page_size_limit: usize,
    pub column_codecs: Map<Seq<char>, Compression>,
    pub column_encodings: Map<Seq<char>, Encoding>,
}

/// Parquet's settings when none is set: no compression, row groups of at
/// most 1048576 rows, pages of 1 MiB, no per-column settings.
pub open spec fn default_settings() -> SettingsModel {
    SettingsModel {
        codec: Compression::Uncompressed,
        row_group_rows: Some(1048576),
        page_size_limit: 1048576,
        column_codecs: Map::empty(),
        column_encodings: Map::empty(),
    }
}

/// The codec that settings give a column: its own, else the default one.
pub open spec fn codec_of(m: SettingsModel, column: Seq<char>) -> Compression {
    if m.column_codecs.contains_key(column) {
        m.column_codecs[column]
    } else {
        m.codec
    }
}

/// The encoding that settings give a column, when one is set.
pub open spec fn encoding_of(m: SettingsModel, column: Seq<char>) -> Option<Encoding> {
    if m.column_encodings.contains_key(column) {
        Some(m.column_encodings[column])
    } else {
        None
    }
}

/// A builder of Parquet's writer properties, with the settings it holds.
pub struct PropertiesBuilder {
    builder: parquet::file::properties::WriterPropertiesBuilder,
    settings: Ghost<SettingsModel>,
}

impl View for PropertiesBuilder {
    type V = SettingsModel;

    closed spec fn view(&self) -> SettingsModel {
        self.settings@
    }
}

/// Parquet's writer properties, with the settings they were built with.
pub struct WriterSettings {
    properties: parquet::file::properties::WriterProperties,
    settings: Ghost<SettingsModel>,
}

impl View for WriterSettings {
    type V = SettingsModel;

    closed spec fn view(&self) -> SettingsModel {
        self.settings@
    }
}

impl WriterSettings {
    /// Parquet's writer properties.
    pub fn into_properties(self) -> parquet::file::properties::WriterProperties {
        self.properties
    }
}

/// `WriterProperties::builder`: a builder with Parquet's default settings
/// (`Default for WriterPropertiesBuilder`: `DEFAULT_COMPRESSION`,
/// `DEFAULT_MAX_ROW_GROUP_ROW_COUNT`, `DEFAULT_PAGE_SIZE`, no column
/// properties).
#[verifier::external_body]
pub(crate) fn properties_builder() -> (r: PropertiesBuilder)
    ensures
        r@ == default_settings(),
{
    PropertiesBuilder {
        builder: parquet::file::properties::WriterProperties::builder(),
        settings: Ghost(default_settings()),
    }
}

/// `WriterPropertiesBuilder::set_compression`: the codec of every column
/// without one of its own.
#[verifier::external_body]
pub(crate) fn set_default_codec(b: PropertiesBuilder, c: &Codec) -> (r: PropertiesBuilder)
    ensures
        r@ == (SettingsModel { codec: c@, ..b@ }),
{
    let PropertiesBuilder { builder, settings } = b;
    PropertiesBuilder { builder: builder.set_compression(c.codec), settings }
}

/// `WriterPropertiesBuilder::set_max_row_group_row_count` with `Some(rows)`:
/// the largest number of rows in a row group. Parquet panics on `Some(0)`.
#[verifier::external_body]
pub(crate) fn set_row_group_rows(b: PropertiesBuilder, rows: usize) -> (r: PropertiesBuilder)
    requires
        rows > 0,
    ensures
        r@ == (SettingsModel { row_group_rows: Some(rows), ..b@ }),
{
    let PropertiesBuilder { builder, settings } = b;
    PropertiesBuilder { builder: builder.set_max_row_group_row_count(Some(rows)), settings }
}

/// `WriterPropertiesBuilder::set_data_page_size_limit`: the page size limit
/// in bytes.
#[verifier::external_body]
pub(crate) fn set_page_size_limit(b: PropertiesBuilder, bytes: usize) -> (r: PropertiesBuilder)
    ensures
        r@ == (SettingsModel { page_size_limit: bytes, ..b@ }),
{
    let PropertiesBuilder { builder, settings } = b;
    PropertiesBuilder { builder: builder.set_data_page_size_limit(bytes), settings }
}

/// `WriterPropertiesBuilder::set_column_compression` on the column path of
/// one name (`ColumnPath::from`): the codec of that column.
#[verifier::external_body]
pub(crate) fn set_column_codec(b: PropertiesBuilder, column: &str, c: &Codec) -> (r: PropertiesBuilder)
    ensures
        r@ == (SettingsModel { column_codecs: b@.column_codecs.insert(column@, c@), ..b@ }),
{
    let PropertiesBuilder { builder, settings } = b;
    let path = parquet::schema::types::ColumnPath::from(column);
    PropertiesBuilder { builder: builder.set_column_compression(path, c.codec), settings }
}

/// `WriterPropertiesBuilder::set_column_encoding` on the column path of one
/// name (`ColumnPath::from`): the encoding of that column when dictionary
/// encoding is off or falls back. Parquet panics on a dictionary encoding.
#[verifier::external_body]
pub(crate) fn set_column_fallback_encoding(b: PropertiesBuilder, column: &str, e: &ColumnEncoding) -> (r:
    PropertiesBuilder)
    requires
        !is_dictionary(e@),
    ensures
        r@ == (SettingsModel { column_encodings: b@.column_encodings.insert(column@, e@), ..b@ }),
{
    let PropertiesBuilder { builder, settings } = b;
    let path = parquet::schema::types::ColumnPath::from(column);
    PropertiesBuilder { builder: builder.set_column_encoding(path, e.parquet_encoding), settings }
}

/// `WriterPropertiesBuilder::build`: the writer properties of a builder,
/// with its settings.
#[verifier::external_body]
pub(crate) fn build_properties(b: PropertiesBuilder) -> (r: WriterSettings)
    ensures
        r@ == b@,
{
    let PropertiesBuilder { builder, settings } = b;
    WriterSettings { properties: builder.build(), settings }
}

} // verus!
