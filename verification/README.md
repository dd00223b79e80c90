# parquet_php

A PHP extension for reading and writing Apache Parquet files, built on
arrow-rs, whose logic is a library verified with Verus.

## Layout

- `src/` — the verified library `parquet_php`:
  - `column.rs`, `schema.rs`: column types, schemas, and their Arrow fields
    (both directions), with the schema round trip as a law;
  - `options.rs`, `metadata.rs`: writer and reader options, file metadata;
    `properties.rs`, `parquet_types.rs`: Parquet's codecs, encodings and
    writer properties for those options; `parquet_bytes.rs`: the footer of
    a Parquet file held in memory;
  - `encode.rs`: PHP rows to Arrow columns (`rows_to_record_batch`), with
    every refusal stated; `nullability.rs`: the nulls Arrow admits in a
    finished column;
  - `decode.rs`: Arrow columns back to PHP rows (`record_batch_to_rows`);
  - `writer.rs`, `reader.rs`: what a writer accepts in which state, the
    columns of each batch, projections and the end of a file;
  - `text.rs`, `temporal.rs`, `decimal.rs`, `uuid_text.rs`: the texts of
    dates, times, date-times, decimals and UUIDs; `calendar.rs`: the day
    numbers of Gregorian dates, both ways; `clock.rs`: times of day written
    and read back;
  - `php.rs`, `column_data.rs`, `arrow_model.rs`, `error.rs`: the values the
    library works on;
  - `roundtrip.rs`, `list_roundtrip.rs`, `struct_roundtrip.rs`,
    `map_roundtrip.rs`, `batch_roundtrip.rs`: what is read back of what
    was written.
- `app/` — the extension itself: the `Parquet\*` classes for PHP, the
  conversions between PHP values, Arrow arrays and the library's values, and
  the Parquet encoder and decoder on files and buffers.
- `tests/` — tests of the library on concrete values.

Calls into chrono, uuid, arrow, parquet and std that the library makes stand behind
small trusted functions whose contracts say what those crates document.
