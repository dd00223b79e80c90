use vstd::prelude::*;

use crate::error::ParquetError;
use crate::properties::{
    build_properties, is_dictionary, parquet_compression, parquet_encoding, properties_builder,
    set_column_codec, set_column_fallback_encoding, set_default_codec, set_page_size_limit,
    set_row_group_rows, codec_of, encoding_of, SettingsModel, WriterSettings,
};

verus! {

/// Compression codec of a Parquet file or column.
#[derive(PartialEq, Eq, Structural, Clone, Copy, Debug)]
pub enum Compression {
    Uncompressed,
    Snappy,
    Gzip,
    Brotli,
    Lz4Raw,
    Zstd,
}

/// Encoding of a Parquet column.
#[derive(PartialEq, Eq, Structural, Clone, Copy, Debug)]
pub enum Encoding {
    Plain,
    PlainDictionary,
    RleDictionary,
    DeltaBinaryPacked,
    DeltaLengthByteArray,
    DeltaByteArray,
    ByteStreamSplit,
}

/// The texts of a list of strings.
pub open spec fn texts(v: Seq<String>) -> Seq<Seq<char>> {
    v.map_values(|s: String| s@)
}

/// Options of a reader: the number of rows per batch and, when given, the
/// names of the columns to read.
pub struct ReaderOptions {
    batch_size: usize,
    columns: Option<Vec<String>>,
}

pub struct ReaderOptionsModel {
    pub batch_size: usize,
    pub columns: Option<Seq<Seq<char>>>,
}

impl View for ReaderOptions {
    type V = ReaderOptionsModel;

    closed spec fn view(&self) -> ReaderOptionsModel {
        ReaderOptionsModel {
            batch_size: self.batch_size,
            columns: match self.columns {
                Some(v) => Some(texts(v@)),
                None => None,
            },
        }
    }
}

/// A copy of a list of strings.
pub fn duplicate_strings(v: &Vec<String>) -> (r: Vec<String>)
    ensures
        texts(r@) == texts(v@),
{
    let mut r: Vec<String> = Vec::new();
    let mut i: usize = 0;
    while i < v.len()
        invariant
            i <= v.len(),
            r@.len() == i,
            forall|j: int| 0 <= j < i ==> r@[j]@ == #[trigger] v@[j]@,
        decreases v.len() - i,
    {
        r.push(v[i].clone());
        i = i + 1;
    }
    assert(texts(r@) =~= texts(v@));
    r
}

impl ReaderOptions {
    /// Batches of 8192 rows, every column.
    pub fn create() -> (o: ReaderOptions)
        ensures
            o@ == (ReaderOptionsModel { batch_size: 8192, columns: None }),
    {
        ReaderOptions { batch_size: 8192, columns: None }
    }

    /// A copy of these options.
    pub fn duplicate(&self) -> (o: ReaderOptions)
        ensures
            o@ == self@,
    {
        ReaderOptions {
            batch_size: self.batch_size,
            columns: match &self.columns {
                Some(v) => Some(duplicate_strings(v)),
                None => None,
            },
        }
    }

    /// These options with another batch size; refused unless `size` is
    /// positive.
    pub fn with_batch_size(&self, size: i64) -> (r: Result<ReaderOptions, ParquetError>)
        ensures
            size <= 0 ==> r == Err::<ReaderOptions, ParquetError>(ParquetError::InvalidBatchSize(size)),
            size > 0 ==> (r matches Ok(o) && o@ == (ReaderOptionsModel { batch_size: size as usize, ..self@ })),
    {
        if size <= 0 {
            return Err(ParquetError::InvalidBatchSize(size));
        }
        let mut o = self.duplicate();
        o.batch_size = size as usize;
        Ok(o)
    }

    /// These options reading only the named columns.
    pub fn with_columns(&self, columns: Vec<String>) -> (o: ReaderOptions)
        ensures
            o@ == (ReaderOptionsModel { columns: Some(texts(columns@)), ..self@ }),
    {
        ReaderOptions { batch_size: self.batch_size, columns: Some(columns) }
    }

    /// The number of rows per batch.
    pub fn batch_size(&self) -> (n: usize)
        ensures
            n == self@.batch_size,
    {
        self.batch_size
    }

    /// The names of the columns to read, when restricted.
    pub fn columns(&self) -> (r: Option<Vec<String>>)
        ensures
            match r {
                Some(v) => self@.columns == Some(texts(v@)),
                None => self@.columns is None,
            },
    {
        match &self.columns {
            Some(v) => Some(duplicate_strings(v)),
            None => None,
        }
    }
}


/// No two pairs share a key.
pub open spec fn keys_distinct<V>(pairs: Seq<(String, V)>) -> bool {
    forall|i: int, j: int| 0 <= i < j < pairs.len() ==> pairs[i].0@ != pairs[j].0@
}

/// Whether some pair of the list has key text `k`.
pub open spec fn has_key<V>(pairs: Seq<(String, V)>, k: Seq<char>) -> bool {
    exists|j: int| 0 <= j < pairs.len() && #[trigger] pairs[j].0@ == k
}

/// The map from key text to value that a list of pairs holds.
pub open spec fn pairs_map<V>(pairs: Seq<(String, V)>) -> Map<Seq<char>, V> {
    Map::new(
        |k: Seq<char>| has_key(pairs, k),
        |k: Seq<char>| pairs[choose|j: int| 0 <= j < pairs.len() && #[trigger] pairs[j].0@ == k].1,
    )
}

proof fn lemma_pairs_map_at<V>(pairs: Seq<(String, V)>, j: int)
    requires
        keys_distinct(pairs),
        0 <= j < pairs.len(),
    ensures
        pairs_map(pairs).dom().contains(pairs[j].0@),
        pairs_map(pairs)[pairs[j].0@] == pairs[j].1,
{
    let k = pairs[j].0@;
    assert(has_key(pairs, k));
    let c = choose|c: int| 0 <= c < pairs.len() && #[trigger] pairs[c].0@ == k;
    if c != j {
        if c < j {
            assert(pairs[c].0@ != pairs[j].0@);
        } else {
            assert(pairs[j].0@ != pairs[c].0@);
        }
    }
}

/// The map of the first `i + 1` pairs is that of the first `i` with the
/// pair at `i` added; the map of no pairs is empty.
proof fn lemma_pairs_map_take<V>(pairs: Seq<(String, V)>, i: int)
    requires
        keys_distinct(pairs),
        0 <= i < pairs.len() || i == 0,
    ensures
        pairs_map(pairs.take(0)) == Map::<Seq<char>, V>::empty(),
        i < pairs.len() ==> pairs_map(pairs.take(i + 1)) == pairs_map(pairs.take(i)).insert(pairs[i].0@, pairs[i].1),
{
    assert(pairs_map(pairs.take(0)) =~= Map::<Seq<char>, V>::empty());
    if i < pairs.len() {
        let p0 = pairs.take(i);
        let p1 = pairs.take(i + 1);
        let k = pairs[i].0@;
        assert forall|a: int, b: int| 0 <= a < b < p1.len() implies p1[a].0@ != p1[b].0@ by {
            assert(p1[a] == pairs[a] && p1[b] == pairs[b]);
        }
        assert forall|a: int, b: int| 0 <= a < b < p0.len() implies p0[a].0@ != p0[b].0@ by {
            assert(p0[a] == pairs[a] && p0[b] == pairs[b]);
        }
        assert forall|x: Seq<char>| #[trigger] has_key(p1, x) == (has_key(p0, x) || x == k) by {
            if has_key(p1, x) {
                let j = choose|j: int| 0 <= j < p1.len() && #[trigger] p1[j].0@ == x;
                if j < i {
                    assert(p0[j] == p1[j]);
                }
            }
            if has_key(p0, x) {
                let j = choose|j: int| 0 <= j < p0.len() && #[trigger] p0[j].0@ == x;
                assert(p1[j] == p0[j]);
            }
            if x == k {
                assert(p1[i].0@ == x);
            }
        }
        assert forall|x: Seq<char>| #[trigger] has_key(p1, x) implies pairs_map(p1)[x] == pairs_map(p0).insert(
            k,
            pairs[i].1,
        )[x] by {
            let j = choose|j: int| 0 <= j < p1.len() && #[trigger] p1[j].0@ == x;
            lemma_pairs_map_at(p1, j);
            if j < i {
                assert(p0[j] == p1[j]);
                lemma_pairs_map_at(p0, j);
            }
        }
        assert(pairs_map(p1) =~= pairs_map(p0).insert(k, pairs[i].1));
    }
}

/// Sets the value of `key` in a list of pairs with distinct keys.
fn set_pair<V: Copy>(pairs: &mut Vec<(String, V)>, key: String, value: V)
    requires
        keys_distinct(old(pairs)@),
    ensures
        keys_distinct(final(pairs)@),
        pairs_map(final(pairs)@) == pairs_map(old(pairs)@).insert(key@, value),
{
    let ghost p0 = pairs@;
    let ghost k = key@;
    let mut i: usize = 0;
    let mut found = false;
    while i < pairs.len()
        invariant
            i <= pairs.len(),
            pairs@ == p0,
            k == key@,
            !found ==> forall|j: int| 0 <= j < i ==> pairs@[j].0@ != k,
            found ==> i < pairs.len() && pairs@[i as int].0@ == k,
        ensures
            !found ==> i == pairs.len(),
        decreases pairs.len() - i,
    {
        if pairs[i].0 == key {
            found = true;
            break;
        }
        i = i + 1;
    }
    if found {
        pairs.set(i, (key, value));
        proof {
            let p1 = pairs@;
            assert(p1[i as int].0@ == k);
            assert forall|a: int, b: int| 0 <= a < b < p1.len() implies p1[a].0@ != p1[b].0@ by {
                assert(p0[a].0@ != p0[b].0@);
            }
            assert forall|x: Seq<char>| #[trigger] has_key(p1, x) == (has_key(p0, x) || x == k) by {
                if has_key(p1, x) {
                    let j = choose|j: int| 0 <= j < p1.len() && #[trigger] p1[j].0@ == x;
                    if j != i {
                        assert(p0[j] == p1[j]);
                    }
                }
                if has_key(p0, x) {
                    let j = choose|j: int| 0 <= j < p0.len() && #[trigger] p0[j].0@ == x;
                    assert(p1[j].0@ == x);
                }
                if x == k {
                    assert(p1[i as int].0@ == x);
                }
            }
            assert forall|x: Seq<char>| #[trigger] has_key(p1, x) implies pairs_map(p1)[x] == pairs_map(p0).insert(
                k,
                value,
            )[x] by {
                let j = choose|j: int| 0 <= j < p1.len() && #[trigger] p1[j].0@ == x;
                lemma_pairs_map_at(p1, j);
                if j != i {
                    assert(p0[j] == p1[j]);
                    lemma_pairs_map_at(p0, j);
                }
            }
            assert(pairs_map(p1) =~= pairs_map(p0).insert(k, value));
        }
    } else {
        pairs.push((key, value));
        proof {
            let p1 = pairs@;
            assert forall|a: int, b: int| 0 <= a < b < p1.len() implies p1[a].0@ != p1[b].0@ by {
                if b < p0.len() {
                    assert(p0[a].0@ != p0[b].0@);
                }
            }
            assert forall|x: Seq<char>| #[trigger] has_key(p1, x) == (has_key(p0, x) || x == k) by {
                if has_key(p1, x) {
                    let j = choose|j: int| 0 <= j < p1.len() && #[trigger] p1[j].0@ == x;
                    if j < p0.len() {
                        assert(p0[j] == p1[j]);
                    }
                }
                if has_key(p0, x) {
                    let j = choose|j: int| 0 <= j < p0.len() && #[trigger] p0[j].0@ == x;
                    assert(p1[j].0@ == x);
                }
                if x == k {
                    assert(p1[p0.len() as int].0@ == x);
                }
            }
            assert forall|x: Seq<char>| #[trigger] has_key(p1, x) implies pairs_map(p1)[x] == pairs_map(p0).insert(
                k,
                value,
            )[x] by {
                let j = choose|j: int| 0 <= j < p1.len() && #[trigger] p1[j].0@ == x;
                lemma_pairs_map_at(p1, j);
                if j < p0.len() {
                    assert(p0[j] == p1[j]);
                    lemma_pairs_map_at(p0, j);
                }
            }
            assert(pairs_map(p1) =~= pairs_map(p0).insert(k, value));
        }
    }
}

/// A copy of a list of pairs.
fn duplicate_pairs<V: Copy>(pairs: &Vec<(String, V)>) -> (r: Vec<(String, V)>)
    ensures
        r@.len() == pairs@.len(),
        forall|j: int| #![trigger r@[j]] 0 <= j < pairs@.len() ==> r@[j].0@ == pairs@[j].0@ && r@[j].1 == pairs@[j].1,
{
    let mut r: Vec<(String, V)> = Vec::new();
    let mut i: usize = 0;
    while i < pairs.len()
        invariant
            i <= pairs.len(),
            r@.len() == i,
            forall|j: int| #![trigger r@[j]] 0 <= j < i ==> r@[j].0@ == pairs@[j].0@ && r@[j].1 == pairs@[j].1,
        decreases pairs.len() - i,
    {
        let (k, v) = (&pairs[i].0, pairs[i].1);
        r.push((k.clone(), v));
        i = i + 1;
    }
    r
}

proof fn lemma_pairs_map_same<V>(a: Seq<(String, V)>, b: Seq<(String, V)>)
    requires
        a.len() == b.len(),
        keys_distinct(b),
        forall|j: int| #![trigger a[j]] 0 <= j < a.len() ==> a[j].0@ == b[j].0@ && a[j].1 == b[j].1,
    ensures
        pairs_map(a) == pairs_map(b),
        keys_distinct(a),
{
    assert forall|i: int, j: int| 0 <= i < j < a.len() implies a[i].0@ != a[j].0@ by {
        assert(a[i].0@ == b[i].0@ && a[j].0@ == b[j].0@);
    }
    assert forall|x: Seq<char>| #[trigger] has_key(a, x) == has_key(b, x) by {
        if has_key(a, x) {
            let j = choose|j: int| 0 <= j < a.len() && #[trigger] a[j].0@ == x;
            assert(b[j].0@ == x);
        }
        if has_key(b, x) {
            let j = choose|j: int| 0 <= j < b.len() && #[trigger] b[j].0@ == x;
            assert(a[j].0@ == x);
        }
    }
    assert forall|x: Seq<char>| #[trigger] has_key(a, x) implies pairs_map(a)[x] == pairs_map(b)[x] by {
        let j = choose|j: int| 0 <= j < a.len() && #[trigger] a[j].0@ == x;
        lemma_pairs_map_at(a, j);
        lemma_pairs_map_at(b, j);
    }
    assert(pairs_map(a) =~= pairs_map(b));
}

/// The settings of Parquet's writer properties for writer options.
pub open spec fn settings_of(o: WriterOptionsModel) -> SettingsModel {
    SettingsModel {
        codec: o.compression,
        row_group_rows: Some(o.row_group_size),
        page_size_limit: o.page_size,
        column_codecs: o.column_compressions,
        column_encodings: o.column_encodings,
    }
}

/// In the writer properties of options, the codec of a column is the last
/// one set for it with `with_column_compression`, and every other column
/// keeps the codec it had; likewise for encodings.
pub proof fn law_last_column_setting_wins(
    o: WriterOptionsModel,
    column: Seq<char>,
    other: Seq<char>,
    c: Compression,
    e: Encoding,
)
    requires
        other != column,
    ensures
        codec_of(settings_of(WriterOptionsModel { column_compressions: o.column_compressions.insert(column, c), ..o }), column) == c,
        codec_of(settings_of(WriterOptionsModel { column_compressions: o.column_compressions.insert(column, c), ..o }), other)
            == codec_of(settings_of(o), other),
        encoding_of(settings_of(WriterOptionsModel { column_encodings: o.column_encodings.insert(column, e), ..o }), column)
            == Some(e),
        encoding_of(settings_of(WriterOptionsModel { column_encodings: o.column_encodings.insert(column, e), ..o }), other)
            == encoding_of(settings_of(o), other),
{
}

/// Options of a writer: the file's compression, the largest number of rows
/// in a row group, the page size limit in bytes, and per-column compressions
/// and encodings.
pub struct WriterOptions {
    compression: Compression,
    row_group_size: usize,
    page_size: usize,
    column_compressions: Vec<(String, Compression)>,
    column_encodings: Vec<(String, Encoding)>,
}

pub struct WriterOptionsModel {
    pub compression: Compression,
    pub row_group_size: usize,
    pub page_size: usize,
    pub column_compressions: Map<Seq<char>, Compression>,
    pub column_encodings: Map<Seq<char>, Encoding>,
}

impl View for WriterOptions {
    type V = WriterOptionsModel;

    closed spec fn view(&self) -> WriterOptionsModel {
        WriterOptionsModel {
            compression: self.compression,
            row_group_size: self.row_group_size,
            page_size: self.page_size,
            column_compressions: pairs_map(self.column_compressions@),
            column_encodings: pairs_map(self.column_encodings@),
        }
    }
}

impl WriterOptions {
    #[verifier::type_invariant]
    spec fn well_formed(&self) -> bool {
        keys_distinct(self.column_compressions@) && keys_distinct(self.column_encodings@)
            && self.row_group_size > 0
    }

    /// Uncompressed, row groups of at most 134217728 rows, pages of 1 MiB, no
    /// per-column settings.
    pub fn create() -> (o: WriterOptions)
        ensures
            o@ == (WriterOptionsModel {
                compression: Compression::Uncompressed,
                row_group_size: 134217728,
                page_size: 1048576,
                column_compressions: Map::empty(),
                column_encodings: Map::empty(),
            }),
    {
        let o = WriterOptions {
            compression: Compression::Uncompressed,
            row_group_size: 128 * 1024 * 1024,
            page_size: 1024 * 1024,
            column_compressions: Vec::new(),
            column_encodings: Vec::new(),
        };
        assert(pairs_map(o.column_compressions@) =~= Map::empty());
        assert(pairs_map(o.column_encodings@) =~= Map::empty());
        o
    }

    /// A copy of these options.
    pub fn duplicate(&self) -> (o: WriterOptions)
        ensures
            o@ == self@,
    {
        proof {
            use_type_invariant(self);
        }
        let cc = duplicate_pairs(&self.column_compressions);
        let ce = duplicate_pairs(&self.column_encodings);
        proof {
            lemma_pairs_map_same(cc@, self.column_compressions@);
            lemma_pairs_map_same(ce@, self.column_encodings@);
        }
        WriterOptions {
            compression: self.compression,
            row_group_size: self.row_group_size,
            page_size: self.page_size,
            column_compressions: cc,
            column_encodings: ce,
        }
    }

    /// These options with another file compression.
    pub fn with_compression(&self, compression: Compression) -> (o: WriterOptions)
        ensures
            o@ == (WriterOptionsModel { compression, ..self@ }),
    {
        let d = self.duplicate();
        proof {
            use_type_invariant(&d);
        }
        let WriterOptions { row_group_size, page_size, column_compressions, column_encodings, .. } = d;
        WriterOptions { compression, row_group_size, page_size, column_compressions, column_encodings }
    }

    /// These options with the compression of one column set.
    pub fn with_column_compression(&self, column: String, compression: Compression) -> (o: WriterOptions)
        ensures
            o@ == (WriterOptionsModel {
                column_compressions: self@.column_compressions.insert(column@, compression),
                ..self@
            }),
    {
        let d = self.duplicate();
        proof {
            use_type_invariant(&d);
        }
        let WriterOptions { compression: c, row_group_size, page_size, column_compressions, column_encodings } = d;
        let mut cc = column_compressions;
        set_pair(&mut cc, column, compression);
        WriterOptions { compression: c, row_group_size, page_size, column_compressions: cc, column_encodings }
    }

    /// These options with the encoding of one column set.
    pub fn with_column_encoding(&self, column: String, encoding: Encoding) -> (o: WriterOptions)
        ensures
            o@ == (WriterOptionsModel {
                column_encodings: self@.column_encodings.insert(column@, encoding),
                ..self@
            }),
    {
        let d = self.duplicate();
        proof {
            use_type_invariant(&d);
        }
        let WriterOptions { compression, row_group_size, page_size, column_compressions, column_encodings } = d;
        let mut ce = column_encodings;
        set_pair(&mut ce, column, encoding);
        WriterOptions { compression, row_group_size, page_size, column_compressions, column_encodings: ce }
    }

    /// These options with another row group size; refused unless positive
    /// and a `usize`.
    pub fn with_row_group_size(&self, bytes: i64) -> (r: Result<WriterOptions, ParquetError>)
        ensures
            (bytes <= 0 || bytes > usize::MAX) ==> r == Err::<WriterOptions, ParquetError>(
                ParquetError::InvalidRowGroupSize(bytes),
            ),
            (0 < bytes <= usize::MAX) ==> (r matches Ok(o) && o@ == (WriterOptionsModel {
                row_group_size: bytes as usize,
                ..self@
            })),
    {
        if bytes <= 0 || bytes as u64 > usize::MAX as u64 {
            return Err(ParquetError::InvalidRowGroupSize(bytes));
        }
        let d = self.duplicate();
        proof {
            use_type_invariant(&d);
        }
        let WriterOptions { compression, page_size, column_compressions, column_encodings, .. } = d;
        Ok(WriterOptions { compression, row_group_size: bytes as usize, page_size, column_compressions, column_encodings })
    }

    /// These options with another page size; refused unless positive.
    pub fn with_page_size(&self, bytes: i64) -> (r: Result<WriterOptions, ParquetError>)
        ensures
            bytes <= 0 ==> r == Err::<WriterOptions, ParquetError>(ParquetError::InvalidPageSize(bytes)),
            bytes > 0 ==> (r matches Ok(o) && o@ == (WriterOptionsModel { page_size: bytes as usize, ..self@ })),
    {
        if bytes <= 0 {
            return Err(ParquetError::InvalidPageSize(bytes));
        }
        let d = self.duplicate();
        proof {
            use_type_invariant(&d);
        }
        let WriterOptions { compression, row_group_size, column_compressions, column_encodings, .. } = d;
        Ok(WriterOptions { compression, row_group_size, page_size: bytes as usize, column_compressions, column_encodings })
    }

    /// The file's compression.
    pub fn compression(&self) -> (c: Compression)
        ensures
            c == self@.compression,
    {
        self.compression
    }

    /// The largest number of rows in a row group.
    pub fn row_group_size(&self) -> (n: usize)
        ensures
            n == self@.row_group_size,
    {
        self.row_group_size
    }

    /// The page size limit in bytes.
    pub fn page_size(&self) -> (n: usize)
        ensures
            n == self@.page_size,
    {
        self.page_size
    }

    /// The per-column compressions, one pair per column.
    pub fn column_compressions(&self) -> (r: Vec<(String, Compression)>)
        ensures
            keys_distinct(r@),
            pairs_map(r@) == self@.column_compressions,
    {
        proof {
            use_type_invariant(self);
        }
        let r = duplicate_pairs(&self.column_compressions);
        proof {
            lemma_pairs_map_same(r@, self.column_compressions@);
        }
        r
    }

    /// The per-column encodings, one pair per column.
    pub fn column_encodings(&self) -> (r: Vec<(String, Encoding)>)
        ensures
            keys_distinct(r@),
            pairs_map(r@) == self@.column_encodings,
    {
        proof {
            use_type_invariant(self);
        }
        let r = duplicate_pairs(&self.column_encodings);
        proof {
            lemma_pairs_map_same(r@, self.column_encodings@);
        }
        r
    }

    /// Parquet's writer properties for these options: the file's codec, the
    /// row group and page limits, and each column's codec and encoding, on
    /// Parquet's defaults. Refused when the encoding of a column is a
    /// dictionary encoding, which Parquet does not take as a column's
    /// encoding.
    pub fn to_writer_properties(&self) -> (r: Result<WriterSettings, ParquetError>)
        ensures
            match r {
                Ok(p) => (forall|c: Seq<char>| #[trigger] self@.column_encodings.contains_key(c)
                    ==> !is_dictionary(self@.column_encodings[c])) && p@ == settings_of(self@),
                Err(e) => e matches ParquetError::DictionaryFallbackEncoding { column }
                    && self@.column_encodings.contains_key(column@)
                    && is_dictionary(self@.column_encodings[column@]),
            },
    {
        proof {
            use_type_invariant(self);
        }
        let codec = parquet_compression(self.compression);
        let mut b = properties_builder();
        b = set_default_codec(b, &codec);
        b = set_row_group_rows(b, self.row_group_size);
        b = set_page_size_limit(b, self.page_size);
        let ghost cpairs = self.column_compressions@;
        proof {
            lemma_pairs_map_take(cpairs, 0);
        }
        let mut i: usize = 0;
        while i < self.column_compressions.len()
            invariant
                cpairs == self.column_compressions@,
                keys_distinct(cpairs),
                i <= cpairs.len(),
                b@ == (SettingsModel {
                    codec: self@.compression,
                    row_group_rows: Some(self@.row_group_size),
                    page_size_limit: self@.page_size,
                    column_codecs: pairs_map(cpairs.take(i as int)),
                    column_encodings: Map::empty(),
                }),
            decreases cpairs.len() - i,
        {
            let c = parquet_compression(self.column_compressions[i].1);
            b = set_column_codec(b, self.column_compressions[i].0.as_str(), &c);
            proof {
                lemma_pairs_map_take(cpairs, i as int);
            }
            i = i + 1;
        }
        proof {
            assert(cpairs.take(cpairs.len() as int) =~= cpairs);
            lemma_pairs_map_take(self.column_encodings@, 0);
        }
        let ghost pairs = self.column_encodings@;
        let mut j: usize = 0;
        while j < self.column_encodings.len()
            invariant
                pairs == self.column_encodings@,
                keys_distinct(pairs),
                j <= pairs.len(),
                forall|k: int| 0 <= k < j ==> !is_dictionary(#[trigger] pairs[k].1),
                b@ == (SettingsModel {
                    codec: self@.compression,
                    row_group_rows: Some(self@.row_group_size),
                    page_size_limit: self@.page_size,
                    column_codecs: self@.column_compressions,
                    column_encodings: pairs_map(pairs.take(j as int)),
                }),
            decreases pairs.len() - j,
        {
            let e = self.column_encodings[j].1;
            if e == Encoding::PlainDictionary || e == Encoding::RleDictionary {
                let column = self.column_encodings[j].0.clone();
                proof {
                    lemma_pairs_map_at(pairs, j as int);
                }
                return Err(ParquetError::DictionaryFallbackEncoding { column });
            }
            let pe = parquet_encoding(e);
            b = set_column_fallback_encoding(b, self.column_encodings[j].0.as_str(), &pe);
            proof {
                lemma_pairs_map_take(pairs, j as int);
            }
            j = j + 1;
        }
        proof {
            assert(pairs.take(pairs.len() as int) =~= pairs);
            assert forall|c: Seq<char>| #[trigger] self@.column_encodings.contains_key(c)
                implies !is_dictionary(self@.column_encodings[c]) by {
                assert(has_key(pairs, c));
                let k = choose|k: int| 0 <= k < pairs.len() && #[trigger] pairs[k].0@ == c;
                lemma_pairs_map_at(pairs, k);
            }
        }
        Ok(build_properties(b))
    }
}

} // verus!
