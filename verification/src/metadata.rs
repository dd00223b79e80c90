use vstd::prelude::*;

verus! {

/// Facts about a Parquet file: its number of rows and of row groups, the
/// application that wrote it, and its format version.
#[derive(Debug, PartialEq)]
pub struct Metadata {
    row_count: i64,
    row_group_count: i64,
    created_by: Option<String>,
    version: i64,
}

pub struct MetadataModel {
    pub row_count: i64,
    pub row_group_count: i64,
    pub created_by: Option<Seq<char>>,
    pub version: i64,
}

impl View for Metadata {
    type V = MetadataModel;

    closed spec fn view(&self) -> MetadataModel {
        MetadataModel {
            row_count: self.row_count,
            row_group_count: self.row_group_count,
            created_by: match self.created_by {
                Some(s) => Some(s@),
                None => None,
            },
            version: self.version,
        }
    }
}

pub open spec fn opt_text(s: Option<String>) -> Option<Seq<char>> {
    match s {
        Some(t) => Some(t@),
        None => None,
    }
}

impl Metadata {
    /// Metadata holding the given facts.
    pub fn new(row_count: i64, row_group_count: i64, created_by: Option<String>, version: i64) -> (m: Metadata)
        ensures
            m@ == (MetadataModel { row_count, row_group_count, created_by: opt_text(created_by), version }),
    {
        Metadata { row_count, row_group_count, created_by, version }
    }

    /// Metadata of a file as its footer gives it: the number of row groups is
    /// read as an `i64` and the version widened.
    pub fn from_footer(num_rows: i64, num_row_groups: usize, created_by: Option<String>, version: i32) -> (m: Metadata)
        ensures
            m@ == (MetadataModel {
                row_count: num_rows,
                row_group_count: num_row_groups as i64,
                created_by: opt_text(created_by),
                version: version as i64,
            }),
    {
        Metadata::new(num_rows, num_row_groups as i64, created_by, version as i64)
    }

    /// A copy of this metadata.
    pub fn duplicate(&self) -> (m: Metadata)
        ensures
            m@ == self@,
    {
        Metadata {
            row_count: self.row_count,
            row_group_count: self.row_group_count,
            created_by: match &self.created_by {
                Some(s) => Some(s.clone()),
                None => None,
            },
            version: self.version,
        }
    }

    /// The number of rows.
    pub fn row_count(&self) -> (n: i64)
        ensures
            n == self@.row_count,
    {
        self.row_count
    }

    /// The number of row groups.
    pub fn row_group_count(&self) -> (n: i64)
        ensures
            n == self@.row_group_count,
    {
        self.row_group_count
    }

    /// The application that wrote the file, when recorded.
    pub fn created_by(&self) -> (r: Option<String>)
        ensures
            opt_text(r) == self@.created_by,
    {
        match &self.created_by {
            Some(s) => Some(s.clone()),
            None => None,
        }
    }

    /// The format version.
    pub fn version(&self) -> (n: i64)
        ensures
            n == self@.version,
    {
        self.version
    }
}

} // verus!
