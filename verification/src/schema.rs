use vstd::prelude::*;

use crate::arrow_model::{fields_model, ArrowField};
use crate::column::{
    columns_from_arrow_fields, columns_model, columns_of_fields, columns_to_arrow_fields, duplicate_columns,
    lemma_columns_model, readable_fields, arrow_fields_of, Column, ColumnModel,
};
use crate::error::ParquetError;

verus! {

/// An ordered list of columns.
#[derive(Debug, PartialEq)]
pub struct Schema {
    pub columns: Vec<Column>,
}

impl View for Schema {
    type V = Seq<ColumnModel>;

    open spec fn view(&self) -> Seq<ColumnModel> {
        columns_model(self.columns@)
    }
}

/// Position of the first column named `name`.
pub open spec fn column_index(cs: Seq<ColumnModel>, name: Seq<char>) -> Option<int>
    decreases cs.len(),
{
    if cs.len() == 0 {
        None
    } else if cs[0].name == name {
        Some(0)
    } else {
        match column_index(cs.drop_first(), name) {
            Some(k) => Some(k + 1),
            None => None,
        }
    }
}

proof fn lemma_column_index(cs: Seq<ColumnModel>, name: Seq<char>, k: int)
    requires
        0 <= k <= cs.len(),
        forall|j: int| 0 <= j < k ==> cs[j].name != name,
        k < cs.len() ==> cs[k].name == name,
    ensures
        column_index(cs, name) == (if k == cs.len() { None } else { Some(k) }),
    decreases cs.len(),
{
    if cs.len() > 0 && k > 0 {
        lemma_column_index(cs.drop_first(), name, k - 1);
    }
}

impl Schema {
    /// A schema of the given columns; refused when there are none.
    pub fn create(columns: Vec<Column>) -> (r: Result<Schema, ParquetError>)
        ensures
            columns.len() == 0 ==> r == Err::<Schema, ParquetError>(ParquetError::EmptySchema),
            columns.len() > 0 ==> (r matches Ok(s) && s@ == columns_model(columns@)),
    {
        if columns.len() == 0 {
            return Err(ParquetError::EmptySchema);
        }
        Ok(Schema { columns })
    }

    /// Copies of the columns.
    pub fn columns(&self) -> (r: Vec<Column>)
        ensures
            columns_model(r@) == self@,
    {
        duplicate_columns(&self.columns)
    }

    fn find(&self, name: &String) -> (r: Option<usize>)
        ensures
            match r {
                Some(k) => column_index(self@, name@) == Some(k as int) && k < self.columns.len(),
                None => column_index(self@, name@) is None,
            },
    {
        proof {
            lemma_columns_model(self.columns@);
        }
        let mut i: usize = 0;
        while i < self.columns.len()
            invariant
                i <= self.columns.len(),
                self@.len() == self.columns.len(),
                forall|j: int| 0 <= j < self.columns.len() ==> #[trigger] self@[j] == self.columns@[j]@,
                forall|j: int| 0 <= j < i ==> self@[j].name != name@,
            decreases self.columns.len() - i,
        {
            if self.columns[i].name == *name {
                proof {
                    lemma_column_index(self@, name@, i as int);
                }
                return Some(i);
            }
            i = i + 1;
        }
        proof {
            lemma_column_index(self@, name@, i as int);
        }
        None
    }

    /// A copy of the first column named `name`; refused when there is none.
    pub fn column(&self, name: String) -> (r: Result<Column, ParquetError>)
        ensures
            match column_index(self@, name@) {
                Some(k) => r matches Ok(c) && c@ == self@[k],
                None => r == Err::<Column, ParquetError>(ParquetError::ColumnNotFound(name)),
            },
    {
        proof {
            lemma_columns_model(self.columns@);
        }
        match self.find(&name) {
            Some(k) => Ok(self.columns[k].duplicate()),
            None => Err(ParquetError::ColumnNotFound(name)),
        }
    }

    /// Whether some column is named `name`.
    pub fn has(&self, name: String) -> (b: bool)
        ensures
            b == (column_index(self@, name@) is Some),
    {
        self.find(&name).is_some()
    }

    /// The Arrow fields of the columns.
    pub fn to_arrow_schema(&self) -> (r: Vec<ArrowField>)
        ensures
            fields_model(r@) == arrow_fields_of(self@),
    {
        columns_to_arrow_fields(&self.columns)
    }

    /// The schema described by a list of Arrow fields.
    pub fn from_arrow_schema(fields: &Vec<ArrowField>) -> (s: Schema)
        requires
            readable_fields(fields_model(fields@)),
        ensures
            s@ == columns_of_fields(fields_model(fields@)),
    {
        Schema { columns: columns_from_arrow_fields(fields) }
    }
}

/// Looking a column up by name: a schema has a column named `name` exactly
/// when some column bears that name, and the one it gives is the first of
/// them.
pub proof fn law_column_lookup(cs: Seq<ColumnModel>, name: Seq<char>)
    ensures
        (column_index(cs, name) is Some) <==> (exists|j: int| 0 <= j < cs.len() && #[trigger] cs[j].name == name),
        column_index(cs, name) matches Some(k) ==> 0 <= k < cs.len() && cs[k].name == name && forall|j: int|
            0 <= j < k ==> #[trigger] cs[j].name != name,
    decreases cs.len(),
{
    if cs.len() > 0 {
        let rest = cs.drop_first();
        law_column_lookup(rest, name);
        if cs[0].name != name {
            assert forall|j: int| 0 <= j < cs.len() && #[trigger] cs[j].name == name implies 0 <= j - 1 < rest.len()
                && rest[j - 1].name == name by {
                assert(j != 0);
                assert(rest[j - 1] == cs[j]);
            }
            if let Some(k) = column_index(rest, name) {
                assert(rest[k] == cs[k + 1]);
                assert forall|j: int| 0 <= j < k + 1 implies #[trigger] cs[j].name != name by {
                    if j > 0 {
                        assert(rest[j - 1] == cs[j]);
                    }
                }
            } else {
                assert forall|j: int| 0 <= j < rest.len() implies #[trigger] rest[j].name != name by {}
            }
        }
    }
}

} // verus!
