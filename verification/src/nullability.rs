use vstd::prelude::*;

use crate::arrow_model::{fields_model, lemma_fields_model, ArrowField, ArrowType, ArrowTypeModel, FieldModel};
use crate::column_data::{datas_model, lemma_datas_model, ColumnData, ColumnValues, DataModel, ValuesModel};
use crate::encode::min_len;

verus! {

/// Every slot holds a value.
pub open spec fn no_nulls(valid: Seq<bool>) -> bool {
    forall|i: int| 0 <= i < valid.len() ==> valid[i]
}

/// Every null of a child falls on a null of its parent.
pub open spec fn nulls_masked(child: Seq<bool>, parent: Seq<bool>) -> bool {
    forall|i: int| 0 <= i < child.len() && !child[i] ==> i < parent.len() && !parent[i]
}

/// Whether Arrow accepts a column of this type with these nulls when it
/// finishes it: a list whose element field is required has no null element;
/// a struct's required field is null only where the struct is; a map's keys,
/// and its values where that field is required, have no null; and so on
/// inside.
pub open spec fn arrow_accepts(d: DataModel, t: ArrowTypeModel) -> bool
    decreases d, 0int,
{
    match t {
        ArrowTypeModel::List(ef) => match d.values {
            ValuesModel::Lists(_, c) => (ef.nullable || no_nulls(c.valid)) && arrow_accepts(*c, ef.data_type),
            _ => true,
        },
        ArrowTypeModel::Struct(fs) => match d.values {
            ValuesModel::Structs(cs) => children_accept(cs, fs, d.valid, min_len(cs.len(), fs.len())),
            _ => true,
        },
        ArrowTypeModel::MapOf(e, _) => match e.data_type {
            ArrowTypeModel::Struct(sfs) => if sfs.len() >= 2 {
                match d.values {
                    ValuesModel::Maps(_, k, v) => {
                        &&& sfs[0].nullable || no_nulls(k.valid)
                        &&& sfs[1].nullable || no_nulls(v.valid)
                        &&& arrow_accepts(*k, sfs[0].data_type)
                        &&& arrow_accepts(*v, sfs[1].data_type)
                    },
                    _ => true,
                }
            } else {
                true
            },
            _ => true,
        },
        _ => true,
    }
}

/// The first `k` children of a struct whose own slots are `pv`, as Arrow
/// accepts them.
pub open spec fn children_accept(cs: Seq<DataModel>, fs: Seq<FieldModel>, pv: Seq<bool>, k: int) -> bool
    decreases cs, k,
{
    if k <= 0 || k > cs.len() || k > fs.len() {
        true
    } else {
        &&& children_accept(cs, fs, pv, k - 1)
        &&& fs[k - 1].nullable || nulls_masked(cs[k - 1].valid, pv)
        &&& arrow_accepts(cs[k - 1], fs[k - 1].data_type)
    }
}

/// Whether every slot holds a value (`no_nulls`).
fn all_valid(v: &Vec<bool>) -> (b: bool)
    ensures
        b == no_nulls(v@),
{
    let mut i: usize = 0;
    while i < v.len()
        invariant
            i <= v.len(),
            forall|j: int| 0 <= j < i ==> v@[j],
        decreases v.len() - i,
    {
        if !v[i] {
            return false;
        }
        i = i + 1;
    }
    true
}

/// Whether every null of a child falls on a null of its parent
/// (`nulls_masked`).
fn masked(child: &Vec<bool>, parent: &Vec<bool>) -> (b: bool)
    ensures
        b == nulls_masked(child@, parent@),
{
    let mut i: usize = 0;
    while i < child.len()
        invariant
            i <= child.len(),
            forall|j: int| 0 <= j < i && !child@[j] ==> j < parent@.len() && !parent@[j],
        decreases child.len() - i,
    {
        if !child[i] && (i >= parent.len() || parent[i]) {
            return false;
        }
        i = i + 1;
    }
    true
}

/// Whether Arrow accepts a column of this type with these nulls when it
/// finishes it (`arrow_accepts`).
pub fn column_accepted(d: &ColumnData, t: &ArrowType) -> (b: bool)
    ensures
        b == arrow_accepts(d@, t@),
    decreases d@, 0int,
{
    match t {
        ArrowType::List(ef) => match &d.values {
            ColumnValues::Lists(ends, c) => {
                proof {
                    assert(d@.values == ValuesModel::Lists(ends@, Box::new(c@)));
                    assert(decreases_to!(d@ => d@.values));
                    assert(decreases_to!(d@.values => d@.values->Lists_1));
                }
                (ef.nullable || all_valid(&c.valid)) && column_accepted(c, &ef.data_type)
            },
            _ => true,
        },
        ArrowType::Struct(fs) => match &d.values {
            ColumnValues::Structs(cs) => {
                proof {
                    lemma_datas_model(cs@);
                    lemma_fields_model(fs@);
                    assert(t@ == ArrowTypeModel::Struct(fields_model(fs@)));
                    assert(d@.values == ValuesModel::Structs(datas_model(cs@)));
                    assert(decreases_to!(d@ => d@.values));
                    assert(decreases_to!(d@.values => d@.values->Structs_0));
                }
                children_accepted(cs, fs, &d.valid)
            },
            _ => true,
        },
        ArrowType::MapOf(e, _) => match &e.data_type {
            ArrowType::Struct(sfs) => {
                proof {
                    lemma_fields_model(sfs@);
                    assert(e@.data_type == ArrowTypeModel::Struct(fields_model(sfs@)));
                }
                if sfs.len() < 2 {
                    return true;
                }
                match &d.values {
                    ColumnValues::Maps(ends, k, v) => {
                        proof {
                            assert(d@.values == ValuesModel::Maps(ends@, Box::new(k@), Box::new(v@)));
                            assert(decreases_to!(d@ => d@.values));
                            assert(decreases_to!(d@.values => d@.values->Maps_1));
                            assert(decreases_to!(d@.values => d@.values->Maps_2));
                        }
                        (sfs[0].nullable || all_valid(&k.valid)) && (sfs[1].nullable || all_valid(&v.valid))
                            && column_accepted(k, &sfs[0].data_type) && column_accepted(v, &sfs[1].data_type)
                    },
                    _ => true,
                }
            },
            _ => true,
        },
        _ => true,
    }
}

/// Whether Arrow accepts the children of a struct whose own slots are `pv`
/// (`children_accept`).
fn children_accepted(cs: &Vec<ColumnData>, fs: &Vec<ArrowField>, pv: &Vec<bool>) -> (b: bool)
    ensures
        b == children_accept(datas_model(cs@), fields_model(fs@), pv@, min_len(cs.len() as nat, fs.len() as nat)),
    decreases datas_model(cs@), 1int,
{
    let ghost csm = datas_model(cs@);
    let ghost fsm = fields_model(fs@);
    proof {
        lemma_fields_model(fs@);
        lemma_datas_model(cs@);
    }
    let m: usize = if cs.len() < fs.len() { cs.len() } else { fs.len() };
    let mut k: usize = 0;
    while k < m
        invariant
            k <= m,
            m as int == min_len(cs.len() as nat, fs.len() as nat),
            m <= cs.len() && m <= fs.len(),
            csm == datas_model(cs@),
            fsm == fields_model(fs@),
            csm.len() == cs.len(),
            fsm.len() == fs.len(),
            forall|j: int| 0 <= j < cs.len() ==> #[trigger] csm[j] == cs@[j]@,
            forall|j: int| 0 <= j < fs.len() ==> #[trigger] fsm[j] == fs@[j]@,
            children_accept(csm, fsm, pv@, k as int),
        decreases m - k,
    {
        proof {
            assert(decreases_to!(csm => csm[k as int]));
        }
        let ok = (fs[k].nullable || masked(&cs[k].valid, pv)) && column_accepted(&cs[k], &fs[k].data_type);
        if !ok {
            proof {
                lemma_children_prefix(csm, fsm, pv@, k + 1, m as int);
            }
            return false;
        }
        k = k + 1;
    }
    true
}

/// Children whose first `k` are not accepted are not accepted.
proof fn lemma_children_prefix(cs: Seq<DataModel>, fs: Seq<FieldModel>, pv: Seq<bool>, k: int, m: int)
    requires
        0 < k <= m <= cs.len(),
        m <= fs.len(),
        !children_accept(cs, fs, pv, k),
    ensures
        !children_accept(cs, fs, pv, m),
    decreases m - k,
{
    if m > k {
        lemma_children_prefix(cs, fs, pv, k, m - 1);
    }
}

} // verus!
