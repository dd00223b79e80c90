use vstd::prelude::*;

use crate::options::texts;

verus! {

/// Position of the first `name` in `names`.
pub open spec fn name_index(names: Seq<Seq<char>>, name: Seq<char>) -> Option<int>
    decreases names.len(),
{
    if names.len() == 0 {
        None
    } else if names[0] == name {
        Some(0)
    } else {
        match name_index(names.drop_first(), name) {
            Some(k) => Some(k + 1),
            None => None,
        }
    }
}

/// The positions of the requested columns among a file's top-level fields:
/// for each requested name, in order, the first field of that name; names
/// that no field has are skipped.
pub open spec fn projection(requested: Seq<Seq<char>>, fields: Seq<Seq<char>>) -> Seq<int>
    decreases requested.len(),
{
    if requested.len() == 0 {
        Seq::empty()
    } else {
        projection(requested.drop_last(), fields) + match name_index(fields, requested.last()) {
            Some(k) => seq![k],
            None => Seq::empty(),
        }
    }
}

proof fn lemma_name_index(names: Seq<Seq<char>>, name: Seq<char>, k: int)
    requires
        0 <= k <= names.len(),
        forall|j: int| 0 <= j < k ==> names[j] != name,
        k < names.len() ==> names[k] == name,
    ensures
        name_index(names, name) == (if k == names.len() { None } else { Some(k) }),
    decreases names.len(),
{
    if names.len() > 0 && k > 0 {
        lemma_name_index(names.drop_first(), name, k - 1);
    }
}

/// What `name_index` finds: the first field of that name, or that no field
/// has it.
proof fn lemma_name_index_found(names: Seq<Seq<char>>, name: Seq<char>)
    ensures
        match name_index(names, name) {
            Some(k) => 0 <= k < names.len() && names[k] == name && forall|j: int| 0 <= j < k ==> names[j] != name,
            None => forall|j: int| 0 <= j < names.len() ==> names[j] != name,
        },
    decreases names.len(),
{
    if names.len() > 0 {
        lemma_name_index_found(names.drop_first(), name);
        if names[0] != name {
            assert forall|j: int| 1 <= j < names.len() implies names[j] == names.drop_first()[j - 1] by {}
        }
    }
}

/// Whether no two fields share a name.
pub open spec fn distinct_names(fields: Seq<Seq<char>>) -> bool {
    forall|i: int, j: int| 0 <= i < j < fields.len() ==> fields[i] != fields[j]
}

/// A projection picks, among fields of distinct names, exactly those whose
/// name was requested: a field's position is in it when and only when its
/// name is among the requested ones, names that no field has select
/// nothing, and every position it holds is a field's. (Parquet's root mask
/// reads the picked fields in the file's order.)
pub proof fn law_projection_selects_requested(requested: Seq<Seq<char>>, fields: Seq<Seq<char>>)
    requires
        distinct_names(fields),
    ensures
        forall|i: int| 0 <= i < fields.len() ==> (#[trigger] projection(requested, fields).contains(i) <==> requested.contains(
            fields[i],
        )),
        forall|m: int| 0 <= m < projection(requested, fields).len() ==> 0 <= #[trigger] projection(requested, fields)[m]
            < fields.len(),
    decreases requested.len(),
{
    if requested.len() > 0 {
        let pre = requested.drop_last();
        law_projection_selects_requested(pre, fields);
        let last = requested.last();
        lemma_name_index_found(fields, last);
        let p0 = projection(pre, fields);
        let tail = match name_index(fields, last) {
            Some(k) => seq![k],
            None => Seq::<int>::empty(),
        };
        let p = projection(requested, fields);
        assert(p == p0 + tail);
        assert forall|i: int| 0 <= i < fields.len() implies (#[trigger] p.contains(i) <==> requested.contains(fields[i])) by {
            if p.contains(i) {
                let m = choose|m: int| 0 <= m < p.len() && p[m] == i;
                if m < p0.len() {
                    assert(p0[m] == i);
                    assert(p0.contains(i));
                    let r = choose|r: int| 0 <= r < pre.len() && pre[r] == fields[i];
                    assert(requested[r] == pre[r]);
                } else {
                    assert(tail[m - p0.len()] == i);
                    assert(fields[i] == last);
                    assert(requested[requested.len() - 1] == last);
                }
            }
            if requested.contains(fields[i]) {
                let r = choose|r: int| 0 <= r < requested.len() && requested[r] == fields[i];
                if r < requested.len() - 1 {
                    assert(pre[r] == requested[r]);
                    assert(pre.contains(fields[i]));
                    assert(p0.contains(i));
                    let m = choose|m: int| 0 <= m < p0.len() && p0[m] == i;
                    assert(p[m] == i);
                } else {
                    assert(last == fields[i]);
                    match name_index(fields, last) {
                        Some(k) => {
                            if k != i {
                                if k < i {
                                    assert(fields[k] != fields[i]);
                                } else {
                                    assert(fields[i] != fields[k]);
                                }
                            }
                            assert(p[p0.len() as int] == i);
                        },
                        None => {},
                    }
                }
            }
        }
        assert forall|m: int| 0 <= m < p.len() implies 0 <= #[trigger] p[m] < fields.len() by {
            if m < p0.len() {
                assert(p[m] == p0[m]);
            }
        }
    }
}

fn find_name(names: &Vec<String>, name: &String) -> (r: Option<usize>)
    ensures
        match r {
            Some(k) => name_index(texts(names@), name@) == Some(k as int) && k < names.len(),
            None => name_index(texts(names@), name@) is None,
        },
{
    let ghost ts = texts(names@);
    let mut i: usize = 0;
    while i < names.len()
        invariant
            i <= names.len(),
            ts == texts(names@),
            ts.len() == names.len(),
            forall|j: int| 0 <= j < i ==> ts[j] != name@,
        decreases names.len() - i,
    {
        if names[i] == *name {
            proof {
                lemma_name_index(ts, name@, i as int);
            }
            return Some(i);
        }
        i = i + 1;
    }
    proof {
        lemma_name_index(ts, name@, i as int);
    }
    None
}

/// The positions of the requested columns among the names of a file's
/// top-level fields.
pub fn projection_indices(requested: &Vec<String>, field_names: &Vec<String>) -> (r: Vec<usize>)
    ensures
        r@.map_values(|k: usize| k as int) == projection(texts(requested@), texts(field_names@)),
{
    let mut r: Vec<usize> = Vec::new();
    let mut i: usize = 0;
    while i < requested.len()
        invariant
            i <= requested.len(),
            r@.map_values(|k: usize| k as int) == projection(texts(requested@).subrange(0, i as int), texts(field_names@)),
        decreases requested.len() - i,
    {
        let ghost before = r@;
        let found = find_name(field_names, &requested[i]);
        proof {
            let sub = texts(requested@).subrange(0, i + 1);
            assert(sub.drop_last() =~= texts(requested@).subrange(0, i as int));
            assert(sub.last() == requested@[i as int]@);
        }
        match found {
            Some(k) => {
                r.push(k);
                assert(r@.map_values(|k: usize| k as int) =~= before.map_values(|k: usize| k as int) + seq![k as int]);
            },
            None => {
                assert(before.map_values(|k: usize| k as int) + Seq::<int>::empty() =~= before.map_values(|k: usize| k as int));
            },
        }
        i = i + 1;
    }
    assert(texts(requested@).subrange(0, requested.len() as int) =~= texts(requested@));
    r
}

/// Whether a file still has batches to give: set once its reader reports the
/// end, after which no batch is read again.
pub struct BatchCursor {
    exhausted: bool,
}

impl View for BatchCursor {
    type V = bool;

    closed spec fn view(&self) -> bool {
        self.exhausted
    }
}

impl BatchCursor {
    /// A cursor before the first batch.
    pub fn new() -> (c: BatchCursor)
        ensures
            !c@,
    {
        BatchCursor { exhausted: false }
    }

    /// Whether the reader is still to be asked for a batch.
    pub fn active(&self) -> (b: bool)
        ensures
            b == !self@,
    {
        !self.exhausted
    }

    /// Records that the reader reported the end.
    pub fn finish(&mut self)
        ensures
            final(self)@,
    {
        self.exhausted = true;
    }
}

} // verus!
