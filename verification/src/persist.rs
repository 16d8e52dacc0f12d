use vstd::prelude::*;

use crate::catalog::{ids_increasing, Catalog, CatalogV};
use crate::record::{views_of, Record, RecordV};

verus! {

/// An immutable point-in-time copy of a catalog, the form that a durable
/// backend writes out and reads back: the record rows plus the id counter.
pub struct Snapshot {
    pub records: Vec<Record>,
    pub next_id: u64,
}

/// Mathematical image of a [`Snapshot`].
#[verifier::ext_equal]
pub struct SnapshotV {
    pub records: Seq<RecordV>,
    pub next_id: u64,
}

impl View for Snapshot {
    type V = SnapshotV;

    open spec fn view(&self) -> SnapshotV {
        SnapshotV { records: views_of(self.records@), next_id: self.next_id }
    }
}

/// The catalog a snapshot stands for.
pub open spec fn catalog_of(s: SnapshotV) -> CatalogV {
    CatalogV { records: s.records, next_id: s.next_id }
}

/// The snapshot a catalog yields.
pub open spec fn spec_snapshot(c: CatalogV) -> SnapshotV {
    SnapshotV { records: c.records, next_id: c.next_id }
}

/// A snapshot is well formed when the catalog it stands for is.
pub open spec fn snapshot_wf(s: SnapshotV) -> bool {
    catalog_of(s).wf()
}

/// What loading a snapshot yields: the catalog it stands for, or nothing
/// when the stored state is malformed.
pub open spec fn spec_load(s: SnapshotV) -> Option<CatalogV> {
    if snapshot_wf(s) {
        Option::Some(catalog_of(s))
    } else {
        Option::None
    }
}

/// Law: a snapshot of a well-formed catalog loads back to that same
/// catalog, the empty catalog included.
pub proof fn lemma_round_trip(c: CatalogV)
    requires
        c.wf(),
    ensures
        spec_load(spec_snapshot(c)) == Some(c),
{
    assert(catalog_of(spec_snapshot(c)) =~= c);
}

/// A copy of a run of records, element for element.
fn clone_records(v: &Vec<Record>) -> (out: Vec<Record>)
    ensures
        views_of(out@) == views_of(v@),
{
    let n = v.len();
    let mut out: Vec<Record> = Vec::new();
    let mut i: usize = 0;
    while i < n
        invariant
            n == v.len(),
            i <= n,
            out@.len() == i,
            forall|k: int| 0 <= k < i ==> #[trigger] out@[k]@ == v@[k]@,
        decreases n - i,
    {
        out.push(v[i].clone());
        i += 1;
    }
    proof {
        assert forall|k: int| 0 <= k < n implies views_of(out@)[k] == views_of(v@)[k] by {
            assert(views_of(out@)[k] == out@[k]@);
            assert(views_of(v@)[k] == v@[k]@);
        }
        assert(views_of(out@) =~= views_of(v@));
    }
    out
}

/// The point-in-time copy of a catalog that the flush scheduler hands to a
/// durable backend.
pub fn snapshot_of(c: &Catalog) -> (s: Snapshot)
    ensures
        s@ == spec_snapshot(c@),
{
    let records = clone_records(&c.records);
    let s = Snapshot { records, next_id: c.next_id };
    proof {
        assert(s@ =~= spec_snapshot(c@));
    }
    s
}

/// Ids that increase at every adjacent pair increase pairwise.
proof fn lemma_chain(s: Seq<RecordV>, i: int, j: int)
    requires
        forall|k: int| 0 <= k && k + 1 < s.len() ==> #[trigger] s[k].id < s[k + 1].id,
        0 <= i < j < s.len(),
    ensures
        s[i].id < s[j].id,
    decreases j - i,
{
    if i + 1 == j {
        assert(s[i].id < s[i + 1].id);
    } else {
        lemma_chain(s, i, j - 1);
        assert(s[j - 1].id < s[j].id);
    }
}

proof fn lemma_adjacent_implies_increasing(s: Seq<RecordV>)
    requires
        forall|k: int| 0 <= k && k + 1 < s.len() ==> #[trigger] s[k].id < s[k + 1].id,
    ensures
        ids_increasing(s),
{
    assert forall|i: int, j: int| 0 <= i < j < s.len() implies s[i].id < s[j].id by {
        lemma_chain(s, i, j);
    }
}

/// Rebuilds a catalog from a stored snapshot, validating it: malformed
/// state (an id out of order or not below the counter, or a zero counter)
/// yields `None` rather than a catalog that breaks the invariant.
pub fn load(s: &Snapshot) -> (r: Option<Catalog>)
    ensures
        match r {
            Some(c) => spec_load(s@) == Some(c@),
            None => spec_load(s@) is None,
        },
{
    if s.next_id < 1 {
        return None;
    }
    let n = s.records.len();
    let mut i: usize = 0;
    while i < n
        invariant
            n == s.records.len(),
            i <= n,
            forall|k: int| 0 <= k < i ==> #[trigger] s@.records[k].id < s@.next_id,
            forall|k: int|
                0 <= k < i && k + 1 < n ==> #[trigger] s@.records[k].id < s@.records[k + 1].id,
        decreases n - i,
    {
        if s.records[i].id >= s.next_id {
            proof {
                assert(catalog_of(s@).records[i as int].id == s.records@[i as int]@.id);
                assert(!catalog_of(s@).wf());
            }
            return None;
        }
        if i + 1 < n && s.records[i].id >= s.records[i + 1].id {
            proof {
                assert(s@.records[i as int].id == s.records@[i as int]@.id);
                assert(s@.records[i as int + 1].id == s.records@[i as int + 1]@.id);
                assert(!ids_increasing(s@.records));
            }
            return None;
        }
        i += 1;
    }
    proof {
        lemma_adjacent_implies_increasing(s@.records);
        assert(catalog_of(s@).wf());
    }
    let c = Catalog { records: clone_records(&s.records), next_id: s.next_id };
    proof {
        assert(c@ =~= catalog_of(s@));
    }
    Some(c)
}

/// The startup path: reconstructs the catalog from stored state, or starts
/// empty when no state exists or what exists is malformed. Corruption is
/// absorbed here, never surfaced as a fatal error.
pub fn load_or_empty(s: Option<&Snapshot>) -> (c: Catalog)
    ensures
        c@.wf(),
        match s {
            Some(snap) => (if snapshot_wf(snap@) {
                c@ == catalog_of(snap@)
            } else {
                c@.records.len() == 0 && c@.next_id == 1
            }),
            None => c@.records.len() == 0 && c@.next_id == 1,
        },
{
    match s {
        Some(snap) => match load(snap) {
            Some(c) => c,
            None => Catalog::new(),
        },
        None => Catalog::new(),
    }
}

} // verus!
