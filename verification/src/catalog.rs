use vstd::prelude::*;

use crate::record::{views_of, Record, RecordV};
use crate::text::{ci_contains, contains_ci};

verus! {

/// Search filters. A field filter of `None` matches every record; a filter
/// of `Some(p)` matches a record whose field contains `p` case-insensitively.
pub struct Query {
    pub title: Option<String>,
    pub artist: Option<String>,
    pub genre: Option<String>,
}

/// Mathematical image of a [`Query`].
#[verifier::ext_equal]
pub struct QueryV {
    pub title: Option<Seq<char>>,
    pub artist: Option<Seq<char>>,
    pub genre: Option<Seq<char>>,
}

impl View for Query {
    type V = QueryV;

    open spec fn view(&self) -> QueryV {
        QueryV {
            title: match self.title {
                Option::Some(s) => Option::Some(s@),
                Option::None => Option::None,
            },
            artist: match self.artist {
                Option::Some(s) => Option::Some(s@),
                Option::None => Option::None,
            },
            genre: match self.genre {
                Option::Some(s) => Option::Some(s@),
                Option::None => Option::None,
            },
        }
    }
}

/// One filter against one field: absent filters always match.
pub open spec fn field_matches(f: Option<Seq<char>>, field: Seq<char>) -> bool {
    match f {
        Option::Some(p) => ci_contains(p, field),
        Option::None => true,
    }
}

impl QueryV {
    /// Every supplied filter matches its field.
    pub open spec fn matches(self, r: RecordV) -> bool {
        &&& field_matches(self.title, r.title)
        &&& field_matches(self.artist, r.artist)
        &&& field_matches(self.genre, r.genre)
    }
}

/// Whether a record satisfies every supplied filter of the query.
pub fn record_matches(r: &Record, q: &Query) -> (b: bool)
    ensures
        b == q@.matches(r@),
{
    let title_ok = match &q.title {
        Option::Some(p) => contains_ci(r.title.as_str(), p.as_str()),
        Option::None => true,
    };
    let artist_ok = match &q.artist {
        Option::Some(p) => contains_ci(r.artist.as_str(), p.as_str()),
        Option::None => true,
    };
    let genre_ok = match &q.genre {
        Option::Some(p) => contains_ci(r.genre.as_str(), p.as_str()),
        Option::None => true,
    };
    title_ok && artist_ok && genre_ok
}

/// The error a caller sees when a referenced id is absent.
#[derive(Debug, PartialEq, Eq)]
pub enum CatalogError {
    NotFound,
}

/// The in-memory record store: every catalog entry, keyed by its position,
/// plus the counter from which the next id is assigned.
pub struct Catalog {
    pub records: Vec<Record>,
    pub next_id: u64,
}

/// Mathematical image of a [`Catalog`].
#[verifier::ext_equal]
pub struct CatalogV {
    pub records: Seq<RecordV>,
    pub next_id: u64,
}

impl View for Catalog {
    type V = CatalogV;

    open spec fn view(&self) -> CatalogV {
        CatalogV { records: views_of(self.records@), next_id: self.next_id }
    }
}

/// Ids strictly increase along the sequence, so they are pairwise distinct
/// and record the order of assignment.
pub open spec fn ids_increasing(s: Seq<RecordV>) -> bool {
    forall|i: int, j: int| 0 <= i < j < s.len() ==> #[trigger] s[i].id < #[trigger] s[j].id
}

/// Some record in `s` carries this id.
pub open spec fn has_id(s: Seq<RecordV>, id: u64) -> bool {
    exists|i: int| 0 <= i < s.len() && #[trigger] s[i].id == id
}

/// The position of the record carrying this id (meaningful when `has_id`).
pub open spec fn idx_of(s: Seq<RecordV>, id: u64) -> int {
    choose|i: int| 0 <= i < s.len() && #[trigger] s[i].id == id
}

/// The record carrying this id (meaningful when `has_id`).
pub open spec fn record_of(s: Seq<RecordV>, id: u64) -> RecordV {
    s[idx_of(s, id)]
}

/// With increasing ids, an index that carries `id` is the only one, so it
/// is the one `idx_of` picks.
pub proof fn lemma_found_index(s: Seq<RecordV>, id: u64, i: int)
    requires
        ids_increasing(s),
        0 <= i < s.len(),
        s[i].id == id,
    ensures
        has_id(s, id),
        idx_of(s, id) == i,
        record_of(s, id) == s[i],
{
    assert(has_id(s, id));
    let j = idx_of(s, id);
    assert(0 <= j < s.len() && s[j].id == id);
    if i < j {
        assert(s[i].id < s[j].id);
    }
    if j < i {
        assert(s[j].id < s[i].id);
    }
}

impl CatalogV {
    /// The catalog invariant: ids strictly increase along the sequence and
    /// every assigned id lies below `next_id`, which is at least 1.
    pub open spec fn wf(self) -> bool {
        &&& self.next_id >= 1
        &&& ids_increasing(self.records)
        &&& forall|i: int| 0 <= i < self.records.len() ==> #[trigger] self.records[i].id < self.next_id
    }
}

/// `r` with its play counter one higher.
pub open spec fn bumped(r: RecordV) -> RecordV {
    RecordV { play_count: (r.play_count + 1) as u64, ..r }
}

/// The catalog after one play of the record carrying `id` (meaningful when
/// `has_id` holds of the records).
pub open spec fn bump(c: CatalogV, id: u64) -> CatalogV {
    CatalogV {
        records: c.records.update(idx_of(c.records, id), bumped(record_of(c.records, id))),
        ..c
    }
}

impl Catalog {
    /// The empty catalog, from which the first assigned id is 1.
    pub fn new() -> (c: Catalog)
        ensures
            c@.wf(),
            c@.records.len() == 0,
            c@.next_id == 1,
    {
        Catalog { records: Vec::new(), next_id: 1 }
    }

    /// How many records the catalog holds.
    pub fn len(&self) -> (n: usize)
        ensures
            n == self@.records.len(),
    {
        self.records.len()
    }

    /// Appends a fresh record carrying the next id and a zero play counter,
    /// and returns a copy of it.
    pub fn insert(&mut self, title: String, artist: String, genre: String) -> (r: Record)
        requires
            old(self)@.wf(),
            old(self)@.next_id < u64::MAX,
        ensures
            final(self)@.wf(),
            r@.id == old(self)@.next_id,
            r@.play_count == 0,
            r@.title == title@,
            r@.artist == artist@,
            r@.genre == genre@,
            final(self)@.next_id == old(self)@.next_id + 1,
            final(self)@.records == old(self)@.records.push(r@),
            forall|i: int|
                0 <= i < old(self)@.records.len() ==> #[trigger] old(self)@.records[i].id < r@.id,
    {
        let id = self.next_id;
        let rec = Record { id, title, artist, genre, play_count: 0 };
        let ret = rec.clone();
        self.records.push(rec);
        self.next_id = id + 1;
        proof {
            assert(self@.records =~= old(self)@.records.push(ret@));
        }
        ret
    }

    /// A copy of the record carrying `id`, if any record does.
    pub fn get(&self, id: u64) -> (r: Option<Record>)
        requires
            self@.wf(),
        ensures
            r is Some <==> has_id(self@.records, id),
            r matches Some(rec) ==> rec@ == record_of(self@.records, id),
    {
        let n = self.records.len();
        let mut i: usize = 0;
        while i < n
            invariant
                n == self.records.len(),
                self@.wf(),
                i <= n,
                forall|k: int| 0 <= k < i ==> #[trigger] self@.records[k].id != id,
            decreases n - i,
        {
            if self.records[i].id == id {
                proof {
                    lemma_found_index(self@.records, id, i as int);
                }
                return Some(self.records[i].clone());
            }
            i += 1;
        }
        None
    }

    /// Raises the play counter of the record carrying `id` by exactly one
    /// and returns a copy of the updated record; no other record changes.
    pub fn increment_play(&mut self, id: u64) -> (r: Result<Record, CatalogError>)
        requires
            old(self)@.wf(),
            has_id(old(self)@.records, id) ==> record_of(old(self)@.records, id).play_count
                < u64::MAX,
        ensures
            final(self)@.wf(),
            r is Ok <==> has_id(old(self)@.records, id),
            r matches Err(e) ==> e == CatalogError::NotFound && final(self)@ == old(self)@,
            r matches Ok(rec) ==> rec@ == bumped(record_of(old(self)@.records, id)),
            r is Ok ==> final(self)@ == bump(old(self)@, id),
    {
        let n = self.records.len();
        let mut i: usize = 0;
        while i < n
            invariant
                self.records@ == old(self).records@,
                self.next_id == old(self).next_id,
                has_id(old(self)@.records, id) ==> record_of(old(self)@.records, id).play_count
                    < u64::MAX,
                n == self.records.len(),
                self@.wf(),
                i <= n,
                forall|k: int| 0 <= k < i ==> #[trigger] self@.records[k].id != id,
            decreases n - i,
        {
            if self.records[i].id == id {
                proof {
                    assert(self@.records =~= old(self)@.records);
                    lemma_found_index(self@.records, id, i as int);
                }
                let cur = self.records[i].clone();
                proof {
                    assert(has_id(old(self)@.records, id));
                    assert(cur@ == record_of(old(self)@.records, id));
                }
                let updated = Record { play_count: cur.play_count + 1, ..cur };
                let ret = updated.clone();
                self.records[i] = updated;
                proof {
                    assert(ret@ =~= bumped(record_of(old(self)@.records, id)));
                    assert(self@.records =~= old(self)@.records.update(i as int, ret@));
                    assert(self@ =~= bump(old(self)@, id));
                    assert forall|k: int| 0 <= k < self@.records.len() implies #[trigger] self@.records[k].id
                        == old(self)@.records[k].id by {}
                    assert(ids_increasing(self@.records));
                }
                return Ok(ret);
            }
            i += 1;
        }
        Err(CatalogError::NotFound)
    }

    /// All records whose fields satisfy every supplied filter, in store
    /// order.
    pub fn search(&self, q: &Query) -> (out: Vec<Record>)
        ensures
            views_of(out@) == filtered(self@.records, q@),
    {
        let n = self.records.len();
        let mut out: Vec<Record> = Vec::new();
        let mut i: usize = 0;
        while i < n
            invariant
                n == self.records.len(),
                i <= n,
                views_of(out@) == filtered(self@.records.subrange(0, i as int), q@),
            decreases n - i,
        {
            let ghost prefix = self@.records.subrange(0, i as int);
            if record_matches(&self.records[i], q) {
                out.push(self.records[i].clone());
            }
            i += 1;
            proof {
                let next = self@.records.subrange(0, i as int);
                assert(next.drop_last() =~= prefix);
                assert(next.last() == self@.records[i - 1]);
                assert(views_of(out@) =~= filtered(next, q@));
            }
        }
        proof {
            assert(self@.records.subrange(0, n as int) =~= self@.records);
        }
        out
    }
}

/// The subsequence of `s` whose records the query keeps, in order.
pub open spec fn filtered(s: Seq<RecordV>, q: QueryV) -> Seq<RecordV>
    decreases s.len(),
{
    if s.len() == 0 {
        Seq::empty()
    } else {
        let prefix = filtered(s.drop_last(), q);
        if q.matches(s.last()) {
            prefix.push(s.last())
        } else {
            prefix
        }
    }
}

/// Law: in a well-formed catalog, assigned ids are pairwise distinct and
/// increase in assignment order.
pub proof fn lemma_ids_distinct_and_increasing(c: CatalogV)
    requires
        c.wf(),
    ensures
        forall|i: int, j: int|
            #![trigger c.records[i].id, c.records[j].id]
            0 <= i < j < c.records.len() ==> c.records[i].id < c.records[j].id && c.records[i].id
                != c.records[j].id,
{
}

/// A run of `n` plays of one record, at the level of catalog images.
pub open spec fn bump_n(c: CatalogV, id: u64, n: nat) -> CatalogV
    decreases n,
{
    if n == 0 {
        c
    } else {
        bump(bump_n(c, id, (n - 1) as nat), id)
    }
}

/// One play raises exactly the played record's counter by one, keeps every
/// id, and leaves every other record untouched.
pub proof fn lemma_bump(c: CatalogV, id: u64)
    requires
        c.wf(),
        has_id(c.records, id),
        record_of(c.records, id).play_count < u64::MAX,
    ensures
        bump(c, id).wf(),
        bump(c, id).next_id == c.next_id,
        bump(c, id).records.len() == c.records.len(),
        has_id(bump(c, id).records, id),
        record_of(bump(c, id).records, id).play_count == record_of(c.records, id).play_count + 1,
        forall|k: int|
            0 <= k < c.records.len() ==> #[trigger] bump(c, id).records[k].id == c.records[k].id,
        forall|k: int|
            0 <= k < c.records.len() && c.records[k].id != id ==> #[trigger] bump(c, id).records[k]
                == c.records[k],
{
    let i = idx_of(c.records, id);
    assert(0 <= i < c.records.len() && c.records[i].id == id);
    let d = bump(c, id);
    assert forall|k: int| 0 <= k < c.records.len() implies #[trigger] d.records[k].id
        == c.records[k].id by {
        if k == i {
            assert(d.records[k] == bumped(record_of(c.records, id)));
        }
    }
    assert forall|p: int, q: int| 0 <= p < q < d.records.len() implies #[trigger] d.records[p].id
        < #[trigger] d.records[q].id by {
        assert(d.records[p].id == c.records[p].id);
        assert(d.records[q].id == c.records[q].id);
    }
    assert forall|k: int| 0 <= k < d.records.len() implies #[trigger] d.records[k].id
        < d.next_id by {
        assert(d.records[k].id == c.records[k].id);
    }
    lemma_found_index(d.records, id, i);
}

/// Law: `n` plays of one record, one after the other, raise its play
/// counter by exactly `n` — none of them is lost — and no id changes.
pub proof fn lemma_plays_accumulate(c: CatalogV, id: u64, n: nat)
    requires
        c.wf(),
        has_id(c.records, id),
        record_of(c.records, id).play_count + n <= u64::MAX,
    ensures
        bump_n(c, id, n).wf(),
        has_id(bump_n(c, id, n).records, id),
        record_of(bump_n(c, id, n).records, id).play_count == record_of(c.records, id).play_count
            + n,
        bump_n(c, id, n).records.len() == c.records.len(),
        bump_n(c, id, n).next_id == c.next_id,
    decreases n,
{
    if n > 0 {
        lemma_plays_accumulate(c, id, (n - 1) as nat);
        lemma_bump(bump_n(c, id, (n - 1) as nat), id);
    }
}

/// Law: with no filters supplied, search keeps every record.
pub proof fn lemma_filtered_no_filters(s: Seq<RecordV>, q: QueryV)
    requires
        q.title is None,
        q.artist is None,
        q.genre is None,
    ensures
        filtered(s, q) == s,
    decreases s.len(),
{
    if s.len() == 0 {
        assert(filtered(s, q) =~= s);
    } else {
        lemma_filtered_no_filters(s.drop_last(), q);
        assert(q.matches(s.last()));
        assert(filtered(s, q) =~= s);
    }
}

/// Law: search keeps exactly the records that every supplied filter
/// matches — each kept record matches and comes from the store, and every
/// matching record of the store is kept.
pub proof fn lemma_filtered_exact(s: Seq<RecordV>, q: QueryV)
    ensures
        forall|k: int|
            0 <= k < filtered(s, q).len() ==> q.matches(#[trigger] filtered(s, q)[k]),
        forall|k: int|
            0 <= k < filtered(s, q).len() ==> s.contains(#[trigger] filtered(s, q)[k]),
        forall|i: int| 0 <= i < s.len() && q.matches(#[trigger] s[i]) ==> filtered(s, q).contains(
            s[i],
        ),
    decreases s.len(),
{
    let f = filtered(s, q);
    if s.len() > 0 {
        let d = s.drop_last();
        let fd = filtered(d, q);
        lemma_filtered_exact(d, q);
        assert forall|k: int| 0 <= k < f.len() implies q.matches(#[trigger] f[k]) && s.contains(
            f[k],
        ) by {
            if k < fd.len() {
                assert(f[k] == fd[k]);
                assert(q.matches(fd[k]));
                assert(d.contains(fd[k]));
                let w = choose|w: int| 0 <= w < d.len() && d[w] == fd[k];
                assert(s[w] == fd[k]);
                assert(s.contains(f[k]));
            } else {
                assert(f[k] == s.last());
                assert(s[s.len() - 1] == s.last());
                assert(s.contains(f[k]));
            }
        }
        assert forall|i: int| 0 <= i < s.len() && q.matches(#[trigger] s[i]) implies f.contains(
            s[i],
        ) by {
            if i < s.len() - 1 {
                assert(d[i] == s[i]);
                assert(fd.contains(s[i]));
                let w = choose|w: int| 0 <= w < fd.len() && fd[w] == s[i];
                assert(f[w] == fd[w]);
                assert(f.contains(s[i]));
            } else {
                assert(q.matches(s.last()));
                assert(f[fd.len() as int] == s.last());
                assert(f.contains(s[i]));
            }
        }
    }
}

} // verus!
