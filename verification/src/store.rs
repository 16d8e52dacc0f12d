use vstd::prelude::*;

use crate::catalog::{bump, bumped, has_id, record_of, Catalog, CatalogError, CatalogV, Query};
use crate::persist::{snapshot_of, spec_snapshot, Snapshot};
use crate::record::{views_of, Record};

verus! {

/// The three phases of the write-back cycle.
pub enum FlushState {
    /// No unflushed mutation exists.
    Idle,
    /// At least one mutation occurred since the last completed flush.
    Dirty,
    /// A snapshot has been taken and is being written out.
    Flushing,
}

/// The record store together with its dirty tracker and the flush
/// scheduler's phase: the single shared resource of the service.
///
/// Mutations go through [`Store::insert`] and [`Store::increment_play`],
/// which raise the dirty flag; only the flush cycle, via
/// [`Store::poll_flush`] and [`Store::end_flush`], lowers it.
pub struct Store {
    pub catalog: Catalog,
    pub dirty: bool,
    pub flushing: bool,
}

/// Mathematical image of a [`Store`].
#[verifier::ext_equal]
pub struct StoreV {
    pub catalog: CatalogV,
    pub dirty: bool,
    pub flushing: bool,
}

impl View for Store {
    type V = StoreV;

    open spec fn view(&self) -> StoreV {
        StoreV { catalog: self.catalog@, dirty: self.dirty, flushing: self.flushing }
    }
}

impl StoreV {
    pub open spec fn wf(self) -> bool {
        self.catalog.wf()
    }

    /// The phase the store is in: flushing while a write is out, otherwise
    /// dirty exactly when an unflushed mutation exists.
    pub open spec fn state(self) -> FlushState {
        if self.flushing {
            FlushState::Flushing
        } else if self.dirty {
            FlushState::Dirty
        } else {
            FlushState::Idle
        }
    }

    /// The flush trigger condition: a mutation is unflushed and the store
    /// has reached the size threshold.
    pub open spec fn flush_due(self, threshold: usize) -> bool {
        self.dirty && self.catalog.records.len() >= threshold
    }
}

/// Law: a flush fires only out of the dirty phase — whenever the trigger
/// condition holds and no write is out, the store stands in `Dirty`, never
/// in `Idle`.
pub proof fn lemma_flush_only_from_dirty(s: StoreV, threshold: usize)
    requires
        s.flush_due(threshold),
        !s.flushing,
    ensures
        s.state() == FlushState::Dirty,
{
}

impl Store {
    /// A store around a freshly loaded catalog: nothing unflushed, nothing
    /// in flight.
    pub fn new(catalog: Catalog) -> (s: Store)
        requires
            catalog@.wf(),
        ensures
            s@.wf(),
            s@.catalog == catalog@,
            !s@.dirty,
            !s@.flushing,
            s@.state() == FlushState::Idle,
    {
        Store { catalog, dirty: false, flushing: false }
    }

    /// How many records the store holds.
    pub fn len(&self) -> (n: usize)
        ensures
            n == self@.catalog.records.len(),
    {
        self.catalog.len()
    }

    /// Creates a record and marks the store dirty.
    pub fn insert(&mut self, title: String, artist: String, genre: String) -> (r: Record)
        requires
            old(self)@.wf(),
            old(self)@.catalog.next_id < u64::MAX,
        ensures
            final(self)@.wf(),
            final(self)@.dirty,
            final(self)@.flushing == old(self)@.flushing,
            r@.id == old(self)@.catalog.next_id,
            r@.play_count == 0,
            r@.title == title@,
            r@.artist == artist@,
            r@.genre == genre@,
            final(self)@.catalog.next_id == old(self)@.catalog.next_id + 1,
            final(self)@.catalog.records == old(self)@.catalog.records.push(r@),
    {
        let r = self.catalog.insert(title, artist, genre);
        self.dirty = true;
        r
    }

    /// A copy of the record carrying `id`, if any record does.
    pub fn get(&self, id: u64) -> (r: Option<Record>)
        requires
            self@.wf(),
        ensures
            r is Some <==> has_id(self@.catalog.records, id),
            r matches Some(rec) ==> rec@ == record_of(self@.catalog.records, id),
    {
        self.catalog.get(id)
    }

    /// Plays a record: raises its play counter by one and marks the store
    /// dirty; an absent id changes nothing.
    pub fn increment_play(&mut self, id: u64) -> (r: Result<Record, CatalogError>)
        requires
            old(self)@.wf(),
            has_id(old(self)@.catalog.records, id) ==> record_of(
                old(self)@.catalog.records,
                id,
            ).play_count < u64::MAX,
        ensures
            final(self)@.wf(),
            r is Ok <==> has_id(old(self)@.catalog.records, id),
            r matches Ok(rec) ==> rec@ == bumped(record_of(old(self)@.catalog.records, id)),
            r is Ok ==> final(self)@.catalog == bump(old(self)@.catalog, id),
            r is Ok ==> final(self)@.dirty && final(self)@.flushing == old(self)@.flushing,
            r matches Err(e) ==> e == CatalogError::NotFound,
            r is Err ==> final(self)@ == old(self)@,
    {
        match self.catalog.increment_play(id) {
            Ok(rec) => {
                self.dirty = true;
                Ok(rec)
            },
            Err(e) => {
                proof {
                    assert(self@ =~= old(self)@);
                }
                Err(e)
            },
        }
    }

    /// All records whose fields satisfy every supplied filter, in store
    /// order.
    pub fn search(&self, q: &Query) -> (out: Vec<Record>)
        ensures
            views_of(out@) == crate::catalog::filtered(self@.catalog.records, q@),
    {
        self.catalog.search(q)
    }

    /// Whether the flush trigger condition holds right now.
    pub fn should_flush(&self, threshold: usize) -> (b: bool)
        ensures
            b == self@.flush_due(threshold),
    {
        self.dirty && self.catalog.len() >= threshold
    }

    /// One poll of the flush scheduler: fires exactly when the store is
    /// dirty and has reached the threshold. On firing it clears the dirty
    /// flag, takes a point-in-time snapshot without touching the live
    /// catalog, and enters the flushing phase; otherwise nothing changes.
    pub fn poll_flush(&mut self, threshold: usize) -> (snap: Option<Snapshot>)
        requires
            old(self)@.wf(),
            !old(self)@.flushing,
        ensures
            final(self)@.wf(),
            snap is Some <==> old(self)@.flush_due(threshold),
            snap matches Some(s) ==> s@ == spec_snapshot(old(self)@.catalog),
            snap is Some ==> final(self)@ == (StoreV {
                dirty: false,
                flushing: true,
                ..old(self)@
            }),
            snap is None ==> final(self)@ == old(self)@,
    {
        if self.should_flush(threshold) {
            let snap = snapshot_of(&self.catalog);
            self.dirty = false;
            self.flushing = true;
            proof {
                assert(self@ =~= (StoreV { dirty: false, flushing: true, ..old(self)@ }));
            }
            Some(snap)
        } else {
            proof {
                assert(self@ =~= old(self)@);
            }
            None
        }
    }

    /// The end of a flush cycle. A successful write leaves the store clean
    /// unless a mutation arrived while the write was out; a failed write
    /// restores the dirty flag, so the next poll retries.
    pub fn end_flush(&mut self, success: bool)
        requires
            old(self)@.flushing,
        ensures
            final(self)@.catalog == old(self)@.catalog,
            final(self)@.wf() == old(self)@.wf(),
            !final(self)@.flushing,
            final(self)@.dirty == (old(self)@.dirty || !success),
    {
        self.flushing = false;
        if !success {
            self.dirty = true;
        }
    }
}

} // verus!
