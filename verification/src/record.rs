use vstd::prelude::*;

verus! {

/// One catalog entry: song metadata plus a play counter.
///
/// The `id` is unique within a catalog and immutable once assigned; the
/// `play_count` only ever grows.
#[derive(Debug, PartialEq, Eq)]
pub struct Record {
    pub id: u64,
    pub title: String,
    pub artist: String,
    pub genre: String,
    pub play_count: u64,
}

/// Mathematical image of a [`Record`]: the text fields as character sequences.
#[verifier::ext_equal]
pub struct RecordV {
    pub id: u64,
    pub title: Seq<char>,
    pub artist: Seq<char>,
    pub genre: Seq<char>,
    pub play_count: u64,
}

impl View for Record {
    type V = RecordV;

    open spec fn view(&self) -> RecordV {
        RecordV {
            id: self.id,
            title: self.title@,
            artist: self.artist@,
            genre: self.genre@,
            play_count: self.play_count,
        }
    }
}

impl Clone for Record {
    fn clone(&self) -> (r: Self)
        ensures
            r@ == self@,
    {
        Record {
            id: self.id,
            title: self.title.clone(),
            artist: self.artist.clone(),
            genre: self.genre.clone(),
            play_count: self.play_count,
        }
    }
}

/// The images of a run of records, in the same order.
pub open spec fn views_of(s: Seq<Record>) -> Seq<RecordV> {
    s.map_values(|r: Record| r@)
}

} // verus!
