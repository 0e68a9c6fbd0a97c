//! The two kinds of record the pipeline works on, and their mathematical
//! content.

use vstd::prelude::*;

verus! {

/// A point in time, in microseconds since the Unix epoch.
pub type Timestamp = i64;

/// What a [`Summary`] holds.
pub struct SummaryView {
    pub id: i64,
    pub text: Seq<char>,
    pub timestamp: Timestamp,
}

/// A short text record produced upstream. Never changed once written.
#[derive(Debug, PartialEq, Eq)]
pub struct Summary {
    pub id: i64,
    pub text: String,
    pub timestamp: Timestamp,
}

impl View for Summary {
    type V = SummaryView;

    open spec fn view(&self) -> SummaryView {
        SummaryView { id: self.id, text: self.text@, timestamp: self.timestamp }
    }
}

impl Clone for Summary {
    fn clone(&self) -> (copy: Summary)
        ensures
            copy == *self,
    {
        Summary { id: self.id, text: self.text.clone(), timestamp: self.timestamp }
    }
}

impl Summary {
    /// Builds a summary from its three parts.
    pub fn new(id: i64, text: String, timestamp: Timestamp) -> (s: Summary)
        ensures
            s@ == (SummaryView { id, text: text@, timestamp }),
    {
        Summary { id, text, timestamp }
    }
}

/// What a [`Digest`] holds: its text and the identifiers of the summaries
/// it was derived from, in the order in which their texts were joined.
pub struct DigestView {
    pub id: i32,
    pub text: Seq<char>,
    pub timestamp: Timestamp,
    pub covers: Seq<i64>,
}

/// An aggregated record covering a window of summaries. Created whole, with
/// its linkage, and never changed afterwards.
#[derive(Debug, PartialEq, Eq)]
pub struct Digest {
    pub id: i32,
    pub text: String,
    pub timestamp: Timestamp,
    pub covers: Vec<i64>,
}

impl View for Digest {
    type V = DigestView;

    open spec fn view(&self) -> DigestView {
        DigestView {
            id: self.id,
            text: self.text@,
            timestamp: self.timestamp,
            covers: self.covers@,
        }
    }
}

impl Clone for Digest {
    fn clone(&self) -> (copy: Digest)
        ensures
            copy@ == self@,
    {
        Digest {
            id: self.id,
            text: self.text.clone(),
            timestamp: self.timestamp,
            covers: self.covers.clone(),
        }
    }
}

/// The contents of a run of summaries, element by element.
pub open spec fn summary_views(s: Seq<Summary>) -> Seq<SummaryView> {
    s.map_values(|x: Summary| x@)
}

/// The contents of a run of digests, element by element.
pub open spec fn digest_views(s: Seq<Digest>) -> Seq<DigestView> {
    s.map_values(|x: Digest| x@)
}

} // verus!
