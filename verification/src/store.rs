//! An in-memory summary store and digest store.
//!
//! The store keeps summaries as they arrive and digests as cycles write
//! them. A digest is written whole, with its linkage, or not at all; the
//! identifiers it covers must name summaries the store holds, and its
//! timestamp must not lie before that of the digest written last.

use vstd::prelude::*;
use crate::record::{digest_views, summary_views, Digest, DigestView, Summary, SummaryView, Timestamp};
use crate::window::{distinct_ids, select_window, window};

verus! {

/// Why the store refused a write.
#[derive(Debug, Clone, Copy, PartialEq, Eq, Structural)]
pub enum StoreError {
    /// A summary with this identifier is already held.
    DuplicateSummary,
    /// The linkage names a summary that the store does not hold.
    UnknownSummary,
    /// The timestamp lies before that of the latest digest.
    ClockRegressed,
    /// No digest identifier is left.
    IdsExhausted,
}

/// Whether a summary with identifier `id` is among `summaries`.
pub open spec fn has_summary(summaries: Seq<SummaryView>, id: i64) -> bool {
    exists|i: int| 0 <= i < summaries.len() && #[trigger] summaries[i].id == id
}

/// What a [`Store`] holds: the summaries in the order they arrived and the
/// digests in the order they were written.
pub struct StoreView {
    pub summaries: Seq<SummaryView>,
    pub digests: Seq<DigestView>,
}

impl StoreView {
    /// What holds of every store: summaries have distinct identifiers;
    /// digests are numbered from one in the order written; their
    /// timestamps never decrease; every identifier a digest covers names a
    /// summary that is held.
    pub open spec fn well_formed(self) -> bool {
        &&& distinct_ids(self.summaries)
        &&& forall|i: int| 0 <= i < self.digests.len() ==> #[trigger] self.digests[i].id == i + 1
        &&& forall|i: int, j: int|
            0 <= i < j < self.digests.len() ==> self.digests[i].timestamp
                <= self.digests[j].timestamp
        &&& forall|i: int, k: int|
            0 <= i < self.digests.len() && 0 <= k < self.digests[i].covers.len() ==> has_summary(
                self.summaries,
                #[trigger] self.digests[i].covers[k],
            )
    }

    /// The identifier and timestamp of the most recent digest, if any.
    pub open spec fn latest(self) -> Option<(i32, Timestamp)> {
        if self.digests.len() == 0 {
            None
        } else {
            Some((self.digests.last().id, self.digests.last().timestamp))
        }
    }

    /// The timestamp of the most recent digest, if any.
    pub open spec fn cursor(self) -> Option<Timestamp> {
        if self.digests.len() == 0 {
            None
        } else {
            Some(self.digests.last().timestamp)
        }
    }

    /// Why a digest with this linkage and timestamp is refused, if it is.
    pub open spec fn refusal(self, covers: Seq<i64>, now: Timestamp) -> Option<StoreError> {
        if exists|k: int| 0 <= k < covers.len() && !has_summary(self.summaries, #[trigger] covers[k]) {
            Some(StoreError::UnknownSummary)
        } else if self.digests.len() > 0 && now < self.digests.last().timestamp {
            Some(StoreError::ClockRegressed)
        } else if self.digests.len() >= i32::MAX {
            Some(StoreError::IdsExhausted)
        } else {
            None
        }
    }

    /// The store after an attempt to write a digest: with the whole digest,
    /// or, where the write is refused, as it was.
    pub open spec fn written(self, text: Seq<char>, covers: Seq<i64>, now: Timestamp) -> StoreView {
        if self.refusal(covers, now).is_some() {
            self
        } else {
            self.with_digest(text, covers, now)
        }
    }

    /// The store with one more summary.
    pub open spec fn with_summary(self, s: SummaryView) -> StoreView {
        StoreView { summaries: self.summaries.push(s), digests: self.digests }
    }

    /// The store with one more digest, numbered next in line.
    pub open spec fn with_digest(self, text: Seq<char>, covers: Seq<i64>, now: Timestamp) -> StoreView {
        StoreView {
            summaries: self.summaries,
            digests: self.digests.push(
                DigestView { id: (self.digests.len() + 1) as i32, text, timestamp: now, covers },
            ),
        }
    }
}

/// The in-memory store. Every store that [`Store::new`] made and the
/// methods below changed is well formed.
pub struct Store {
    summaries: Vec<Summary>,
    digests: Vec<Digest>,
}

impl View for Store {
    type V = StoreView;

    closed spec fn view(&self) -> StoreView {
        StoreView { summaries: summary_views(self.summaries@), digests: digest_views(self.digests@) }
    }
}

impl Store {
    /// An empty store.
    pub fn new() -> (store: Store)
        ensures
            store@.summaries.len() == 0,
            store@.digests.len() == 0,
            store@.well_formed(),
    {
        Store { summaries: Vec::new(), digests: Vec::new() }
    }

    /// Whether a summary with this identifier is held.
    pub fn holds(&self, id: i64) -> (found: bool)
        ensures
            found == has_summary(self@.summaries, id),
    {
        let mut j: usize = 0;
        while j < self.summaries.len()
            invariant
                j <= self.summaries.len(),
                forall|m: int| 0 <= m < j ==> (#[trigger] self@.summaries[m]).id != id,
            decreases self.summaries.len() - j,
        {
            if self.summaries[j].id == id {
                assert(self@.summaries[j as int].id == id);
                return true;
            }
            j += 1;
        }
        false
    }

    /// Takes in a summary, unless one with its identifier is already held.
    pub fn add_summary(&mut self, summary: Summary) -> (r: Result<(), StoreError>)
        requires
            old(self)@.well_formed(),
        ensures
            final(self)@.well_formed(),
            has_summary(old(self)@.summaries, summary.id) ==> r == Err::<(), StoreError>(
                StoreError::DuplicateSummary,
            ) && final(self)@ == old(self)@,
            !has_summary(old(self)@.summaries, summary.id) ==> r.is_ok() && final(self)@ == old(
                self,
            )@.with_summary(summary@),
    {
        if self.holds(summary.id) {
            return Err(StoreError::DuplicateSummary);
        }
        let ghost before = self@;
        let ghost sv = summary@;
        self.summaries.push(summary);
        proof {
            assert(self@.summaries =~= before.summaries.push(sv));
            assert(self@.digests == before.digests);
            let after = before.with_summary(sv);
            assert forall|i: int, k: int|
                0 <= i < after.digests.len() && 0 <= k < after.digests[i].covers.len() implies has_summary(
                after.summaries,
                #[trigger] after.digests[i].covers[k],
            ) by {
                let id = after.digests[i].covers[k];
                assert(has_summary(before.summaries, id));
                let m = choose|m: int| 0 <= m < before.summaries.len() && before.summaries[m].id == id;
                assert(after.summaries[m].id == id);
            }
            assert(after.well_formed());
        }
        Ok(())
    }

    /// The identifier and timestamp of the most recent digest, or none if
    /// no digest was written yet. No digest has a later timestamp.
    pub fn latest_digest(&self) -> (latest: Option<(i32, Timestamp)>)
        ensures
            latest == self@.latest(),
    {
        let n = self.digests.len();
        if n == 0 {
            None
        } else {
            Some((self.digests[n - 1].id, self.digests[n - 1].timestamp))
        }
    }

    /// The summaries at or after `since`, or all of them, in ascending
    /// order.
    pub fn summaries_since(&self, since: Option<Timestamp>) -> (rows: Vec<Summary>)
        ensures
            summary_views(rows@) == window(self@.summaries, since),
    {
        let mut all: Vec<Summary> = Vec::new();
        let mut i: usize = 0;
        while i < self.summaries.len()
            invariant
                i <= self.summaries.len(),
                all@ == self.summaries@.subrange(0, i as int),
            decreases self.summaries.len() - i,
        {
            all.push(self.summaries[i].clone());
            assert(all@ =~= self.summaries@.subrange(0, i + 1));
            i += 1;
        }
        assert(all@ =~= self.summaries@);
        select_window(all, since)
    }

    /// Writes one digest with its full linkage, stamped `now`, and returns
    /// its identifier; or refuses and leaves the store as it was.
    pub fn insert_digest(&mut self, text: String, covers: Vec<i64>, now: Timestamp) -> (r: Result<
        i32,
        StoreError,
    >)
        requires
            old(self)@.well_formed(),
        ensures
            final(self)@.well_formed(),
            final(self)@ == old(self)@.written(text@, covers@, now),
            r == (match old(self)@.refusal(covers@, now) {
                Some(e) => Err::<i32, StoreError>(e),
                None => Ok::<i32, StoreError>((old(self)@.digests.len() + 1) as i32),
            }),
    {
        let mut k: usize = 0;
        while k < covers.len()
            invariant
                k <= covers.len(),
                *self == *old(self),
                self@.well_formed(),
                forall|m: int| 0 <= m < k ==> has_summary(self@.summaries, #[trigger] covers@[m]),
            decreases covers.len() - k,
        {
            if !self.holds(covers[k]) {
                return Err(StoreError::UnknownSummary);
            }
            k += 1;
        }
        let n = self.digests.len();
        if n > 0 && now < self.digests[n - 1].timestamp {
            return Err(StoreError::ClockRegressed);
        }
        if n >= i32::MAX as usize {
            return Err(StoreError::IdsExhausted);
        }
        let id: i32 = (n + 1) as i32;
        let ghost before = self@;
        let ghost tv = text@;
        let ghost cv = covers@;
        self.digests.push(Digest { id, text, timestamp: now, covers });
        proof {
            let after = before.with_digest(tv, cv, now);
            assert(self@.digests =~= after.digests);
            assert(self@.summaries == before.summaries);
            assert(after.well_formed());
        }
        Ok(id)
    }

    /// The summaries held, in the order they arrived.
    pub fn summaries(&self) -> (all: &Vec<Summary>)
        ensures
            summary_views(all@) == self@.summaries,
    {
        &self.summaries
    }

    /// The digests held, in the order they were written.
    pub fn digests(&self) -> (all: &Vec<Digest>)
        ensures
            digest_views(all@) == self@.digests,
    {
        &self.digests
    }
}

} // verus!
