//! Aggregation: the texts of a window joined into one block, and the
//! identifiers kept for the digest's linkage.

use vstd::prelude::*;
use crate::record::{summary_views, Summary, SummaryView};

verus! {

/// The texts joined in order, with a single space between neighbours.
pub open spec fn joined(texts: Seq<Seq<char>>) -> Seq<char>
    decreases texts.len(),
{
    if texts.len() == 0 {
        Seq::empty()
    } else if texts.len() == 1 {
        texts[0]
    } else {
        joined(texts.drop_last()) + seq![' '] + texts.last()
    }
}

/// The text bodies of a run of summaries, in order.
pub open spec fn texts_of(w: Seq<SummaryView>) -> Seq<Seq<char>> {
    w.map_values(|s: SummaryView| s.text)
}

/// The identifiers of a run of summaries, in order.
pub open spec fn ids_of(w: Seq<SummaryView>) -> Seq<i64> {
    w.map_values(|s: SummaryView| s.id)
}

/// What a window is handed on as: the block of text for the summarization
/// capability and the identifiers the digest will cover.
#[derive(Debug, PartialEq, Eq)]
pub struct Aggregate {
    pub text: String,
    pub covers: Vec<i64>,
}

/// Joins the texts of `window` in the order given and collects the
/// identifiers in the same order.
pub fn aggregate(window: &Vec<Summary>) -> (a: Aggregate)
    ensures
        a.text@ == joined(texts_of(summary_views(window@))),
        a.covers@ == ids_of(summary_views(window@)),
{
    let ghost w = summary_views(window@);
    let mut text = String::new();
    let mut covers: Vec<i64> = Vec::new();
    let mut i: usize = 0;
    assert(texts_of(w.subrange(0, 0)) =~= Seq::empty());
    while i < window.len()
        invariant
            i <= window.len(),
            w == summary_views(window@),
            text@ == joined(texts_of(w.subrange(0, i as int))),
            covers@ == ids_of(w.subrange(0, i as int)),
        decreases window.len() - i,
    {
        if i > 0 {
            text.append(" ");
        }
        text.append(window[i].text.as_str());
        covers.push(window[i].id);
        proof {
            let prev = texts_of(w.subrange(0, i as int));
            let next = texts_of(w.subrange(0, i + 1));
            assert(next.drop_last() =~= prev);
            assert(next.last() == window@[i as int]@.text);
            reveal_strlit(" ");
            assert(" "@ =~= seq![' ']);
            assert(text@ =~= joined(next));
            assert(ids_of(w.subrange(0, i + 1)) =~= ids_of(w.subrange(0, i as int)).push(
                w[i as int].id,
            ));
        }
        i += 1;
    }
    assert(w.subrange(0, w.len() as int) =~= w);
    Aggregate { text, covers }
}

} // verus!
