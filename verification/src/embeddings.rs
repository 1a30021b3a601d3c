//! The history of daily embeddings: one record per date, ordered by date and
//! bounded.
use vstd::prelude::*;
use crate::laws::{distinct_dates, embedding_history_stays_ordered_and_bounded, in_date_order};
use crate::dated::{first_dated, is_date_order, lemma_first_dated, placed, position_dated, sort_by_date, Dated};

verus! {

/// The most embedding records kept.
pub const MAX_EMBEDDING_HISTORY: usize = 365;

/// A day's embedding record: its date, and the rest of the record.
pub struct EmbeddingEntry<E> {
    pub date: String,
    pub record: E,
}

impl<E> Dated for EmbeddingEntry<E> {
    open spec fn date_key(&self) -> Seq<char> {
        self.date@
    }

    fn date_text(&self) -> (r: &str) {
        self.date.as_str()
    }
}

/// The history with its oldest record dropped when it holds more than
/// `MAX_EMBEDDING_HISTORY`.
pub open spec fn trimmed<E>(history: Seq<EmbeddingEntry<E>>) -> Seq<EmbeddingEntry<E>> {
    if history.len() > MAX_EMBEDDING_HISTORY {
        history.drop_first()
    } else {
        history
    }
}

/// Files today's record: it replaces the first record of its date in place;
/// otherwise it is added and the history is ordered by date (ties in their
/// order). Then, when more than `MAX_EMBEDDING_HISTORY` records are held,
/// the first one is dropped.
pub fn upsert_embedding<E>(history: &mut Vec<EmbeddingEntry<E>>, entry: EmbeddingEntry<E>)
    ensures
        first_dated(old(history)@, entry.date@) matches Some(i) ==> final(history)@ == trimmed(
            old(history)@.update(i, entry),
        ),
        first_dated(old(history)@, entry.date@) is None ==> exists|order: Seq<usize>| #[trigger]
            is_date_order(order, old(history)@.push(entry)) && final(history)@ == trimmed(
                Seq::new(
                    old(history)@.len() + 1,
                    |k: int| old(history)@.push(entry)[order[k] as int],
                ),
            ),
        old(history).len() <= MAX_EMBEDDING_HISTORY ==> final(history).len() <= MAX_EMBEDDING_HISTORY,
        in_date_order(old(history)@) ==> in_date_order(final(history)@),
        distinct_dates(old(history)@) ==> distinct_dates(final(history)@),
{
    proof {
        lemma_first_dated(history@, entry.date@);
    }
    let ghost before = history@;
    let ghost entry_value = entry;
    match position_dated(history, entry.date.as_str()) {
        Some(i) => {
            history.set(i, entry);
            proof {
                embedding_history_stays_ordered_and_bounded(before, entry_value, Seq::empty());
            }
        },
        None => {
            let ghost added = history@.push(entry);
            history.push(entry);
            let mut current: Vec<EmbeddingEntry<E>> = Vec::new();
            std::mem::swap(&mut current, history);
            let sorted = sort_by_date(current);
            let ghost order = choose|order: Seq<usize>| #[trigger]
                is_date_order(order, added) && placed(sorted@, added, order);
            proof {
                assert(sorted@ =~= Seq::new(added.len(), |k: int| added[order[k] as int]));
                embedding_history_stays_ordered_and_bounded(before, entry_value, order);
            }
            *history = sorted;
        },
    }
    if history.len() > MAX_EMBEDDING_HISTORY {
        history.remove(0);
    }
}

} // verus!
