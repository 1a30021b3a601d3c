//! Items that carry a date, and ordering them by it.
use vstd::prelude::*;
use crate::order::{is_ordering, text_precedes};
use crate::text::{chars_less, chars_of, lemma_lex_total, lemma_lex_transitive, lex_lt, text_equals};

verus! {

/// An item filed under a date.
pub trait Dated {
    /// The item's date.
    spec fn date_key(&self) -> Seq<char>;

    /// The item's date, as text.
    fn date_text(&self) -> (r: &str)
        ensures
            r@ == self.date_key(),
    ;
}

/// The dates of `items`, in their order.
pub open spec fn dates_of<T: Dated>(items: Seq<T>) -> Seq<Seq<char>> {
    items.map_values(|r: T| r.date_key())
}

/// `order` lists the items by date, earliest first, ties in list order.
pub open spec fn is_date_order<T: Dated>(order: Seq<usize>, reports: Seq<T>) -> bool {
    is_ordering(
        order,
        reports.len() as int,
        |i: int, j: int| text_precedes(dates_of(reports), false, i, j),
    )
}

/// `sorted` holds `reports` in the order `order`.
pub open spec fn placed<T>(sorted: Seq<T>, reports: Seq<T>, order: Seq<usize>) -> bool {
    &&& sorted.len() == order.len()
    &&& forall|k: int| 0 <= k < order.len() ==> sorted[k] == reports[order[k] as int]
}

/// The items ordered by date, earliest first, ties in list order: what a
/// stable sort by date gives.
pub fn sort_by_date<T: Dated>(reports: Vec<T>) -> (r: Vec<T>)
    ensures
        exists|order: Seq<usize>| #[trigger]
            is_date_order(order, reports@) && placed(r@, reports@, order),
{
    let ghost input = reports@;
    let ghost ks = dates_of(input);
    let ghost prec = |i: int, j: int| text_precedes(ks, false, i, j);
    let ghost mut order: Seq<usize> = Seq::empty();
    let total = reports.len();
    let mut rest = reports;
    let mut out: Vec<T> = Vec::new();
    let mut m: usize = 0;
    proof {
        assert(input.skip(0) =~= input);
        assert(input.len() == total);
    }
    while rest.len() > 0
        invariant
            m <= input.len(),
            input.len() <= usize::MAX,
            rest@ == input.skip(m as int),
            ks == dates_of(input),
            prec == (|i: int, j: int| text_precedes(ks, false, i, j)),
            is_ordering(order, m as int, prec),
            placed(out@, input, order),
        decreases rest.len(),
    {
        let x = rest.remove(0);
        proof {
            assert(x == input[m as int]);
            assert(rest@ =~= input.skip(m + 1));
        }
        let key = chars_of(x.date_text());
        let mut p: usize = 0;
        let mut found = false;
        while !found && p < out.len()
            invariant
                m < input.len(),
                key@ == ks[m as int],
                ks == dates_of(input),
                out.len() == m,
                p <= out.len(),
                is_ordering(order, m as int, prec),
                placed(out@, input, order),
                prec == (|i: int, j: int| text_precedes(ks, false, i, j)),
                forall|q: int| 0 <= q < p ==> #[trigger] prec(order[q] as int, m as int),
                found ==> p < out.len() && lex_lt(ks[m as int], ks[order[p as int] as int]),
            decreases out.len() - p + (if found { 0int } else { 1int }),
        {
            let other = chars_of(out[p].date_text());
            proof {
                assert(other@ == ks[order[p as int] as int]);
            }
            if chars_less(&key, &other) {
                found = true;
            } else {
                proof {
                    lemma_lex_total(ks[order[p as int] as int], ks[m as int]);
                }
                p = p + 1;
            }
        }
        let ghost before = order;
        proof {
            if p < out.len() {
                let o = order[p as int];
                assert forall|q: int| p <= q < m implies #[trigger] prec(m as int, before[q] as int) by {
                    if q > p {
                        assert(prec(before[p as int] as int, before[q] as int));
                        if lex_lt(ks[o as int], ks[before[q] as int]) {
                            lemma_lex_transitive(ks[m as int], ks[o as int], ks[before[q] as int]);
                        }
                    }
                }
            }
            order = before.insert(p as int, m);
        }
        let ghost out_before = out@;
        out.insert(p, x);
        proof {
            let after = order;
            assert forall|i: int, j: int| 0 <= i < j < m + 1 implies #[trigger] prec(
                after[i] as int,
                after[j] as int,
            ) by {
                if j < p {
                    assert(after[i] == before[i] && after[j] == before[j]);
                } else if j == p {
                    assert(after[i] == before[i]);
                } else if i < p {
                    assert(after[i] == before[i] && after[j] == before[j - 1]);
                } else if i == p {
                    assert(after[j] == before[j - 1]);
                } else {
                    assert(after[i] == before[i - 1] && after[j] == before[j - 1]);
                }
            }
            assert forall|y: usize| y < m + 1 implies #[trigger] after.contains(y) by {
                if y == m {
                    assert(after[p as int] == m);
                } else {
                    assert(before.contains(y));
                    let k = choose|k: int| 0 <= k < before.len() && before[k] == y;
                    if k < p {
                        assert(after[k] == y);
                    } else {
                        assert(after[k + 1] == y);
                    }
                }
            }
            assert forall|i: int| 0 <= i < m + 1 implies #[trigger] after[i] < m + 1 by {
                if i < p {
                    assert(after[i] == before[i]);
                } else if i > p {
                    assert(after[i] == before[i - 1]);
                }
            }
            assert forall|k: int| 0 <= k < m + 1 implies out@[k] == input[after[k] as int] by {
                if k < p {
                    assert(out@[k] == out_before[k]);
                } else if k > p {
                    assert(out@[k] == out_before[k - 1]);
                }
            }
        }
        m = m + 1;
    }
    proof {
        assert(is_date_order(order, input));
    }
    out
}

/// The first item of the date `date`.
pub open spec fn first_dated<T: Dated>(items: Seq<T>, date: Seq<char>) -> Option<int>
    decreases items.len(),
{
    if items.len() == 0 {
        None
    } else {
        match first_dated(items.drop_last(), date) {
            Some(i) => Some(i),
            None => if items.last().date_key() == date {
                Some(items.len() - 1)
            } else {
                None
            },
        }
    }
}

pub proof fn lemma_first_dated<T: Dated>(items: Seq<T>, date: Seq<char>)
    ensures
        first_dated(items, date) matches Some(i) ==> 0 <= i < items.len() && items[i].date_key()
            == date && forall|k: int| 0 <= k < i ==> items[k].date_key() != date,
        first_dated(items, date) is None ==> forall|k: int|
            0 <= k < items.len() ==> items[k].date_key() != date,
    decreases items.len(),
{
    if items.len() > 0 {
        let prev = items.drop_last();
        lemma_first_dated(prev, date);
        assert(forall|k: int| 0 <= k < prev.len() ==> prev[k] == items[k]);
    }
}

/// The position of the first item of the date `date`.
pub fn position_dated<T: Dated>(items: &Vec<T>, date: &str) -> (r: Option<usize>)
    ensures
        match first_dated(items@, date@) {
            Some(i) => r == Some(i as usize),
            None => r is None,
        },
{
    let mut i: usize = 0;
    proof {
        lemma_first_dated(items@, date@);
    }
    while i < items.len()
        invariant
            i <= items.len(),
            forall|k: int| 0 <= k < i ==> items@[k].date_key() != date@,
        decreases items.len() - i,
    {
        if text_equals(items[i].date_text(), date) {
            proof {
                lemma_first_dated(items@, date@);
                match first_dated(items@, date@) {
                    Some(j) => {
                        if j < i {
                        } else if j > i {
                        }
                    },
                    None => {
                        assert(items@[i as int].date_key() == date@);
                    },
                }
            }
            return Some(i);
        }
        i = i + 1;
    }
    None
}

} // verus!
