//! Order statistics on whole numbers.
use vstd::prelude::*;
use vstd::relations::{sorted_by, total_ordering};
use vstd::seq_lib::{lemma_sorted_unique, to_multiset_insert};

verus! {

/// The numbers `values` in ascending order.
pub open spec fn ascending(values: Seq<u64>) -> Seq<u64> {
    values.sort_by(|a: u64, b: u64| a <= b)
}

/// The median of `values`: the middle one in ascending order, or, for an
/// even count, the mean of the two middle ones rounded half up; `None`
/// without values.
pub open spec fn median_of(values: Seq<u64>) -> Option<int> {
    if values.len() == 0 {
        None
    } else {
        let s = ascending(values);
        let mid = (values.len() / 2) as int;
        if values.len() % 2 == 0 {
            Some((s[mid - 1] + s[mid] + 1) / 2)
        } else {
            Some(s[mid] as int)
        }
    }
}

pub proof fn lemma_ascending_order()
    ensures
        total_ordering(|a: u64, b: u64| a <= b),
{
}

/// `values` in ascending order.
pub fn sort_ascending(values: &Vec<u64>) -> (r: Vec<u64>)
    ensures
        r@ == ascending(values@),
        r.len() == values.len(),
{
    let ghost leq = |a: u64, b: u64| a <= b;
    let mut out: Vec<u64> = Vec::new();
    let mut i: usize = 0;
    proof {
        broadcast use vstd::seq_lib::group_to_multiset_ensures;

        assert(values@.take(0) =~= Seq::<u64>::empty());
        assert(out@ =~= Seq::<u64>::empty());
    }
    while i < values.len()
        invariant
            i <= values.len(),
            out.len() == i,
            leq == (|a: u64, b: u64| a <= b),
            sorted_by(out@, leq),
            out@.to_multiset() == values@.take(i as int).to_multiset(),
        decreases values.len() - i,
    {
        let x = values[i];
        let mut p: usize = 0;
        while p < out.len() && out[p] <= x
            invariant
                p <= out.len(),
                forall|q: int| 0 <= q < p ==> out@[q] <= x,
            decreases out.len() - p,
        {
            p = p + 1;
        }
        let ghost before = out@;
        proof {
            to_multiset_insert(before, p as int, x);
            assert(values@.take(i + 1) =~= values@.take(i as int).push(x));
            vstd::seq_lib::to_multiset_build(values@.take(i as int), x);
        }
        out.insert(p, x);
        proof {
            assert(out@ =~= before.insert(p as int, x));
            assert forall|a: int, b: int| 0 <= a < b < out@.len() implies #[trigger] leq(
                out@[a],
                out@[b],
            ) by {
                if b < p {
                    assert(leq(before[a], before[b]));
                } else if b == p {
                } else if a < p {
                    assert(out@[b] == before[b - 1]);
                    if p < before.len() {
                        assert(leq(before[p as int], before[b - 1]) || p == b - 1);
                    }
                } else if a == p {
                    assert(out@[b] == before[b - 1]);
                    assert(leq(before[p as int], before[b - 1]) || p == b - 1);
                } else {
                    assert(leq(before[a - 1], before[b - 1]));
                }
            }
        }
        i = i + 1;
    }
    proof {
        assert(values@.take(values.len() as int) =~= values@);
        lemma_ascending_order();
        values@.lemma_sort_by_ensures(leq);
        lemma_sorted_unique(out@, ascending(values@), leq);
    }
    out
}

/// The median of `values`, rounded to a whole number.
pub fn median_u64(values: Vec<u64>) -> (r: Option<u64>)
    ensures
        r matches Some(m) ==> median_of(values@) == Some(m as int),
        r is None <==> values.len() == 0,
{
    if values.len() == 0 {
        return None;
    }
    let sorted = sort_ascending(&values);
    let middle = values.len() / 2;
    if values.len() % 2 == 0 {
        let low = sorted[middle - 1];
        let high = sorted[middle];
        proof {
            lemma_ascending_order();
            values@.lemma_sort_by_ensures(|a: u64, b: u64| a <= b);
            assert((|a: u64, b: u64| a <= b)(sorted@[middle - 1], sorted@[middle as int]));
        }
        let gap = high - low;
        Some(low + gap / 2 + gap % 2)
    } else {
        Some(sorted[middle])
    }
}

} // verus!
