//! Stable orderings of positions by a key: the order in which a stable sort
//! by that key would put the items.
use vstd::prelude::*;
use crate::text::{chars_less, lemma_lex_total, lemma_lex_transitive, lex_lt};

verus! {

/// Position `i` comes before position `j` when ordering by the text keys:
/// by key (ascending, or descending when `descending`), ties kept in their
/// input order.
pub open spec fn text_precedes(keys: Seq<Seq<char>>, descending: bool, i: int, j: int) -> bool {
    if descending {
        lex_lt(keys[j], keys[i]) || (keys[i] == keys[j] && i < j)
    } else {
        lex_lt(keys[i], keys[j]) || (keys[i] == keys[j] && i < j)
    }
}

/// `order` lists every position `0..n` once, in the order of `precedes`.
pub open spec fn is_ordering(order: Seq<usize>, n: int, precedes: spec_fn(int, int) -> bool) -> bool {
    &&& order.len() == n
    &&& forall|i: int| 0 <= i < n ==> #[trigger] order[i] < n
    &&& forall|x: usize| x < n ==> #[trigger] order.contains(x)
    &&& forall|i: int, j: int|
        0 <= i < j < n ==> #[trigger] precedes(order[i] as int, order[j] as int)
}

proof fn lemma_lt_le_trans(a: Seq<char>, b: Seq<char>, c: Seq<char>)
    requires
        lex_lt(a, b),
        lex_lt(b, c) || b == c,
    ensures
        lex_lt(a, c),
{
    if lex_lt(b, c) {
        lemma_lex_transitive(a, b, c);
    }
}

proof fn lemma_le_lt_trans(a: Seq<char>, b: Seq<char>, c: Seq<char>)
    requires
        lex_lt(a, b) || a == b,
        lex_lt(b, c),
    ensures
        lex_lt(a, c),
{
    if lex_lt(a, b) {
        lemma_lex_transitive(a, b, c);
    }
}

/// The positions of `keys` in stable sorted order.
pub fn stable_text_order(keys: &Vec<Vec<char>>, descending: bool) -> (order: Vec<usize>)
    ensures
        is_ordering(
            order@,
            keys.len() as int,
            |i: int, j: int| text_precedes(keys@.map_values(|k: Vec<char>| k@), descending, i, j),
        ),
{
    let ghost ks = keys@.map_values(|k: Vec<char>| k@);
    let ghost prec = |i: int, j: int| text_precedes(ks, descending, i, j);
    let mut order: Vec<usize> = Vec::new();
    let mut m: usize = 0;
    while m < keys.len()
        invariant
            m <= keys.len(),
            ks == keys@.map_values(|k: Vec<char>| k@),
            prec == (|i: int, j: int| text_precedes(ks, descending, i, j)),
            is_ordering(order@, m as int, prec),
        decreases keys.len() - m,
    {
        let mut p: usize = 0;
        let mut found = false;
        while !found && p < order.len()
            invariant
                m < keys.len(),
                ks == keys@.map_values(|k: Vec<char>| k@),
                found ==> p < order.len() && (if descending {
                    lex_lt(ks[order@[p as int] as int], ks[m as int])
                } else {
                    lex_lt(ks[m as int], ks[order@[p as int] as int])
                }),
                order.len() == m,
                p <= order.len(),
                is_ordering(order@, m as int, prec),
                prec == (|i: int, j: int| text_precedes(ks, descending, i, j)),
                forall|q: int| 0 <= q < p ==> #[trigger] prec(order@[q] as int, m as int),
            decreases order.len() - p + (if found { 0int } else { 1int }),
        {
            let o = order[p];
            let stop = if descending {
                chars_less(&keys[o], &keys[m])
            } else {
                chars_less(&keys[m], &keys[o])
            };
            if stop {
                found = true;
            } else {
                proof {
                    lemma_lex_total(ks[o as int], ks[m as int]);
                }
                p = p + 1;
            }
        }
        let ghost before = order@;
        proof {
            if p < order.len() {
                let o = order@[p as int];
                assert forall|q: int| p <= q < m implies #[trigger] prec(
                    m as int,
                    before[q] as int,
                ) by {
                    if q > p {
                        assert(prec(before[p as int] as int, before[q] as int));
                        if descending {
                            lemma_le_lt_trans(ks[before[q] as int], ks[o as int], ks[m as int]);
                        } else {
                            lemma_lt_le_trans(ks[m as int], ks[o as int], ks[before[q] as int]);
                        }
                    }
                }
            }
        }
        order.insert(p, m);
        proof {
            let after = order@;
            assert(after =~= before.insert(p as int, m));
            assert forall|i: int, j: int| 0 <= i < j < m + 1 implies #[trigger] prec(
                after[i] as int,
                after[j] as int,
            ) by {
                if j < p {
                    assert(after[i] == before[i] && after[j] == before[j]);
                } else if j == p {
                    assert(after[i] == before[i]);
                } else if i < p {
                    assert(after[i] == before[i] && after[j] == before[j - 1]);
                } else if i == p {
                    assert(after[j] == before[j - 1]);
                } else {
                    assert(after[i] == before[i - 1] && after[j] == before[j - 1]);
                }
            }
            assert forall|x: usize| x < m + 1 implies #[trigger] after.contains(x) by {
                if x == m {
                    assert(after[p as int] == m);
                } else {
                    assert(before.contains(x));
                    let k = choose|k: int| 0 <= k < before.len() && before[k] == x;
                    if k < p {
                        assert(after[k] == x);
                    } else {
                        assert(after[k + 1] == x);
                    }
                }
            }
            assert forall|i: int| 0 <= i < m + 1 implies #[trigger] after[i] < m + 1 by {
                if i < p {
                    assert(after[i] == before[i]);
                } else if i > p {
                    assert(after[i] == before[i - 1]);
                }
            }
        }
        m = m + 1;
    }
    order
}

/// Position `i` comes before position `j` when ordering by the numeric keys
/// (ascending), ties kept in their input order.
pub open spec fn number_precedes(keys: Seq<u64>, i: int, j: int) -> bool {
    keys[i] < keys[j] || (keys[i] == keys[j] && i < j)
}

/// The positions of `keys` in stable ascending order.
pub fn stable_number_order(keys: &Vec<u64>) -> (order: Vec<usize>)
    ensures
        is_ordering(order@, keys.len() as int, |i: int, j: int| number_precedes(keys@, i, j)),
{
    let ghost prec = |i: int, j: int| number_precedes(keys@, i, j);
    let mut order: Vec<usize> = Vec::new();
    let mut m: usize = 0;
    while m < keys.len()
        invariant
            m <= keys.len(),
            prec == (|i: int, j: int| number_precedes(keys@, i, j)),
            is_ordering(order@, m as int, prec),
        decreases keys.len() - m,
    {
        let mut p: usize = 0;
        let mut found = false;
        while !found && p < order.len()
            invariant
                m < keys.len(),
                found ==> p < order.len() && keys@[m as int] < keys@[order@[p as int] as int],
                order.len() == m,
                p <= order.len(),
                is_ordering(order@, m as int, prec),
                prec == (|i: int, j: int| number_precedes(keys@, i, j)),
                forall|q: int| 0 <= q < p ==> #[trigger] prec(order@[q] as int, m as int),
            decreases order.len() - p + (if found { 0int } else { 1int }),
        {
            if keys[m] < keys[order[p]] {
                found = true;
            } else {
                p = p + 1;
            }
        }
        let ghost before = order@;
        proof {
            if p < order.len() {
                assert forall|q: int| p <= q < m implies #[trigger] prec(
                    m as int,
                    before[q] as int,
                ) by {
                    if q > p {
                        assert(prec(before[p as int] as int, before[q] as int));
                    }
                }
            }
        }
        order.insert(p, m);
        proof {
            let after = order@;
            assert(after =~= before.insert(p as int, m));
            assert forall|i: int, j: int| 0 <= i < j < m + 1 implies #[trigger] prec(
                after[i] as int,
                after[j] as int,
            ) by {
                if j < p {
                    assert(after[i] == before[i] && after[j] == before[j]);
                } else if j == p {
                    assert(after[i] == before[i]);
                } else if i < p {
                    assert(after[i] == before[i] && after[j] == before[j - 1]);
                } else if i == p {
                    assert(after[j] == before[j - 1]);
                } else {
                    assert(after[i] == before[i - 1] && after[j] == before[j - 1]);
                }
            }
            assert forall|x: usize| x < m + 1 implies #[trigger] after.contains(x) by {
                if x == m {
                    assert(after[p as int] == m);
                } else {
                    assert(before.contains(x));
                    let k = choose|k: int| 0 <= k < before.len() && before[k] == x;
                    if k < p {
                        assert(after[k] == x);
                    } else {
                        assert(after[k + 1] == x);
                    }
                }
            }
            assert forall|i: int| 0 <= i < m + 1 implies #[trigger] after[i] < m + 1 by {
                if i < p {
                    assert(after[i] == before[i]);
                } else if i > p {
                    assert(after[i] == before[i - 1]);
                }
            }
        }
        m = m + 1;
    }
    order
}

} // verus!
