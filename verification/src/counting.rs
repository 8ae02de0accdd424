//! Counting distinct elements of a sequence of identifiers (character
//! sequences), in order of first occurrence, together with how often each
//! occurs. The fallback embedding counts words this way; the graph
//! synchronizer counts nearest-neighbour hits per document the same way.

use vstd::prelude::*;

verus! {

/// How many times the sequence `w` occurs in `ws`.
pub open spec fn occurrences(ws: Seq<Seq<char>>, w: Seq<char>) -> int
    decreases ws.len(),
{
    if ws.len() == 0 {
        0
    } else {
        occurrences(ws.drop_last(), w) + if ws.last() == w {
            1int
        } else {
            0int
        }
    }
}

/// The distinct elements of `ws`, in order of first occurrence.
pub open spec fn firsts(ws: Seq<Seq<char>>) -> Seq<Seq<char>>
    decreases ws.len(),
{
    if ws.len() == 0 {
        Seq::empty()
    } else {
        let prev = firsts(ws.drop_last());
        if prev.contains(ws.last()) {
            prev
        } else {
            prev.push(ws.last())
        }
    }
}

/// An element occurs in `ws` exactly when it is one of the distinct
/// elements, and never more often than `ws` is long.
pub proof fn lemma_occurrences_firsts(ws: Seq<Seq<char>>, w: Seq<char>)
    ensures
        0 <= occurrences(ws, w) <= ws.len(),
        occurrences(ws, w) > 0 <==> firsts(ws).contains(w),
    decreases ws.len(),
{
    if ws.len() > 0 {
        lemma_occurrences_firsts(ws.drop_last(), w);
        let prev = firsts(ws.drop_last());
        if ws.last() == w {
            assert(firsts(ws).contains(w)) by {
                if !prev.contains(w) {
                    assert(firsts(ws).last() == w);
                }
            }
        } else {
            if !prev.contains(ws.last()) {
                assert(firsts(ws) == prev.push(ws.last()));
                if firsts(ws).contains(w) {
                    let i = choose|i: int|
                        0 <= i < firsts(ws).len() && firsts(ws)[i] == w;
                    assert(firsts(ws)[i] == w);
                    assert(i != prev.len());
                    assert(prev[i] == w);
                    assert(prev.contains(w));
                }
                if prev.contains(w) {
                    let i = choose|i: int| 0 <= i < prev.len() && prev[i] == w;
                    assert(firsts(ws)[i] == w);
                    assert(firsts(ws).contains(w));
                }
            }
        }
    }
}

/// The distinct elements are pairwise different.
pub proof fn lemma_firsts_distinct(ws: Seq<Seq<char>>)
    ensures
        forall|a: int, b: int|
            0 <= a < b < firsts(ws).len() ==> firsts(ws)[a] != firsts(ws)[b],
    decreases ws.len(),
{
    if ws.len() > 0 {
        lemma_firsts_distinct(ws.drop_last());
        let prev = firsts(ws.drop_last());
        if !prev.contains(ws.last()) {
            assert(firsts(ws) == prev.push(ws.last()));
            assert forall|a: int, b: int|
                0 <= a < b < firsts(ws).len() implies firsts(ws)[a] != firsts(ws)[b] by {
                if b == prev.len() {
                    assert(firsts(ws)[a] == prev[a]);
                    if prev[a] == ws.last() {
                        assert(prev.contains(ws.last()));
                    }
                } else {
                    assert(firsts(ws)[a] == prev[a]);
                    assert(firsts(ws)[b] == prev[b]);
                }
            }
        }
    }
}

/// Count how often each distinct element of `items` occurs, in order of
/// first occurrence.
pub fn distinct_with_counts(items: &Vec<String>) -> (r: (Vec<String>, Vec<usize>))
    ensures
        r.0@.map_values(|w: String| w@) == firsts(items@.map_values(|w: String| w@)),
        r.1@.len() == r.0@.len(),
        forall|j: int|
            0 <= j < r.0@.len() ==> r.1@[j] == occurrences(
                items@.map_values(|w: String| w@),
                r.0@[j]@,
            ),
{
    let ghost ws = items@.map_values(|w: String| w@);
    let mut uniq: Vec<String> = Vec::new();
    let mut counts: Vec<usize> = Vec::new();
    let n: usize = items.len();
    let mut i: usize = 0;
    proof {
        assert(ws.take(0) =~= Seq::<Seq<char>>::empty());
    }
    while i < n
        invariant
            i <= n,
            n == items@.len(),
            ws == items@.map_values(|w: String| w@),
            counts@.len() == uniq@.len(),
            uniq@.map_values(|w: String| w@) == firsts(ws.take(i as int)),
            forall|j: int|
                0 <= j < uniq@.len() ==> counts@[j] == occurrences(
                    ws.take(i as int),
                    uniq@[j]@,
                ),
        decreases n - i,
    {
        proof {
            assert(ws.take(i as int + 1).drop_last() =~= ws.take(i as int));
            assert(ws.take(i as int + 1).last() == ws[i as int]);
            assert(ws[i as int] == items@[i as int]@);
        }
        let m: usize = uniq.len();
        let mut j: usize = 0;
        let mut found: bool = false;
        while j < m && !found
            invariant
                j <= m,
                m == uniq@.len(),
                !found ==> forall|k: int| 0 <= k < j ==> uniq@[k]@ != items@[i as int]@,
                found ==> j < m && uniq@[j as int]@ == items@[i as int]@,
                i < n,
                n == items@.len(),
            decreases m - j + if found {
                0int
            } else {
                1int
            },
        {
            if uniq[j].eq(&items[i]) {
                found = true;
            } else {
                j = j + 1;
            }
        }
        let ghost prev = firsts(ws.take(i as int));
        if found {
            proof {
                assert(prev.contains(items@[i as int]@)) by {
                    assert(uniq@.map_values(|w: String| w@)[j as int] == uniq@[j as int]@);
                }
                assert(firsts(ws.take(i as int + 1)) == prev);
                lemma_occurrences_firsts(ws.take(i as int), uniq@[j as int]@);
                lemma_firsts_distinct(ws.take(i as int));
            }
            let c = counts[j];
            counts.set(j, c + 1);
            proof {
                assert forall|k: int| 0 <= k < uniq@.len() implies counts@[k] == occurrences(
                    ws.take(i as int + 1),
                    uniq@[k]@,
                ) by {
                    assert(uniq@.map_values(|w: String| w@)[k] == uniq@[k]@);
                    assert(uniq@.map_values(|w: String| w@)[j as int] == uniq@[j as int]@);
                    if k != j {
                        assert(prev[k] != prev[j as int]);
                        assert(uniq@[k]@ != ws[i as int]);
                    }
                }
            }
        } else {
            proof {
                assert(!prev.contains(items@[i as int]@)) by {
                    if prev.contains(items@[i as int]@) {
                        let k = choose|k: int|
                            0 <= k < prev.len() && prev[k] == items@[i as int]@;
                        assert(uniq@.map_values(|w: String| w@)[k] == uniq@[k]@);
                    }
                }
                assert(firsts(ws.take(i as int + 1)) == prev.push(items@[i as int]@));
                lemma_occurrences_firsts(ws.take(i as int), items@[i as int]@);
            }
            let w = items[i].clone();
            proof {
                assert((uniq@.push(w)).map_values(|x: String| x@) =~= uniq@.map_values(
                    |x: String| x@,
                ).push(w@));
            }
            uniq.push(w);
            counts.push(1);
            proof {
                assert forall|k: int| 0 <= k < uniq@.len() implies counts@[k] == occurrences(
                    ws.take(i as int + 1),
                    uniq@[k]@,
                ) by {
                    if k < uniq@.len() - 1 {
                        assert(uniq@.map_values(|x: String| x@)[k] == uniq@[k]@);
                    }
                }
            }
        }
        i = i + 1;
    }
    proof {
        assert(ws.take(n as int) =~= ws);
    }
    (uniq, counts)
}

/// An element occurs a positive number of times exactly when the sequence
/// contains it.
pub proof fn lemma_occurrences_contains(ws: Seq<Seq<char>>, w: Seq<char>)
    ensures
        occurrences(ws, w) > 0 <==> ws.contains(w),
    decreases ws.len(),
{
    lemma_occurrences_firsts(ws, w);
    if ws.len() > 0 {
        lemma_occurrences_contains(ws.drop_last(), w);
        lemma_occurrences_firsts(ws.drop_last(), w);
        if ws.last() == w {
            assert(ws[ws.len() - 1] == w);
            assert(ws.contains(w));
        } else {
            if ws.contains(w) {
                let i = choose|i: int| 0 <= i < ws.len() && ws[i] == w;
                assert(i != ws.len() - 1);
                assert(ws.drop_last()[i] == w);
                assert(ws.drop_last().contains(w));
            }
            if ws.drop_last().contains(w) {
                let i = choose|i: int| 0 <= i < ws.drop_last().len() && ws.drop_last()[i] == w;
                assert(ws[i] == w);
            }
        }
    }
}

} // verus!

