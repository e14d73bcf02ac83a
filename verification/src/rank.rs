//! Ranked query results and the order they are reported in.
//!
//! A scoring strategy assigns every document an opaque ordered code: a
//! larger code means a more relevant document, and a code of zero means
//! "not relevant".  This module fixes how a sequence of scored documents
//! is turned into the reported ranking: documents with score zero are
//! dropped, and the rest are sorted by score descending, ties keeping
//! the order the documents have in the index.

use vstd::prelude::*;

verus! {

/// One ranked answer: the position of a document in its index and the
/// score the scoring strategy assigned to it.
#[derive(Clone, Copy, Debug, PartialEq, Eq, Structural)]
pub struct QueryResult {
    pub id: usize,
    pub score: u64,
}

/// Strict reporting order on results: the higher score first; among
/// equal scores, the document that stands earlier in the index first.
pub open spec fn precedes(a: QueryResult, b: QueryResult) -> bool {
    a.score > b.score || (a.score == b.score && a.id < b.id)
}

/// The sequence is strictly ordered by `precedes`.
pub open spec fn sorted(s: Seq<QueryResult>) -> bool {
    forall|i: int, j: int| 0 <= i < j < s.len() ==> precedes(s[i], s[j])
}

/// `x` inserted in front of the first element it precedes.
pub open spec fn insert_sorted(x: QueryResult, s: Seq<QueryResult>) -> Seq<QueryResult>
    decreases s.len(),
{
    if s.len() == 0 {
        seq![x]
    } else if precedes(x, s[0]) {
        seq![x] + s
    } else {
        seq![s[0]] + insert_sorted(x, s.drop_first())
    }
}

/// The sequence sorted by `precedes`: each element, left to right,
/// inserted into the sorted sequence built so far.
pub open spec fn sort_results(s: Seq<QueryResult>) -> Seq<QueryResult>
    decreases s.len(),
{
    if s.len() == 0 {
        Seq::empty()
    } else {
        insert_sorted(s.last(), sort_results(s.drop_last()))
    }
}

pub proof fn lemma_insert_sorted_elems(x: QueryResult, s: Seq<QueryResult>)
    ensures
        insert_sorted(x, s).len() == s.len() + 1,
        forall|y: QueryResult|
            #[trigger] insert_sorted(x, s).contains(y) <==> (y == x || s.contains(y)),
    decreases s.len(),
{
    if s.len() == 0 {
        assert(seq![x][0] == x);
        assert(insert_sorted(x, s).contains(x));
    } else if precedes(x, s[0]) {
        let r = seq![x] + s;
        assert forall|y: QueryResult| #[trigger] insert_sorted(x, s).contains(y) implies (y == x
            || s.contains(y)) by {
            let i = choose|i: int| 0 <= i < r.len() && r[i] == y;
            if i > 0 {
                assert(s[i - 1] == y);
                assert(s.contains(y));
            }
        }
        assert forall|y: QueryResult| (y == x || s.contains(y)) implies #[trigger] insert_sorted(
            x,
            s,
        ).contains(y) by {
            if y == x {
                assert(r[0] == y);
            } else {
                let i = choose|i: int| 0 <= i < s.len() && s[i] == y;
                assert(r[i + 1] == y);
            }
            assert(r.contains(y));
        }
    } else {
        lemma_insert_sorted_elems(x, s.drop_first());
        let t = insert_sorted(x, s.drop_first());
        let r = seq![s[0]] + t;
        assert(insert_sorted(x, s) == r);
        assert forall|y: QueryResult| #[trigger] insert_sorted(x, s).contains(y) implies (y == x
            || s.contains(y)) by {
            let i = choose|i: int| 0 <= i < r.len() && r[i] == y;
            if i == 0 {
                assert(s[0] == y);
                assert(s.contains(y));
            } else {
                assert(t[i - 1] == y);
                assert(t.contains(y));
                assert(insert_sorted(x, s.drop_first()).contains(y));
                if s.drop_first().contains(y) {
                    let j = choose|j: int| 0 <= j < s.drop_first().len() && s.drop_first()[j] == y;
                    assert(s[j + 1] == y);
                    assert(s.contains(y));
                }
            }
        }
        assert forall|y: QueryResult| (y == x || s.contains(y)) implies #[trigger] insert_sorted(
            x,
            s,
        ).contains(y) by {
            if y == s[0] {
                assert(r[0] == y);
            } else if y == x {
                assert(insert_sorted(x, s.drop_first()).contains(y));
                let j = choose|j: int| 0 <= j < t.len() && t[j] == y;
                assert(r[j + 1] == y);
            } else {
                let i = choose|i: int| 0 <= i < s.len() && s[i] == y;
                assert(s.drop_first()[i - 1] == y);
                assert(s.drop_first().contains(y));
                assert(insert_sorted(x, s.drop_first()).contains(y));
                let j = choose|j: int| 0 <= j < t.len() && t[j] == y;
                assert(r[j + 1] == y);
            }
            assert(r.contains(y));
        }
    }
}

pub proof fn lemma_insert_sorted_sorted(x: QueryResult, s: Seq<QueryResult>)
    requires
        sorted(s),
        forall|y: QueryResult| #[trigger] s.contains(y) ==> y.id != x.id,
    ensures
        sorted(insert_sorted(x, s)),
    decreases s.len(),
{
    if s.len() == 0 {
    } else if precedes(x, s[0]) {
        let r = seq![x] + s;
        assert forall|i: int, j: int| 0 <= i < j < r.len() implies precedes(r[i], r[j]) by {
            if i == 0 {
                assert(r[j] == s[j - 1]);
                if j > 1 {
                    assert(precedes(s[0], s[j - 1]));
                }
            } else {
                assert(r[i] == s[i - 1] && r[j] == s[j - 1]);
            }
        }
    } else {
        assert(s.contains(s[0]));
        assert(precedes(s[0], x));
        assert forall|y: QueryResult| #[trigger] s.drop_first().contains(y) implies y.id
            != x.id by {
            let i = choose|i: int| 0 <= i < s.drop_first().len() && s.drop_first()[i] == y;
            assert(s[i + 1] == y);
            assert(s.contains(y));
        }
        assert(sorted(s.drop_first())) by {
            assert forall|i: int, j: int| 0 <= i < j < s.drop_first().len() implies precedes(
                s.drop_first()[i],
                s.drop_first()[j],
            ) by {
                assert(s.drop_first()[i] == s[i + 1] && s.drop_first()[j] == s[j + 1]);
            }
        }
        lemma_insert_sorted_sorted(x, s.drop_first());
        lemma_insert_sorted_elems(x, s.drop_first());
        let t = insert_sorted(x, s.drop_first());
        let r = seq![s[0]] + t;
        assert(insert_sorted(x, s) == r);
        assert forall|i: int, j: int| 0 <= i < j < r.len() implies precedes(r[i], r[j]) by {
            if i == 0 {
                assert(r[j] == t[j - 1]);
                assert(t[j - 1] == t[j - 1] && t.contains(t[j - 1]));
                assert(insert_sorted(x, s.drop_first()).contains(t[j - 1]));
                if t[j - 1] == x {
                } else {
                    assert(s.drop_first().contains(t[j - 1]));
                    let m = choose|m: int|
                        0 <= m < s.drop_first().len() && s.drop_first()[m] == t[j - 1];
                    assert(s[m + 1] == t[j - 1]);
                    assert(precedes(s[0], s[m + 1]));
                }
            } else {
                assert(r[i] == t[i - 1] && r[j] == t[j - 1]);
            }
        }
    }
}

/// When the ids in `s` are pairwise distinct, sorting keeps exactly the
/// elements of `s` and yields a strictly ordered sequence.
pub proof fn lemma_sort_results_props(s: Seq<QueryResult>)
    requires
        forall|i: int, j: int| 0 <= i < j < s.len() ==> s[i].id != s[j].id,
    ensures
        sorted(sort_results(s)),
        sort_results(s).len() == s.len(),
        forall|y: QueryResult| #[trigger] sort_results(s).contains(y) <==> s.contains(y),
    decreases s.len(),
{
    if s.len() == 0 {
    } else {
        let butlast = s.drop_last();
        assert forall|i: int, j: int| 0 <= i < j < butlast.len() implies butlast[i].id
            != butlast[j].id by {
            assert(butlast[i] == s[i] && butlast[j] == s[j]);
        }
        lemma_sort_results_props(butlast);
        let t = sort_results(butlast);
        assert forall|y: QueryResult| #[trigger] t.contains(y) implies y.id != s.last().id by {
            assert(sort_results(butlast).contains(y));
            assert(butlast.contains(y));
            let i = choose|i: int| 0 <= i < butlast.len() && butlast[i] == y;
            assert(s[i] == y);
        }
        lemma_insert_sorted_sorted(s.last(), t);
        lemma_insert_sorted_elems(s.last(), t);
        assert(sort_results(s) == insert_sorted(s.last(), t));
        assert forall|y: QueryResult| #[trigger] sort_results(s).contains(y) implies s.contains(
            y,
        ) by {
            assert(insert_sorted(s.last(), t).contains(y));
            if y == s.last() {
                assert(s[s.len() - 1] == y);
                assert(s.contains(y));
            } else {
                assert(sort_results(butlast).contains(y));
                assert(butlast.contains(y));
                let i = choose|i: int| 0 <= i < butlast.len() && butlast[i] == y;
                assert(s[i] == y);
                assert(s.contains(y));
            }
        }
        assert forall|y: QueryResult| s.contains(y) implies #[trigger] sort_results(s).contains(
            y,
        ) by {
            let i = choose|i: int| 0 <= i < s.len() && s[i] == y;
            if i < s.len() - 1 {
                assert(butlast[i] == y);
                assert(butlast.contains(y));
                assert(sort_results(butlast).contains(y));
            } else {
                assert(y == s.last());
            }
            assert(insert_sorted(s.last(), t).contains(y));
        }
    }
}

proof fn lemma_insert_sorted_at(x: QueryResult, s: Seq<QueryResult>, k: int)
    requires
        0 <= k <= s.len(),
        forall|j: int| 0 <= j < k ==> !precedes(x, s[j]),
        k < s.len() ==> precedes(x, s[k]),
    ensures
        insert_sorted(x, s) == s.insert(k, x),
    decreases s.len(),
{
    if s.len() == 0 {
        assert(insert_sorted(x, s) =~= s.insert(0, x));
    } else if precedes(x, s[0]) {
        assert(k == 0);
        assert(seq![x] + s =~= s.insert(0, x));
    } else {
        assert(k >= 1);
        lemma_insert_sorted_at(x, s.drop_first(), k - 1);
        assert(seq![s[0]] + s.drop_first().insert(k - 1, x) =~= s.insert(k, x));
    }
}

fn insert_result(out: &mut Vec<QueryResult>, x: QueryResult)
    ensures
        final(out)@ == insert_sorted(x, old(out)@),
{
    let mut k: usize = 0;
    while k < out.len() && !(x.score > out[k].score || (x.score == out[k].score && x.id
        < out[k].id))
        invariant
            k <= out.len(),
            out@ == old(out)@,
            forall|j: int| 0 <= j < k ==> !precedes(x, out@[j]),
        decreases out.len() - k,
    {
        k = k + 1;
    }
    proof {
        lemma_insert_sorted_at(x, out@, k as int);
    }
    out.insert(k, x);
}

/// The candidates sorted into reporting order.
pub fn sort_results_exec(cands: Vec<QueryResult>) -> (r: Vec<QueryResult>)
    ensures
        r@ == sort_results(cands@),
{
    let mut out: Vec<QueryResult> = Vec::new();
    let mut i: usize = 0;
    while i < cands.len()
        invariant
            i <= cands.len(),
            out@ == sort_results(cands@.take(i as int)),
        decreases cands.len() - i,
    {
        proof {
            assert(cands@.take(i + 1).drop_last() =~= cands@.take(i as int));
            assert(cands@.take(i + 1).last() == cands@[i as int]);
        }
        insert_result(&mut out, cands[i]);
        i = i + 1;
    }
    proof {
        assert(cands@.take(cands@.len() as int) =~= cands@);
    }
    out
}

} // verus!
