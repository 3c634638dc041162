//! Top-K selection: score every dataset entry against the query and return
//! the best up to twenty entries in descending score order.
//!
//! The score sequence of the result is pinned down exactly: it equals the
//! descending sort of the full per-entry score sequence, truncated to the
//! result length. Ordering is by score alone; entries with equal scores may
//! appear in either relative order.

use vstd::prelude::*;
use vstd::math::min;
use vstd::relations::{total_ordering, sorted_by};
use vstd::seq_lib::{lemma_sorted_unique, lemma_multiset_commutative, group_to_multiset_ensures};
use vstd::multiset::group_multiset_axioms;

use crate::score::{entry_score, score_entry, BITS_ONE};

verus! {

broadcast use group_to_multiset_ensures, group_multiset_axioms;

/// The most entries a result list can hold.
pub const RESULT_CAP: usize = 20;

/// One ranked result: a dataset entry together with its similarity score
/// against the query. `sim` carries the score as the bit pattern of a double
/// in `[0.0, 1.0]` (see the scoring module); larger `sim` means more similar.
#[verifier::ext_equal]
pub struct Row {
    pub sim: u64,
    pub key: String,
    pub value: String,
}

/// Every dataset entry as a scored row, in dataset order. The result of the
/// selector is drawn from these rows without repetition beyond what the
/// dataset itself repeats.
pub open spec fn scored_rows(data: Seq<(String, String)>, q: Seq<char>) -> Seq<Row> {
    Seq::new(
        data.len(),
        |i: int| Row { sim: entry_score(q, data[i].0@, data[i].1@), key: data[i].0, value: data[i].1 },
    )
}

/// The scores of a sequence of rows, in the rows' order.
pub open spec fn row_scores(rows: Seq<Row>) -> Seq<u64> {
    Seq::new(rows.len(), |i: int| rows[i].sim)
}

/// The score of every dataset entry against the query, in dataset order.
pub open spec fn scores_of(data: Seq<(String, String)>, q: Seq<char>) -> Seq<u64> {
    Seq::new(data.len(), |i: int| entry_score(q, data[i].0@, data[i].1@))
}

/// The descending order on scores, as a relation.
pub open spec fn score_order() -> spec_fn(u64, u64) -> bool {
    |a: u64, b: u64| a >= b
}

/// The full per-entry score sequence, sorted in descending order. The result
/// list's scores are exactly a prefix of this sequence.
pub open spec fn ranked_scores(data: Seq<(String, String)>, q: Seq<char>) -> Seq<u64> {
    scores_of(data, q).sort_by(score_order())
}

proof fn lemma_prefix_submultiset<A>(s: Seq<A>, k: int)
    requires
        0 <= k <= s.len(),
    ensures
        s.take(k).to_multiset().subset_of(s.to_multiset()),
{
    assert(s =~= s.take(k) + s.skip(k));
    lemma_multiset_commutative(s.take(k), s.skip(k));
    assert forall|x: A| s.take(k).to_multiset().count(x) <= s.to_multiset().count(x) by {
        assert(s.to_multiset().count(x) == s.take(k).to_multiset().count(x) + s.skip(
            k,
        ).to_multiset().count(x));
    }
}

proof fn lemma_score_order_total()
    ensures
        total_ordering(score_order()),
{
    let r = score_order();
    assert forall|x: u64| #[trigger] r(x, x) by {}
}

/// Ranking is deterministic in score assignment: any two result lists whose
/// score sequences meet the ranking contract for the same dataset and query
/// carry the same scores, in the same order.
pub proof fn lemma_rank_deterministic(
    res1: Seq<Row>,
    res2: Seq<Row>,
    data: Seq<(String, String)>,
    q: Seq<char>,
)
    requires
        row_scores(res1) == ranked_scores(data, q).take(
            min(data.len() as int, RESULT_CAP as int),
        ),
        row_scores(res2) == ranked_scores(data, q).take(
            min(data.len() as int, RESULT_CAP as int),
        ),
    ensures
        row_scores(res1) == row_scores(res2),
{
}

/// Sorts the rows in place into descending score order. The rows themselves
/// are only rearranged: the multiset of rows, and hence of scores, is kept.
fn sort_rows_desc(v: &mut Vec<Row>)
    ensures
        final(v)@.len() == old(v)@.len(),
        forall|p: int, q: int|
            0 <= p < q < final(v)@.len() ==> final(v)@[p].sim >= final(v)@[q].sim,
        final(v)@.to_multiset() == old(v)@.to_multiset(),
        row_scores(final(v)@).to_multiset() == row_scores(old(v)@).to_multiset(),
{
    let ghost orig = v@;
    let mut i: usize = 0;
    while i < v.len()
        invariant
            i <= v@.len(),
            v@.len() == orig.len(),
            forall|p: int, q: int| 0 <= p < q < i ==> v@[p].sim >= v@[q].sim,
            v@.to_multiset() == orig.to_multiset(),
            row_scores(v@).to_multiset() == row_scores(orig).to_multiset(),
        decreases v@.len() - i,
    {
        let mut j: usize = i;
        while j > 0 && v[j - 1].sim < v[i].sim
            invariant
                j <= i,
                i < v@.len(),
                forall|p: int| j <= p < i ==> v@[p].sim < v@[i as int].sim,
            decreases j,
        {
            j -= 1;
        }
        let ghost v0 = v@;
        let x = v.remove(i);
        v.insert(j, x);
        proof {
            let vi = v0[i as int];
            let v1 = v0.remove(i as int);
            let v2 = v1.insert(j as int, vi);
            assert(v@ == v2);
            assert(v0.contains(vi));
            assert(v2.to_multiset() =~= v0.to_multiset());
            assert(row_scores(v1) =~= row_scores(v0).remove(i as int));
            assert(row_scores(v2) =~= row_scores(v1).insert(j as int, vi.sim));
            assert(row_scores(v0).contains(vi.sim)) by {
                assert(row_scores(v0)[i as int] == vi.sim);
            }
            assert(row_scores(v2).to_multiset() =~= row_scores(v0).to_multiset());
            assert forall|p: int, q: int| 0 <= p < q < i + 1 implies v2[p].sim >= v2[q].sim by {
                assert(forall|t: int| 0 <= t < j ==> v2[t] == v0[t]);
                assert(v2[j as int] == vi);
                assert(forall|t: int| j < t <= i ==> v2[t] == v0[t - 1]);
            }
        }
        i += 1;
    }
}

/// Scores every dataset entry against the query and returns the best up to
/// `RESULT_CAP` entries in descending score order.
///
/// The contract pins the result down: its length is the smaller of the
/// dataset size and `RESULT_CAP`; its scores are exactly the corresponding
/// prefix of the descending sort of the full score sequence; the rows are a
/// sub-multiset of the dataset's scored rows, so each one is a dataset entry
/// paired with that entry's score and no entry is returned more often than
/// the dataset holds it; and a query equal to some entry's key or value puts
/// a maximal score of `1.0` at the front.
pub fn top_k(data: &Vec<(String, String)>, query: &str) -> (res: Vec<Row>)
    ensures
        res@.len() == min(data@.len() as int, RESULT_CAP as int),
        forall|p: int, q: int| 0 <= p < q < res@.len() ==> res@[p].sim >= res@[q].sim,
        row_scores(res@) == ranked_scores(data@, query@).take(res@.len() as int),
        res@.to_multiset().subset_of(scored_rows(data@, query@).to_multiset()),
        forall|i: int|
            0 <= i < res@.len() ==> (#[trigger] res@[i]).sim <= BITS_ONE && exists|j: int|
                0 <= j < data@.len() && res@[i].key@ == data@[j].0@ && res@[i].value@
                    == data@[j].1@ && res@[i].sim == entry_score(query@, data@[j].0@, data@[j].1@),
        (exists|j: int|
            0 <= j < data@.len() && (data@[j].0@ == query@ || data@[j].1@ == query@)) ==> res@[0].sim
            == BITS_ONE,
{
    let mut rows: Vec<Row> = Vec::new();
    let mut idx: usize = 0;
    while idx < data.len()
        invariant
            idx <= data@.len(),
            rows@.len() == idx,
            forall|i: int|
                0 <= i < idx ==> (#[trigger] rows@[i]).key == data@[i].0 && rows@[i].value
                    == data@[i].1 && rows@[i].sim == entry_score(query@, data@[i].0@, data@[i].1@)
                    && rows@[i].sim <= BITS_ONE && ((data@[i].0@ == query@ || data@[i].1@
                    == query@) ==> rows@[i].sim == BITS_ONE),
        decreases data@.len() - idx,
    {
        let entry = &data[idx];
        let s = score_entry(query, entry.0.as_str(), entry.1.as_str());
        rows.push(Row { sim: s, key: entry.0.clone(), value: entry.1.clone() });
        idx += 1;
    }
    let ghost built = rows@;
    let ghost full = scores_of(data@, query@);
    let ghost ranked = ranked_scores(data@, query@);
    proof {
        assert(row_scores(built) =~= full);
        lemma_score_order_total();
        full.lemma_sort_by_ensures(score_order());
    }
    sort_rows_desc(&mut rows);
    let ghost sorted = rows@;
    proof {
        assert(sorted_by(row_scores(sorted), score_order())) by {
            let r = score_order();
            assert forall|p: int, q: int|
                0 <= p < q < row_scores(sorted).len() implies #[trigger] r(
                row_scores(sorted)[p],
                row_scores(sorted)[q],
            ) by {
                assert(sorted[p].sim >= sorted[q].sim);
            }
        }
        assert(sorted_by(ranked, score_order()));
        assert(row_scores(sorted).to_multiset() == ranked.to_multiset());
        lemma_sorted_unique(row_scores(sorted), ranked, score_order());
        assert(row_scores(sorted) == ranked);
    }
    rows.truncate(RESULT_CAP);
    let ghost k = min(data@.len() as int, RESULT_CAP as int);
    proof {
        if RESULT_CAP <= sorted.len() {
            assert(rows@ == sorted.subrange(0, RESULT_CAP as int));
        } else {
            assert(rows@ == sorted);
            assert(rows@ =~= sorted.subrange(0, sorted.len() as int));
        }
        assert(rows@ =~= sorted.take(k));
        assert(row_scores(rows@) =~= ranked.take(k));
        let scored = scored_rows(data@, query@);
        assert forall|i: int| 0 <= i < built.len() implies built[i] == scored[i] by {
            assert(built[i] =~= scored[i]);
        }
        assert(built =~= scored);
        lemma_prefix_submultiset(sorted, k);
        assert(rows@.to_multiset().subset_of(scored.to_multiset()));
        assert forall|i: int| 0 <= i < rows@.len() implies (#[trigger] rows@[i]).sim <= BITS_ONE
            && exists|j: int|
            0 <= j < data@.len() && rows@[i].key@ == data@[j].0@ && rows@[i].value@ == data@[j].1@
                && rows@[i].sim == entry_score(query@, data@[j].0@, data@[j].1@) by {
            let r = rows@[i];
            assert(sorted.contains(r)) by {
                assert(sorted[i] == r);
            }
            assert(sorted.to_multiset().count(r) > 0);
            assert(built.to_multiset().count(r) > 0);
            assert(built.contains(r));
            let j = choose|j: int| 0 <= j < built.len() && built[j] == r;
            assert(built[j].key@ == data@[j].0@);
        }
        if exists|j: int|
            0 <= j < data@.len() && (data@[j].0@ == query@ || data@[j].1@ == query@) {
            let j = choose|j: int|
                0 <= j < data@.len() && (data@[j].0@ == query@ || data@[j].1@ == query@);
            assert(built[j].sim == BITS_ONE);
            assert(full[j] == BITS_ONE) by {
                assert(row_scores(built)[j] == built[j].sim);
            }
            assert(full.contains(BITS_ONE)) by {
                assert(full[j] == BITS_ONE);
            }
            assert(ranked.to_multiset().count(BITS_ONE) > 0);
            assert(ranked.contains(BITS_ONE));
            let m = choose|m: int| 0 <= m < ranked.len() && ranked[m] == BITS_ONE;
            assert(ranked[0] >= ranked[m]) by {
                let r = score_order();
                if m > 0 {
                    assert(r(ranked[0], ranked[m]));
                }
            }
            assert(ranked.contains(ranked[0])) by {
                assert(ranked[0] == ranked[0]);
            }
            assert(full.to_multiset().count(ranked[0]) > 0);
            assert(full.contains(ranked[0]));
            let t = choose|t: int| 0 <= t < full.len() && full[t] == ranked[0];
            assert(built[t].sim <= BITS_ONE);
            assert(row_scores(built)[t] == built[t].sim);
            assert(ranked[0] == BITS_ONE);
            assert(rows@[0].sim == row_scores(rows@)[0]);
            assert(row_scores(rows@)[0] == ranked[0]);
        }
    }
    rows
}

} // verus!
