//! Laws relating the public operations, stated over the same spec functions
//! that their contracts use.
use vstd::prelude::*;

use crate::lemmas::lemma_rank_sorted_len;
use crate::model::AlignmentModel;
use crate::model::CandidateModel;
use crate::model::ScoreParams;
use crate::model::candidate_of;
use crate::model::candidates_of;
use crate::model::rank_sorted;
use crate::model::spec_align;
use crate::model::spec_topk;
use crate::model::alignment_lt;
use crate::model::alignment_at;
use crate::model::scan_best_cell;
use vstd::multiset::Multiset;

verus! {

/// The best-of-batch result is exactly the head of the top-1 ranking: an
/// empty candidate collection gives the empty ranking (and so no best
/// candidate), a non-empty one gives a ranking of exactly one entry, whose
/// alignment fields are those of the best alignment of some candidate.
pub proof fn lemma_best_is_top1(q: Seq<u32>, ss: Seq<Seq<u32>>, p: ScoreParams)
    ensures
        ss.len() == 0 ==> spec_topk(q, ss, p, 1) == Seq::<CandidateModel>::empty(),
        ss.len() > 0 ==> spec_topk(q, ss, p, 1).len() == 1,
        ss.len() > 0 ==> ({
            let w = spec_topk(q, ss, p, 1)[0];
            0 <= w.index < ss.len() && w == candidate_of(q, ss[w.index], p, w.index)
        }),
{
    lemma_rank_sorted_len(candidates_of(q, ss, p));
    if ss.len() > 0 {
        let ranked = rank_sorted(candidates_of(q, ss, p));
        lemma_rank_sorted_member(candidates_of(q, ss, p), 0);
        let w = spec_topk(q, ss, p, 1)[0];
        assert(spec_topk(q, ss, p, 1)[0] == ranked[0]);
        let k = choose|k: int|
            0 <= k < candidates_of(q, ss, p).len() && candidates_of(q, ss, p)[k] == ranked[0];
        assert(candidates_of(q, ss, p)[k] == candidate_of(q, ss[k], p, k));
    }
}

/// Every entry of the ranked sequence is one of the candidates it was built
/// from.
pub proof fn lemma_rank_sorted_member(s: Seq<CandidateModel>, k: int)
    requires
        0 <= k < rank_sorted(s).len(),
    ensures
        s.contains(rank_sorted(s)[k]),
    decreases s.len(),
{
    lemma_rank_sorted_len(s);
    let e = rank_sorted(s)[k];
    crate::lemmas::lemma_insert_ranked_member(rank_sorted(s.drop_last()), s.last(), k);
    if e == s.last() {
        assert(s[s.len() - 1] == e);
    } else {
        let t = choose|t: int|
            0 <= t < rank_sorted(s.drop_last()).len() && rank_sorted(s.drop_last())[t] == e;
        lemma_rank_sorted_member(s.drop_last(), t);
        let u = choose|u: int| 0 <= u < s.drop_last().len() && s.drop_last()[u] == e;
        assert(s[u] == e);
    }
}

/// The pairwise tie-break order is total on alignments: two alignments are
/// mutually unordered only when every compared field agrees.
pub proof fn lemma_alignment_lt_total(a: AlignmentModel, b: AlignmentModel)
    ensures
        alignment_lt(a, b) || alignment_lt(b, a) || (a.score == b.score && a.token_start
            == b.token_start && a.token_end == b.token_end && a.query_start == b.query_start
            && a.query_end == b.query_end),
{
}

/// The pairwise tie-break order is transitive.
pub proof fn lemma_alignment_lt_trans(a: AlignmentModel, b: AlignmentModel, d: AlignmentModel)
    requires
        alignment_lt(a, b),
        alignment_lt(b, d),
    ensures
        alignment_lt(a, d),
{
}

/// The scan over tied maximal cells returns a minimum of the tie-break
/// order: no scanned cell, nor the accumulator, traces to a strictly better
/// alignment than the winner's.
pub proof fn lemma_scan_minimal(q: Seq<u32>, c: Seq<u32>, p: ScoreParams, cells: Seq<(int, int)>, acc: (int, int))
    ensures
        ({
            let w = scan_best_cell(q, c, p, cells, acc);
            let wa = alignment_at(q, c, p, w.0, w.1);
            &&& !alignment_lt(alignment_at(q, c, p, acc.0, acc.1), wa)
            &&& forall|k: int|
                0 <= k < cells.len() ==> !alignment_lt(
                    alignment_at(q, c, p, (#[trigger] cells[k]).0, cells[k].1),
                    wa,
                )
        }),
    decreases cells.len(),
{
    if cells.len() > 0 {
        let cand = alignment_at(q, c, p, cells[0].0, cells[0].1);
        let acca = alignment_at(q, c, p, acc.0, acc.1);
        let next = if alignment_lt(cand, acca) {
            cells[0]
        } else {
            acc
        };
        lemma_scan_minimal(q, c, p, cells.drop_first(), next);
        let w = scan_best_cell(q, c, p, cells.drop_first(), next);
        let wa = alignment_at(q, c, p, w.0, w.1);
        let nexta = alignment_at(q, c, p, next.0, next.1);
        assert(!alignment_lt(nexta, wa));
        assert(!alignment_lt(cand, wa) && !alignment_lt(acca, wa)) by {
            if alignment_lt(cand, acca) {
                if alignment_lt(acca, wa) {
                    lemma_alignment_lt_trans(cand, acca, wa);
                }
            } else {
                if alignment_lt(cand, wa) {
                    lemma_alignment_lt_total(cand, acca);
                    if alignment_lt(acca, cand) {
                        lemma_alignment_lt_trans(acca, cand, wa);
                    }
                }
            }
        }
        assert forall|k: int|
            0 <= k < cells.len() implies !alignment_lt(
            alignment_at(q, c, p, (#[trigger] cells[k]).0, cells[k].1),
            wa,
        ) by {
            if k > 0 {
                assert(cells.drop_first()[k - 1] == cells[k]);
            }
        }
    }
}

/// The returned pairwise alignment wins the tie-break against the traceback
/// of every cell that attains the maximal score: it is the unique minimum of
/// the tie-break order over all tied candidates.
pub proof fn lemma_spec_align_minimal(q: Seq<u32>, c: Seq<u32>, p: ScoreParams)
    requires
        crate::model::grid_max(q, c, p) > 0,
    ensures
        forall|k: int|
            0 <= k < crate::model::max_cells(q, c, p).len() ==> !alignment_lt(
                alignment_at(
                    q,
                    c,
                    p,
                    (#[trigger] crate::model::max_cells(q, c, p)[k]).0,
                    crate::model::max_cells(q, c, p)[k].1,
                ),
                spec_align(q, c, p),
            ),
{
    let cells = crate::model::max_cells(q, c, p);
    crate::lemmas::lemma_best_cell_in_grid(q, c, p);
    lemma_scan_minimal(q, c, p, cells.drop_first(), cells[0]);
    assert forall|k: int|
        0 <= k < cells.len() implies !alignment_lt(
        alignment_at(q, c, p, (#[trigger] cells[k]).0, cells[k].1),
        spec_align(q, c, p),
    ) by {
        if k > 0 {
            assert(cells.drop_first()[k - 1] == cells[k]);
        }
    }
}

/// Ranking rearranges the candidates and adds or drops none: the ranked
/// sequence holds exactly the tagged candidate alignments, as a multiset.
pub proof fn lemma_rank_sorted_permutes(s: Seq<CandidateModel>)
    ensures
        rank_sorted(s).to_multiset() == s.to_multiset(),
    decreases s.len(),
{
    broadcast use vstd::seq_lib::group_to_multiset_ensures;

    if s.len() == 0 {
        assert(rank_sorted(s) =~= s);
    } else {
        lemma_rank_sorted_permutes(s.drop_last());
        lemma_insert_ranked_multiset(rank_sorted(s.drop_last()), s.last());
        assert(s =~= s.drop_last().push(s.last()));
    }
}

/// Insertion adds exactly the inserted element to the multiset.
pub proof fn lemma_insert_ranked_multiset(s: Seq<CandidateModel>, x: CandidateModel)
    ensures
        crate::model::insert_ranked(s, x).to_multiset() == s.to_multiset().insert(x),
    decreases s.len(),
{
    broadcast use vstd::seq_lib::group_to_multiset_ensures;

    let out = crate::model::insert_ranked(s, x);
    if s.len() == 0 {
        assert(out =~= Seq::<CandidateModel>::empty().push(x));
        assert(Seq::<CandidateModel>::empty().to_multiset() =~= Multiset::<
            CandidateModel,
        >::empty());
        assert(out.to_multiset() =~= s.to_multiset().insert(x));
    } else if crate::model::candidate_lt(x, s[0]) {
        assert(out =~= s.insert(0, x));
        vstd::seq_lib::lemma_multiset_commutative(seq![x], s);
        assert(out =~= seq![x] + s);
        assert(seq![x].to_multiset() =~= Multiset::<CandidateModel>::empty().insert(x));
        assert(out.to_multiset() =~= s.to_multiset().insert(x));
    } else {
        lemma_insert_ranked_multiset(s.drop_first(), x);
        let sub = crate::model::insert_ranked(s.drop_first(), x);
        assert(out =~= seq![s[0]] + sub);
        vstd::seq_lib::lemma_multiset_commutative(seq![s[0]], sub);
        vstd::seq_lib::lemma_multiset_commutative(seq![s[0]], s.drop_first());
        assert(s =~= seq![s[0]] + s.drop_first());
        assert(seq![s[0]].to_multiset() =~= Multiset::<CandidateModel>::empty().insert(s[0]));
        assert(out.to_multiset() =~= (seq![s[0]]).to_multiset().add(sub.to_multiset()));
        assert(sub.to_multiset() == s.drop_first().to_multiset().insert(x));
        assert(out.to_multiset() =~= s.to_multiset().insert(x));
    }
}

/// Pairwise alignment is a function of the query, the candidate and the
/// parameters alone: two results that both meet `smith_waterman`'s contract
/// on the same inputs are identical.
pub proof fn lemma_pair_deterministic(q: Seq<u32>, c: Seq<u32>, p: ScoreParams, r1: AlignmentModel, r2: AlignmentModel)
    requires
        r1 == spec_align(q, c, p),
        r2 == spec_align(q, c, p),
    ensures
        r1 == r2,
{
}

/// Batch ranking is a function of the query, the candidates, the parameters
/// and K alone — independent, in particular, of how the per-candidate work
/// was scheduled: two results that both meet `align_topk`'s contract on the
/// same inputs are identical.
pub proof fn lemma_topk_deterministic(q: Seq<u32>, ss: Seq<Seq<u32>>, p: ScoreParams, k: int, r1: Seq<CandidateModel>, r2: Seq<CandidateModel>)
    requires
        r1 == spec_topk(q, ss, p, k),
        r2 == spec_topk(q, ss, p, k),
    ensures
        r1 == r2,
{
}

} // verus!
