//! Batch ranking: one query aligned against many candidates in parallel,
//! the results ranked by the deterministic tie-break order and truncated to
//! the best K.
use vstd::prelude::*;

use rayon::iter::IndexedParallelIterator;
use rayon::iter::IntoParallelRefIterator;
use rayon::iter::ParallelIterator;

use crate::engine::smith_waterman;
use crate::lemmas::cand_sorted;
use crate::lemmas::lemma_insert_ranked_at;
use crate::lemmas::lemma_rank_sorted_len;
use crate::lemmas::lemma_rank_sorted_push;
use crate::lemmas::lemma_rank_sorted_sorted;
use crate::lemmas::lemma_spec_align_valid;
use crate::model::CandidateAlignment;
use crate::model::ScoreParams;
use crate::model::batch_ok;
use crate::model::cand_views;
use crate::model::candidate_lt;
use crate::model::candidate_of;
use crate::model::candidates_of;
use crate::model::min2;
use crate::model::rank_sorted;
use crate::model::seqs_view;
use crate::model::spec_topk;

verus! {

/// The best alignment of the query against one candidate, tagged with the
/// candidate's batch position.
fn pair_candidate(seq1: &[u32], seq2: &Vec<u32>, params: ScoreParams, index: usize) -> (r: CandidateAlignment)
    requires
        crate::model::dims_fit(seq1@, seq2@),
        crate::model::pair_fits(seq1@, seq2@, params),
    ensures
        r@ == candidate_of(seq1@, seq2@, params, index as int),
        r@.token_start <= r@.token_end,
{
    let a = smith_waterman(seq1, seq2.as_slice(), params);
    CandidateAlignment {
        score: a.score,
        index,
        query_start: a.query_start,
        query_end: a.query_end,
        token_start: a.token_start,
        token_end: a.token_end,
        matches: a.matches,
    }
}

/// Relies on rayon's indexed parallel iterators: on a slice,
/// `par_iter().enumerate().map(f).collect::<Vec<_>>()` returns one element
/// per input element, in input order, each the result of applying `f` to the
/// position/element pair; `f` here is the verified `pair_candidate`, whose
/// contract pins each element.
#[verifier::external_body]
fn par_map_candidates(seq1: &[u32], seqs: &[Vec<u32>], params: ScoreParams) -> (r: Vec<
    CandidateAlignment,
>)
    requires
        batch_ok(seq1@, seqs@, params),
    ensures
        r@.len() == seqs@.len(),
        forall|i: int|
            0 <= i < seqs@.len() ==> (#[trigger] r@[i])@ == candidate_of(
                seq1@,
                seqs@[i]@,
                params,
                i,
            ),
{
    seqs.par_iter().enumerate().map(
        |pair: (usize, &Vec<u32>)| pair_candidate(seq1, pair.1, params, pair.0),
    ).collect()
}

/// True when `a` ranks strictly before `b` in the batch order: higher score,
/// then smaller token start, then longer token span, then smaller query
/// start, then smaller candidate index, then smaller token end, then smaller
/// query end.
fn candidate_before(a: &CandidateAlignment, b: &CandidateAlignment) -> (r: bool)
    requires
        a@.token_start <= a@.token_end,
        b@.token_start <= b@.token_end,
    ensures
        r == candidate_lt(a@, b@),
{
    if a.score != b.score {
        return a.score > b.score;
    }
    if a.token_start != b.token_start {
        return a.token_start < b.token_start;
    }
    let a_span = a.token_end - a.token_start;
    let b_span = b.token_end - b.token_start;
    if a_span != b_span {
        return a_span > b_span;
    }
    if a.query_start != b.query_start {
        return a.query_start < b.query_start;
    }
    if a.index != b.index {
        return a.index < b.index;
    }
    if a.token_end != b.token_end {
        return a.token_end < b.token_end;
    }
    a.query_end < b.query_end
}

/// Stable insertion sort of the collected candidates by the deterministic
/// tie-break order.
fn sort_candidates(input: Vec<CandidateAlignment>) -> (r: Vec<CandidateAlignment>)
    requires
        forall|i: int|
            0 <= i < input@.len() ==> (#[trigger] input@[i])@.token_start
                <= input@[i]@.token_end,
    ensures
        cand_views(r@) == rank_sorted(cand_views(input@)),
        r@.len() == input@.len(),
        forall|i: int|
            0 <= i < r@.len() ==> (#[trigger] r@[i])@.token_start <= r@[i]@.token_end,
{
    let ghost whole = cand_views(input@);
    let mut out: Vec<CandidateAlignment> = Vec::new();
    let mut t: usize = 0;
    while t < input.len()
        invariant
            t <= input@.len(),
            out@.len() == t,
            cand_views(out@) == rank_sorted(cand_views(input@.take(t as int))),
            forall|i: int|
                0 <= i < out@.len() ==> (#[trigger] out@[i])@.token_start
                    <= out@[i]@.token_end,
        decreases input@.len() - t,
    {
        let x = input[t];
        let mut pos: usize = 0;
        while pos < out.len() && !candidate_before(&x, &out[pos])
            invariant
                pos <= out@.len(),
                forall|a: int| 0 <= a < pos ==> !candidate_lt(x@, (#[trigger] out@[a])@),
            decreases out@.len() - pos,
        {
            pos += 1;
        }
        let ghost pre = out@;
        out.insert(pos, x);
        proof {
            assert(forall|a: int|
                0 <= a < pos ==> !candidate_lt(x@, #[trigger] cand_views(pre)[a]));
            assert(pos < pre.len() ==> candidate_lt(x@, cand_views(pre)[pos as int]));
            lemma_insert_ranked_at(cand_views(pre), x@, pos as int);
            assert(cand_views(out@) =~= cand_views(pre).insert(pos as int, x@));
            lemma_rank_sorted_push(cand_views(input@.take(t as int)), x@);
            assert(cand_views(input@.take(t + 1)) =~= cand_views(input@.take(t as int)).push(
                x@,
            ));
        }
        t += 1;
    }
    proof {
        assert(input@.take(input@.len() as int) =~= input@);
    }
    out
}

/// The best alignments of the query against every candidate, each tagged
/// with its input position, ranked by the deterministic tie-break order and
/// truncated to the first `top_k`. A zero `top_k` or an empty candidate
/// collection yields an empty result without any computation.
pub fn align_topk(seq1: &[u32], seqs: &[Vec<u32>], params: ScoreParams, top_k: usize) -> (r: Vec<
    CandidateAlignment,
>)
    requires
        top_k > 0 && seqs@.len() > 0 ==> batch_ok(seq1@, seqs@, params),
    ensures
        cand_views(r@) == spec_topk(seq1@, seqs_view(seqs@), params, top_k as int),
        r@.len() == (if top_k == 0 || seqs@.len() == 0 {
            0int
        } else {
            min2(top_k as int, seqs@.len() as int)
        }),
        cand_sorted(cand_views(r@)),
{
    let ghost q = seq1@;
    let ghost ss = seqs_view(seqs@);
    let ghost cands = candidates_of(q, ss, params);
    proof {
        lemma_rank_sorted_len(cands);
        lemma_rank_sorted_sorted(cands);
    }
    if seqs.is_empty() || top_k == 0 {
        let empty: Vec<CandidateAlignment> = Vec::new();
        proof {
            assert(cand_views(empty@) =~= Seq::<crate::model::CandidateModel>::empty());
        }
        return empty;
    }
    let results = par_map_candidates(seq1, seqs, params);
    proof {
        assert forall|i: int|
            0 <= i < results@.len() implies (#[trigger] results@[i])@.token_start
            <= results@[i]@.token_end by {
            lemma_spec_align_valid(q, seqs@[i]@, params);
        }
        assert(cand_views(results@) =~= cands);
    }
    let mut sorted = sort_candidates(results);
    let ghost ranked = rank_sorted(cands);
    if top_k < sorted.len() {
        sorted.truncate(top_k);
        proof {
            assert(cand_views(sorted@) =~= ranked.take(min2(top_k as int, ranked.len() as int)));
        }
    } else {
        proof {
            assert(cand_views(sorted@) =~= ranked.take(min2(top_k as int, ranked.len() as int)));
        }
    }
    proof {
        assert(cand_sorted(cand_views(sorted@))) by {
            assert(forall|i: int|
                0 <= i < cand_views(sorted@).len() ==> #[trigger] cand_views(sorted@)[i]
                    == ranked[i]);
        }
    }
    sorted
}

/// The single best batch candidate: the first entry of the top-1 ranking, or
/// nothing when the candidate collection is empty.
pub fn align_best(seq1: &[u32], seqs: &[Vec<u32>], params: ScoreParams) -> (r: Option<
    CandidateAlignment,
>)
    requires
        seqs@.len() > 0 ==> batch_ok(seq1@, seqs@, params),
    ensures
        seqs@.len() == 0 ==> r is None,
        seqs@.len() > 0 ==> (r matches Some(b) && b@ == spec_topk(
            seq1@,
            seqs_view(seqs@),
            params,
            1,
        )[0]),
{
    let v = align_topk(seq1, seqs, params, 1);
    if v.len() == 0 {
        None
    } else {
        proof {
            assert(cand_views(v@)[0] == v@[0]@);
        }
        Some(v[0])
    }
}

} // verus!
