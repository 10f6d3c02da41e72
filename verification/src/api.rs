//! The operation surface consumed by an in-process caller: pairwise
//! alignment and batch ranking over plain integer sequences and scoring
//! parameters, returned as plain tuples.
use vstd::prelude::*;

use crate::batch::align_best;
use crate::batch::align_topk;
use crate::engine::smith_waterman;
use crate::engine::smith_waterman_match_blocks;
use crate::model::CandidateModel;
use crate::model::ScoreParams;
use crate::model::batch_ok;
use crate::model::blocks_ints;
use crate::model::dims_fit;
use crate::model::min2;
use crate::model::pair_fits;
use crate::model::seqs_view;
use crate::model::spec_align;
use crate::model::spec_align_blocks;
use crate::model::spec_topk;

verus! {

/// The score parameters assembled from three plain integers.
pub open spec fn params_of(match_score: i32, mismatch_score: i32, gap_score: i32) -> ScoreParams {
    ScoreParams { match_score, mismatch_score, gap_score }
}

/// Best local alignment of a pair, reduced to (score, token_start,
/// token_end).
pub fn align_pair(seq1: &[u32], seq2: &[u32], match_score: i32, mismatch_score: i32, gap_score: i32) -> (r: (i32, usize, usize))
    requires
        dims_fit(seq1@, seq2@),
        pair_fits(seq1@, seq2@, params_of(match_score, mismatch_score, gap_score)),
    ensures
        ({
            let a = spec_align(seq1@, seq2@, params_of(match_score, mismatch_score, gap_score));
            r.0 as int == a.score && r.1 as int == a.token_start && r.2 as int == a.token_end
        }),
{
    let params = ScoreParams { match_score, mismatch_score, gap_score };
    let alignment = smith_waterman(seq1, seq2, params);
    (alignment.score, alignment.token_start, alignment.token_end)
}

/// Best local alignment of a pair with full detail: (score, token_start,
/// token_end, query_start, query_end, matches).
pub fn align_pair_details(seq1: &[u32], seq2: &[u32], match_score: i32, mismatch_score: i32, gap_score: i32) -> (r: (i32, usize, usize, usize, usize, usize))
    requires
        dims_fit(seq1@, seq2@),
        pair_fits(seq1@, seq2@, params_of(match_score, mismatch_score, gap_score)),
    ensures
        ({
            let a = spec_align(seq1@, seq2@, params_of(match_score, mismatch_score, gap_score));
            &&& r.0 as int == a.score
            &&& r.1 as int == a.token_start
            &&& r.2 as int == a.token_end
            &&& r.3 as int == a.query_start
            &&& r.4 as int == a.query_end
            &&& r.5 as int == a.matches
        }),
{
    let params = ScoreParams { match_score, mismatch_score, gap_score };
    let alignment = smith_waterman(seq1, seq2, params);
    (
        alignment.score,
        alignment.token_start,
        alignment.token_end,
        alignment.query_start,
        alignment.query_end,
        alignment.matches,
    )
}

/// Best local alignment of a pair with full detail and its match blocks.
pub fn align_pair_blocks_details(seq1: &[u32], seq2: &[u32], match_score: i32, mismatch_score: i32, gap_score: i32) -> (r: (
    i32,
    usize,
    usize,
    usize,
    usize,
    usize,
    Vec<(usize, usize)>,
))
    requires
        dims_fit(seq1@, seq2@),
        pair_fits(seq1@, seq2@, params_of(match_score, mismatch_score, gap_score)),
    ensures
        ({
            let a = spec_align(seq1@, seq2@, params_of(match_score, mismatch_score, gap_score));
            &&& r.0 as int == a.score
            &&& r.1 as int == a.token_start
            &&& r.2 as int == a.token_end
            &&& r.3 as int == a.query_start
            &&& r.4 as int == a.query_end
            &&& r.5 as int == a.matches
            &&& blocks_ints(r.6@) == spec_align_blocks(
                seq1@,
                seq2@,
                params_of(match_score, mismatch_score, gap_score),
            )
        }),
{
    let params = ScoreParams { match_score, mismatch_score, gap_score };
    let (alignment, match_blocks) = smith_waterman_match_blocks(seq1, seq2, params);
    (
        alignment.score,
        alignment.token_start,
        alignment.token_end,
        alignment.query_start,
        alignment.query_end,
        alignment.matches,
        match_blocks,
    )
}

/// The single best batch candidate, reduced to (score, index, token_start,
/// token_end); nothing when the candidate collection is empty.
pub fn align_best_summary(seq1: &[u32], seqs: &[Vec<u32>], match_score: i32, mismatch_score: i32, gap_score: i32) -> (r: Option<(i32, usize, usize, usize)>)
    requires
        seqs@.len() > 0 ==> batch_ok(seq1@, seqs@, params_of(match_score, mismatch_score, gap_score)),
    ensures
        seqs@.len() == 0 ==> r is None,
        seqs@.len() > 0 ==> (r matches Some(b) && ({
            let w = spec_topk(
                seq1@,
                seqs_view(seqs@),
                params_of(match_score, mismatch_score, gap_score),
                1,
            )[0];
            b.0 as int == w.score && b.1 as int == w.index && b.2 as int == w.token_start && b.3
                as int == w.token_end
        })),
{
    let params = ScoreParams { match_score, mismatch_score, gap_score };
    match align_best(seq1, seqs, params) {
        None => None,
        Some(best) => Some((best.score, best.index, best.token_start, best.token_end)),
    }
}

/// The single best batch candidate with full detail: (score, index,
/// token_start, token_end, query_start, query_end, matches).
pub fn align_best_details(seq1: &[u32], seqs: &[Vec<u32>], match_score: i32, mismatch_score: i32, gap_score: i32) -> (r: Option<(i32, usize, usize, usize, usize, usize, usize)>)
    requires
        seqs@.len() > 0 ==> batch_ok(seq1@, seqs@, params_of(match_score, mismatch_score, gap_score)),
    ensures
        seqs@.len() == 0 ==> r is None,
        seqs@.len() > 0 ==> (r matches Some(b) && ({
            let w = spec_topk(
                seq1@,
                seqs_view(seqs@),
                params_of(match_score, mismatch_score, gap_score),
                1,
            )[0];
            b.0 as int == w.score && b.1 as int == w.index && b.2 as int == w.token_start && b.3
                as int == w.token_end && b.4 as int == w.query_start && b.5 as int == w.query_end
                && b.6 as int == w.matches
        })),
{
    let params = ScoreParams { match_score, mismatch_score, gap_score };
    match align_best(seq1, seqs, params) {
        None => None,
        Some(best) => Some(
            (
                best.score,
                best.index,
                best.token_start,
                best.token_end,
                best.query_start,
                best.query_end,
                best.matches,
            ),
        ),
    }
}

/// One detail tuple matches one ghost candidate field for field.
pub open spec fn detail_matches(t: (i32, usize, usize, usize, usize, usize, usize), w: CandidateModel) -> bool {
    &&& t.0 as int == w.score
    &&& t.1 as int == w.index
    &&& t.2 as int == w.token_start
    &&& t.3 as int == w.token_end
    &&& t.4 as int == w.query_start
    &&& t.5 as int == w.query_end
    &&& t.6 as int == w.matches
}

/// The ranked top-K batch candidates as full-detail tuples, best first.
pub fn align_topk_details(seq1: &[u32], seqs: &[Vec<u32>], top_k: usize, match_score: i32, mismatch_score: i32, gap_score: i32) -> (r: Vec<(i32, usize, usize, usize, usize, usize, usize)>)
    requires
        top_k > 0 && seqs@.len() > 0 ==> batch_ok(
            seq1@,
            seqs@,
            params_of(match_score, mismatch_score, gap_score),
        ),
    ensures
        ({
            let ranked = spec_topk(
                seq1@,
                seqs_view(seqs@),
                params_of(match_score, mismatch_score, gap_score),
                top_k as int,
            );
            &&& r@.len() == ranked.len()
            &&& forall|k: int| 0 <= k < r@.len() ==> detail_matches(#[trigger] r@[k], ranked[k])
        }),
        r@.len() == (if top_k == 0 || seqs@.len() == 0 {
            0int
        } else {
            min2(top_k as int, seqs@.len() as int)
        }),
{
    let ghost ranked = spec_topk(
        seq1@,
        seqs_view(seqs@),
        params_of(match_score, mismatch_score, gap_score),
        top_k as int,
    );
    if top_k == 0 || seqs.is_empty() {
        return Vec::new();
    }
    let params = ScoreParams { match_score, mismatch_score, gap_score };
    let items = align_topk(seq1, seqs, params, top_k);
    let mut out: Vec<(i32, usize, usize, usize, usize, usize, usize)> = Vec::new();
    let mut k: usize = 0;
    while k < items.len()
        invariant
            k <= items@.len(),
            out@.len() == k,
            crate::model::cand_views(items@) == ranked,
            forall|a: int| 0 <= a < k ==> detail_matches(#[trigger] out@[a], ranked[a]),
        decreases items@.len() - k,
    {
        let item = &items[k];
        proof {
            assert(crate::model::cand_views(items@)[k as int] == items@[k as int]@);
        }
        out.push(
            (
                item.score,
                item.index,
                item.token_start,
                item.token_end,
                item.query_start,
                item.query_end,
                item.matches,
            ),
        );
        k += 1;
    }
    out
}

} // verus!
