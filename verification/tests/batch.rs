use token_align::ScoreParams;
use token_align::align_best;
use token_align::align_topk;

fn scoring() -> ScoreParams {
    ScoreParams { match_score: 2, mismatch_score: -1, gap_score: -1 }
}

#[test]
fn align_topk_is_deterministic_and_sorted() {
    let params = ScoreParams { match_score: 2, mismatch_score: -1, gap_score: -1 };
    let seq1 = vec![1, 2];
    let seqs = vec![vec![3, 4], vec![1, 2, 1, 2], vec![1, 2], vec![0, 1, 2, 3]];
    let top = align_topk(&seq1, &seqs, params, 3);
    assert_eq!(top.len(), 3);
    assert_eq!(top[0].index, 1);
    assert_eq!(top[1].index, 2);
    assert_eq!(top[2].index, 3);
}

#[test]
fn topk_zero_and_empty_batch_yield_empty_results() {
    let seq1 = vec![1, 2];
    let seqs = vec![vec![1, 2], vec![3, 4]];
    assert!(align_topk(&seq1, &seqs, scoring(), 0).is_empty());
    let no_seqs: Vec<Vec<u32>> = vec![];
    assert!(align_topk(&seq1, &no_seqs, scoring(), 5).is_empty());
    assert!(align_best(&seq1, &no_seqs, scoring()).is_none());
}

#[test]
fn topk_length_is_min_of_k_and_candidate_count() {
    let seq1 = vec![1, 2];
    let seqs = vec![vec![1, 2], vec![3, 4], vec![2, 1]];
    assert_eq!(align_topk(&seq1, &seqs, scoring(), 10).len(), 3);
    assert_eq!(align_topk(&seq1, &seqs, scoring(), 2).len(), 2);
}

#[test]
fn align_best_equals_head_of_top1() {
    let seq1 = vec![1, 2];
    let seqs = vec![vec![3, 4], vec![1, 2, 1, 2], vec![1, 2], vec![0, 1, 2, 3]];
    let best = align_best(&seq1, &seqs, scoring()).unwrap();
    let top1 = align_topk(&seq1, &seqs, scoring(), 1);
    assert_eq!(top1.len(), 1);
    assert_eq!(best.index, top1[0].index);
    assert_eq!(best.score, top1[0].score);
    assert_eq!(best.token_start, top1[0].token_start);
    assert_eq!(best.token_end, top1[0].token_end);
    assert_eq!(best.query_start, top1[0].query_start);
    assert_eq!(best.query_end, top1[0].query_end);
    assert_eq!(best.matches, top1[0].matches);
}

#[test]
fn batch_result_is_independent_of_worker_pool_size() {
    let seq1 = vec![1, 2, 3];
    let seqs: Vec<Vec<u32>> = (0..32u32).map(|k| vec![k, 1, 2, 3, k % 5]).collect();
    let small = rayon::ThreadPoolBuilder::new().num_threads(1).build().unwrap();
    let large = rayon::ThreadPoolBuilder::new().num_threads(8).build().unwrap();
    let a = small.install(|| align_topk(&seq1, &seqs, scoring(), 10));
    let b = large.install(|| align_topk(&seq1, &seqs, scoring(), 10));
    assert_eq!(a.len(), b.len());
    for (x, y) in a.iter().zip(b.iter()) {
        assert_eq!(x.index, y.index);
        assert_eq!(x.score, y.score);
        assert_eq!(x.token_start, y.token_start);
        assert_eq!(x.token_end, y.token_end);
        assert_eq!(x.query_start, y.query_start);
        assert_eq!(x.query_end, y.query_end);
        assert_eq!(x.matches, y.matches);
    }
}

#[test]
fn ranking_breaks_score_ties_by_earlier_token_start_then_index() {
    // both candidates score 4; the exact match [1, 2] starts at token 0,
    // the embedded one at token 1
    let seq1 = vec![1, 2];
    let seqs = vec![vec![9, 1, 2], vec![1, 2]];
    let top = align_topk(&seq1, &seqs, scoring(), 2);
    assert_eq!(top[0].score, top[1].score);
    assert_eq!(top[0].index, 1);
    assert_eq!(top[1].index, 0);

    // identical candidates: the smaller input index ranks first
    let twins = vec![vec![1, 2], vec![1, 2]];
    let top = align_topk(&seq1, &twins, scoring(), 2);
    assert_eq!(top[0].index, 0);
    assert_eq!(top[1].index, 1);
}
