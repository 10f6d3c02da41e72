use token_align::api::align_best_details;
use token_align::api::align_best_summary;
use token_align::api::align_pair;
use token_align::api::align_pair_blocks_details;
use token_align::api::align_pair_details;
use token_align::api::align_topk_details;

#[test]
fn align_pair_returns_score_and_token_range() {
    let result = align_pair(&vec![1, 2], &vec![1, 2, 1, 2], 2, -1, -1);
    assert_eq!(result, (4, 0, 2));
}

#[test]
fn align_pair_details_returns_all_offsets() {
    let result = align_pair_details(&vec![1, 2, 3, 4], &vec![1, 2, 9, 9, 3, 4], 2, -1, -1);
    assert_eq!(result, (6, 0, 6, 0, 4, 4));
}

#[test]
fn align_pair_blocks_details_returns_blocks() {
    let result = align_pair_blocks_details(&vec![1, 2, 3, 4], &vec![1, 2, 9, 9, 3, 4], 2, -1, -1);
    assert_eq!(result.0, 6);
    assert_eq!((result.1, result.2), (0, 6));
    assert_eq!((result.3, result.4), (0, 4));
    assert_eq!(result.5, 4);
    assert_eq!(result.6, vec![(0, 2), (4, 6)]);
}

#[test]
fn align_best_summary_reports_winner_index_and_range() {
    let seqs = vec![vec![3, 4], vec![1, 2, 1, 2], vec![1, 2], vec![0, 1, 2, 3]];
    let best = align_best_summary(&vec![1, 2], &seqs, 2, -1, -1).unwrap();
    assert_eq!(best, (4, 1, 0, 2));
    let none = align_best_summary(&vec![1, 2], &Vec::new(), 2, -1, -1);
    assert!(none.is_none());
}

#[test]
fn align_best_details_reports_full_winner() {
    let seqs = vec![vec![3, 4], vec![1, 2, 1, 2], vec![1, 2], vec![0, 1, 2, 3]];
    let best = align_best_details(&vec![1, 2], &seqs, 2, -1, -1).unwrap();
    assert_eq!(best, (4, 1, 0, 2, 0, 2, 2));
}

#[test]
fn align_topk_details_ranks_and_excludes_nothing_below_k() {
    let seqs = vec![vec![3, 4], vec![1, 2, 1, 2], vec![1, 2], vec![0, 1, 2, 3]];
    let top = align_topk_details(&vec![1, 2], &seqs, 3, 2, -1, -1);
    assert_eq!(top.len(), 3);
    assert_eq!(top[0].1, 1);
    assert_eq!(top[1].1, 2);
    assert_eq!(top[2].1, 3);
    // index 0 scores 0 and ranks last; with k covering everything it appears
    let all = align_topk_details(&vec![1, 2], &seqs, 9, 2, -1, -1);
    assert_eq!(all.len(), 4);
    assert_eq!(all[3].1, 0);
    assert_eq!(all[3].0, 0);
    // no computation for k == 0 or an empty collection
    assert!(align_topk_details(&vec![1, 2], &seqs, 0, 2, -1, -1).is_empty());
    assert!(align_topk_details(&vec![1, 2], &Vec::new(), 3, 2, -1, -1).is_empty());
}
