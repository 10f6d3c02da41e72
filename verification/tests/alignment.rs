use token_align::ScoreParams;
use token_align::smith_waterman;
use token_align::smith_waterman_match_blocks;

fn default_params() -> ScoreParams {
    ScoreParams { match_score: 2, mismatch_score: -1, gap_score: -1 }
}

#[test]
fn smith_waterman_prefers_earlier_start() {
    let params = ScoreParams { match_score: 2, mismatch_score: -1, gap_score: -1 };
    let seq1 = vec![1, 2];
    let seq2 = vec![1, 2, 1, 2];
    let alignment = smith_waterman(&seq1, &seq2, params);
    assert_eq!(alignment.score, 4);
    assert_eq!(alignment.token_start, 0);
    assert_eq!(alignment.token_end, 2);
    assert_eq!(alignment.matches, 2);
    assert_eq!(alignment.query_start, 0);
    assert_eq!(alignment.query_end, 2);
}

#[test]
fn smith_waterman_match_blocks_returns_disjoint_blocks() {
    let params = ScoreParams { match_score: 2, mismatch_score: -1, gap_score: -1 };
    let seq1 = vec![1, 2, 3, 4];
    let seq2 = vec![1, 2, 9, 9, 3, 4];

    let (alignment, match_blocks) = smith_waterman_match_blocks(&seq1, &seq2, params);
    assert_eq!(alignment.score, 6);
    assert_eq!(alignment.token_start, 0);
    assert_eq!(alignment.token_end, 6);
    assert_eq!(alignment.query_start, 0);
    assert_eq!(alignment.query_end, 4);
    assert_eq!(alignment.matches, 4);
    assert_eq!(match_blocks, vec![(0, 2), (4, 6)]);
}

#[test]
fn empty_query_yields_zero_alignment() {
    let seq1: Vec<u32> = vec![];
    let seq2 = vec![1, 2, 3];
    let (alignment, blocks) = smith_waterman_match_blocks(&seq1, &seq2, default_params());
    assert_eq!(alignment.score, 0);
    assert_eq!(alignment.query_start, 0);
    assert_eq!(alignment.query_end, 0);
    assert_eq!(alignment.token_start, 0);
    assert_eq!(alignment.token_end, 0);
    assert_eq!(alignment.matches, 0);
    assert!(blocks.is_empty());
}

#[test]
fn empty_candidate_yields_zero_alignment() {
    let seq1 = vec![1, 2, 3];
    let seq2: Vec<u32> = vec![];
    let alignment = smith_waterman(&seq1, &seq2, default_params());
    assert_eq!(alignment.score, 0);
    assert_eq!(alignment.token_end, 0);
    assert_eq!(alignment.matches, 0);
}

#[test]
fn no_common_token_yields_zero_alignment() {
    let seq1 = vec![1, 2];
    let seq2 = vec![7, 8, 9];
    let alignment = smith_waterman(&seq1, &seq2, default_params());
    assert_eq!(alignment.score, 0);
    assert_eq!(alignment.query_start, 0);
    assert_eq!(alignment.query_end, 0);
    assert_eq!(alignment.token_start, 0);
    assert_eq!(alignment.token_end, 0);
    assert_eq!(alignment.matches, 0);
}

#[test]
fn gapped_alignment_spans_the_gap() {
    // the best path takes two gaps in the query to bridge [9, 9]
    let (alignment, blocks) = smith_waterman_match_blocks(
        &vec![1, 2, 3, 4],
        &vec![1, 2, 9, 9, 3, 4],
        default_params(),
    );
    assert_eq!(alignment.score, 6);
    assert_eq!(blocks.len(), 2);
    let total: usize = blocks.iter().map(|b| b.1 - b.0).sum();
    assert_eq!(total, alignment.matches);
}

#[test]
fn repeated_pair_calls_are_bit_identical() {
    let seq1 = vec![5, 1, 2, 5, 1, 2];
    let seq2 = vec![1, 2, 5, 5, 1, 2, 9, 1];
    let first = smith_waterman(&seq1, &seq2, default_params());
    for _ in 0..5 {
        let again = smith_waterman(&seq1, &seq2, default_params());
        assert_eq!(again.score, first.score);
        assert_eq!(again.query_start, first.query_start);
        assert_eq!(again.query_end, first.query_end);
        assert_eq!(again.token_start, first.token_start);
        assert_eq!(again.token_end, first.token_end);
        assert_eq!(again.matches, first.matches);
    }
}

#[test]
fn positive_gap_scores_are_accepted() {
    // scoring validity is deliberately unenforced: any parameters give an
    // internally consistent result
    let params = ScoreParams { match_score: 1, mismatch_score: 1, gap_score: 1 };
    let seq1 = vec![1, 2];
    let seq2 = vec![3, 4];
    let alignment = smith_waterman(&seq1, &seq2, params);
    assert!(alignment.score >= 0);
    assert!(alignment.query_start <= alignment.query_end);
    assert!(alignment.query_end <= seq1.len());
    assert!(alignment.token_start <= alignment.token_end);
    assert!(alignment.token_end <= seq2.len());
    assert!(alignment.matches <= alignment.token_end - alignment.token_start);
}

#[test]
fn gap_bridged_alignment_with_hand_computed_score() {
    // best path: match 1 (+2), gap over candidate's 2 (-1), match 3 (+2)
    let (alignment, blocks) = smith_waterman_match_blocks(
        &vec![1, 3],
        &vec![1, 2, 3],
        default_params(),
    );
    assert_eq!(alignment.score, 3);
    assert_eq!(alignment.query_start, 0);
    assert_eq!(alignment.query_end, 2);
    assert_eq!(alignment.token_start, 0);
    assert_eq!(alignment.token_end, 3);
    assert_eq!(alignment.matches, 2);
    assert_eq!(blocks, vec![(0, 1), (2, 3)]);
}

#[test]
fn single_token_match_scores_the_match_reward() {
    let params = ScoreParams { match_score: 3, mismatch_score: -2, gap_score: -2 };
    let alignment = smith_waterman(&vec![7], &vec![7], params);
    assert_eq!(alignment.score, 3);
    assert_eq!(alignment.token_start, 0);
    assert_eq!(alignment.token_end, 1);
    assert_eq!(alignment.query_start, 0);
    assert_eq!(alignment.query_end, 1);
    assert_eq!(alignment.matches, 1);
}
