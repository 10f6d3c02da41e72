//! The pairwise alignment engine: dynamic-programming matrix construction,
//! discovery of all cells attaining the maximal score, traceback with and
//! without match-block extraction, and tie-break selection of the one best
//! alignment per pair.
use vstd::prelude::*;

use crate::lemmas::lemma_best_cell_in_grid;
use crate::lemmas::lemma_cell_score_bounds;
use crate::lemmas::lemma_cells_match_push;
use crate::lemmas::lemma_grid_cells_empty;
use crate::lemmas::lemma_grid_cells_member;
use crate::lemmas::lemma_row_cells_empty;
use crate::lemmas::lemma_scan_push;
use crate::lemmas::lemma_spec_align_valid;
use crate::lemmas::lemma_spec_blocks_valid;
use crate::lemmas::lemma_tb_props;
use crate::model::Alignment;
use crate::model::ScoreParams;
use crate::model::alignment_at;
use crate::model::alignment_lt;
use crate::model::blocks_from;
use crate::model::blocks_ints;
use crate::model::blocks_of;
use crate::model::cells_match;
use crate::model::grid_cells_upto;
use crate::model::grid_max;
use crate::model::grid_max_upto;
use crate::model::max_cells;
use crate::model::row_cells;
use crate::model::row_max;
use crate::model::scan_best_cell;
use crate::model::spec_align;
use crate::model::spec_align_blocks;
use crate::model::tb;
use crate::model::tb_stop;
use crate::model::tb_positions;
use crate::model::valid_alignment;
use crate::model::valid_blocks;
use crate::model::cell_dir;
use crate::model::cell_score;
use crate::model::dims_fit;
use crate::model::dirs_ok;
use crate::model::mat_i32;
use crate::model::mat_u8;
use crate::model::max2;
use crate::model::max_abs_param;
use crate::model::pair_fits;
use crate::model::pair_score;
use crate::model::pos_ints;
use crate::model::scores_ok;

verus! {

/// The larger of two scores.
fn imax(a: i32, b: i32) -> (r: i32)
    ensures
        r as int == max2(a as int, b as int),
{
    if a >= b {
        a
    } else {
        b
    }
}

/// Direction tag for a positive cell score: DIAG on any tie with the
/// diagonal candidate, then UP, and LEFT only by exclusion.
fn choose_direction(best: i32, score_diag: i32, score_up: i32, _score_left: i32) -> (r: u8)
    ensures
        r as int == (if best == score_diag {
            1int
        } else if best == score_up {
            2int
        } else {
            3int
        }),
{
    if best == score_diag {
        return 1;
    }
    if best == score_up {
        return 2;
    }
    3
}

/// Fills the score and direction matrices for one sequence pair, row by row,
/// with row 0 and column 0 as the zero local-alignment boundary.
fn build_matrices(seq1: &[u32], seq2: &[u32], params: ScoreParams) -> (r: (Vec<Vec<i32>>, Vec<
    Vec<u8>,
>))
    requires
        seq1@.len() >= 1,
        seq2@.len() >= 1,
        dims_fit(seq1@, seq2@),
        pair_fits(seq1@, seq2@, params),
    ensures
        scores_ok(seq1@, seq2@, params, r.0@),
        dirs_ok(seq1@, seq2@, params, r.1@),
{
    let ghost q = seq1@;
    let ghost c = seq2@;
    let ghost mm = max_abs_param(params);
    let rows = seq1.len() + 1;
    let cols = seq2.len() + 1;
    proof {
        assert(mm <= (q.len() + c.len()) * mm && 0 <= (q.len() + c.len()) * mm)
            by (nonlinear_arith)
            requires 0 <= mm && q.len() >= 1 && c.len() >= 1
        {}
    }

    let mut scores: Vec<Vec<i32>> = Vec::new();
    let mut dirs: Vec<Vec<u8>> = Vec::new();
    scores.push(vec![0i32; cols]);
    dirs.push(vec![0u8; cols]);

    for i in 1..rows
        invariant
            scores@.len() == i,
            dirs@.len() == i,
            forall|a: int| 0 <= a < i ==> (#[trigger] scores@[a])@.len() == cols,
            forall|a: int| 0 <= a < i ==> (#[trigger] dirs@[a])@.len() == cols,
            forall|a: int, b: int|
                0 <= a < i && 0 <= b <= c.len() ==> #[trigger] mat_i32(scores@, a, b)
                    == cell_score(q, c, params, a, b),
            forall|a: int, b: int|
                0 <= a < i && 0 <= b <= c.len() ==> #[trigger] mat_u8(dirs@, a, b) == cell_dir(
                    q,
                    c,
                    params,
                    a,
                    b,
                ),
    {
        let mut srow: Vec<i32> = Vec::new();
        let mut drow: Vec<u8> = Vec::new();
        srow.push(0);
        drow.push(0);
        for j in 1..cols
            invariant
                1 <= i < rows,
                scores@.len() == i,
                dirs@.len() == i,
                srow@.len() == j,
                drow@.len() == j,
                forall|a: int| 0 <= a < i ==> (#[trigger] scores@[a])@.len() == cols,
                forall|a: int, b: int|
                    0 <= a < i && 0 <= b <= c.len() ==> #[trigger] mat_i32(scores@, a, b)
                        == cell_score(q, c, params, a, b),
                forall|b: int|
                    0 <= b < j ==> #[trigger] srow@[b] as int == cell_score(q, c, params, i as int, b),
                forall|b: int|
                    0 <= b < j ==> #[trigger] drow@[b] as int == cell_dir(q, c, params, i as int, b),
        {
            let token_match = seq1[i - 1] == seq2[j - 1];
            let sub = if token_match {
                params.match_score
            } else {
                params.mismatch_score
            };
            let prev_diag = scores[i - 1][j - 1];
            let prev_up = scores[i - 1][j];
            let prev_left = srow[j - 1];
            proof {
                assert(prev_diag as int == mat_i32(scores@, i - 1, j - 1));
                assert(prev_up as int == mat_i32(scores@, i - 1, j as int));
                assert(prev_left as int == cell_score(q, c, params, i as int, j - 1));
                lemma_cell_score_bounds(q, c, params, i - 1, j - 1);
                lemma_cell_score_bounds(q, c, params, i - 1, j as int);
                lemma_cell_score_bounds(q, c, params, i as int, j - 1);
                assert((i + j - 2) * mm + mm <= (q.len() + c.len()) * mm && (i + j - 1) * mm + mm
                    <= (q.len() + c.len()) * mm) by (nonlinear_arith)
                    requires 0 <= mm && 1 <= i <= q.len() && 1 <= j <= c.len()
                {}
            }
            let score_diag = prev_diag + sub;
            let score_up = prev_up + params.gap_score;
            let score_left = prev_left + params.gap_score;
            let best = imax(0, imax(score_diag, imax(score_up, score_left)));
            proof {
                assert(score_diag as int == cell_score(q, c, params, i - 1, j - 1) + pair_score(
                    q,
                    c,
                    params,
                    i as int,
                    j as int,
                ));
                assert(best as int == cell_score(q, c, params, i as int, j as int));
            }
            if best <= 0 {
                srow.push(0);
                drow.push(0);
            } else {
                srow.push(best);
                drow.push(choose_direction(best, score_diag, score_up, score_left));
            }
            proof {
                assert(srow@[j as int] as int == cell_score(q, c, params, i as int, j as int));
                assert(drow@[j as int] as int == cell_dir(q, c, params, i as int, j as int));
            }
        }
        let ghost pre_scores = scores@;
        let ghost pre_dirs = dirs@;
        scores.push(srow);
        dirs.push(drow);
        proof {
            assert forall|a: int, b: int| 0 <= a < i + 1 && 0 <= b <= c.len() implies #[trigger] mat_i32(
                scores@,
                a,
                b,
            ) == cell_score(q, c, params, a, b) by {
                if a < i {
                    assert(scores@[a] == pre_scores[a]);
                    assert(mat_i32(pre_scores, a, b) == cell_score(q, c, params, a, b));
                } else {
                    assert(scores@[a] == srow);
                }
            }
            assert forall|a: int, b: int| 0 <= a < i + 1 && 0 <= b <= c.len() implies #[trigger] mat_u8(
                dirs@,
                a,
                b,
            ) == cell_dir(q, c, params, a, b) by {
                if a < i {
                    assert(dirs@[a] == pre_dirs[a]);
                    assert(mat_u8(pre_dirs, a, b) == cell_dir(q, c, params, a, b));
                } else {
                    assert(dirs@[a] == drow);
                }
            }
        }
    }
    (scores, dirs)
}

/// Scans the filled score matrix in row-major order for the global maximum
/// and the full list of cells attaining it (ties retained).
fn find_max(seq1: &[u32], seq2: &[u32], params: ScoreParams, scores: &Vec<Vec<i32>>) -> (r: (
    i32,
    Vec<(usize, usize)>,
))
    requires
        seq1@.len() >= 1,
        seq2@.len() >= 1,
        dims_fit(seq1@, seq2@),
        scores_ok(seq1@, seq2@, params, scores@),
    ensures
        r.0 as int == grid_max(seq1@, seq2@, params),
        r.0 >= 0,
        r.0 > 0 ==> cells_match(r.1@, max_cells(seq1@, seq2@, params)),
        r.0 == 0 ==> r.1@.len() == 0,
{
    let ghost q = seq1@;
    let ghost c = seq2@;
    let rows = seq1.len() + 1;
    let cols = seq2.len() + 1;
    let mut max_score: i32 = 0;
    let mut max_positions: Vec<(usize, usize)> = Vec::new();

    for i in 1..rows
        invariant
            max_score as int == grid_max_upto(q, c, params, i - 1),
            max_score >= 0,
            max_score > 0 ==> cells_match(
                max_positions@,
                grid_cells_upto(q, c, params, max_score as int, i - 1),
            ),
            max_score == 0 ==> max_positions@.len() == 0,
    {
        for j in 1..cols
            invariant
                1 <= i < rows,
                max_score as int == max2(
                    grid_max_upto(q, c, params, i - 1),
                    row_max(q, c, params, i as int, j - 1),
                ),
                max_score >= 0,
                max_score > 0 ==> cells_match(
                    max_positions@,
                    grid_cells_upto(q, c, params, max_score as int, i - 1) + row_cells(
                        q,
                        c,
                        params,
                        max_score as int,
                        i as int,
                        j - 1,
                    ),
                ),
                max_score == 0 ==> max_positions@.len() == 0,
        {
            let s = scores[i][j];
            proof {
                assert(s as int == mat_i32(scores@, i as int, j as int));
            }
            if s > max_score {
                proof {
                    lemma_grid_cells_empty(q, c, params, s as int, i - 1);
                    lemma_row_cells_empty(q, c, params, s as int, i as int, j - 1);
                }
                max_score = s;
                max_positions.clear();
                if max_score > 0 {
                    max_positions.push((i, j));
                }
                proof {
                    let target = s as int;
                    let spec_now = grid_cells_upto(q, c, params, target, i - 1) + row_cells(
                        q,
                        c,
                        params,
                        target,
                        i as int,
                        j as int,
                    );
                    assert(spec_now =~= seq![(i as int, j as int)]);
                    assert(cells_match(max_positions@, spec_now));
                }
            } else if s == max_score && s > 0 {
                let ghost target = max_score as int;
                let ghost pre = max_positions@;
                let ghost spec_pre = grid_cells_upto(q, c, params, target, i - 1) + row_cells(
                    q,
                    c,
                    params,
                    target,
                    i as int,
                    j - 1,
                );
                max_positions.push((i, j));
                proof {
                    lemma_cells_match_push(pre, spec_pre, (i, j), (i as int, j as int));
                    assert(grid_cells_upto(q, c, params, target, i - 1) + row_cells(
                        q,
                        c,
                        params,
                        target,
                        i as int,
                        j as int,
                    ) =~= spec_pre.push((i as int, j as int)));
                }
            } else {
                proof {
                    if max_score > 0 {
                        let target = max_score as int;
                        assert(row_cells(q, c, params, target, i as int, j as int) == row_cells(
                            q,
                            c,
                            params,
                            target,
                            i as int,
                            j - 1,
                        ));
                    }
                }
            }
        }
    }
    proof {
        assert(grid_max_upto(q, c, params, q.len() as int) == grid_max(q, c, params));
    }
    (max_score, max_positions)
}

/// Walks the backpointers from one maximal cell and yields the inclusive
/// start row and column of the traced path and the number of matched
/// positions on it.
fn traceback_details(i_end: usize, j_end: usize, directions: &Vec<Vec<u8>>, scores: &Vec<Vec<i32>>, seq1: &[u32], seq2: &[u32], params: ScoreParams) -> (r: (usize, usize, usize))
    requires
        scores_ok(seq1@, seq2@, params, scores@),
        dirs_ok(seq1@, seq2@, params, directions@),
        1 <= i_end <= seq1@.len(),
        1 <= j_end <= seq2@.len(),
    ensures
        r.0 as int == tb(seq1@, seq2@, params, i_end as int, j_end as int).0,
        r.1 as int == tb(seq1@, seq2@, params, i_end as int, j_end as int).1,
        r.2 as int == tb(seq1@, seq2@, params, i_end as int, j_end as int).2,
{
    let ghost q = seq1@;
    let ghost c = seq2@;
    let ghost goal = tb(q, c, params, i_end as int, j_end as int);
    let mut i = i_end;
    let mut j = j_end;
    let mut matches: usize = 0;
    while i > 0 && j > 0 && directions[i][j] != 0 && scores[i][j] > 0
        invariant
            i <= i_end,
            j <= j_end,
            matches <= i_end - i,
            tb(q, c, params, i as int, j as int).0 == goal.0,
            tb(q, c, params, i as int, j as int).1 == goal.1,
            matches as int + tb(q, c, params, i as int, j as int).2 == goal.2,
        decreases i + j,
    {
        proof {
            assert(directions@[i as int]@[j as int] as int == mat_u8(
                directions@,
                i as int,
                j as int,
            ));
            assert(scores@[i as int]@[j as int] as int == mat_i32(scores@, i as int, j as int));
            assert(!tb_stop(q, c, params, i as int, j as int));
        }
        let d = directions[i][j];
        proof {
            assert(d as int == cell_dir(q, c, params, i as int, j as int));
        }
        if d == 1 {
            if seq1[i - 1] == seq2[j - 1] {
                matches += 1;
            }
            i -= 1;
            j -= 1;
        } else if d == 2 {
            i -= 1;
        } else {
            j -= 1;
        }
    }
    proof {
        if i > 0 && j > 0 {
            assert(directions@[i as int]@[j as int] as int == mat_u8(
                directions@,
                i as int,
                j as int,
            ));
            assert(scores@[i as int]@[j as int] as int == mat_i32(scores@, i as int, j as int));
        }
        assert(tb_stop(q, c, params, i as int, j as int));
    }
    (i, j, matches)
}

/// Walks the backpointers from one maximal cell as `traceback_details` does,
/// and also merges the matched candidate positions into ascending half-open
/// match blocks.
#[verifier::rlimit(60)]
fn traceback_details_with_match_blocks(i_end: usize, j_end: usize, directions: &Vec<Vec<u8>>, scores: &Vec<Vec<i32>>, seq1: &[u32], seq2: &[u32], params: ScoreParams) -> (r: (
    usize,
    usize,
    usize,
    Vec<(usize, usize)>,
))
    requires
        scores_ok(seq1@, seq2@, params, scores@),
        dirs_ok(seq1@, seq2@, params, directions@),
        1 <= i_end <= seq1@.len(),
        1 <= j_end <= seq2@.len(),
    ensures
        r.0 as int == tb(seq1@, seq2@, params, i_end as int, j_end as int).0,
        r.1 as int == tb(seq1@, seq2@, params, i_end as int, j_end as int).1,
        r.2 as int == tb(seq1@, seq2@, params, i_end as int, j_end as int).2,
        blocks_ints(r.3@) == blocks_of(tb_positions(seq1@, seq2@, params, i_end as int, j_end as int)),
{
    let ghost q = seq1@;
    let ghost c = seq2@;
    let ghost goal = tb(q, c, params, i_end as int, j_end as int);
    let ghost full = tb_positions(q, c, params, i_end as int, j_end as int);
    proof {
        lemma_tb_props(q, c, params, i_end as int, j_end as int);
    }
    let mut i = i_end;
    let mut j = j_end;
    let mut matches: usize = 0;
    let mut match_positions: Vec<usize> = Vec::new();

    while i > 0 && j > 0 && directions[i][j] != 0 && scores[i][j] > 0
        invariant
            i <= i_end,
            j <= j_end,
            matches <= i_end - i,
            tb(q, c, params, i as int, j as int).0 == goal.0,
            tb(q, c, params, i as int, j as int).1 == goal.1,
            matches as int + tb(q, c, params, i as int, j as int).2 == goal.2,
            match_positions@.len() <= full.len(),
            tb_positions(q, c, params, i as int, j as int) == full.take(
                full.len() - match_positions@.len(),
            ),
            forall|k: int|
                0 <= k < match_positions@.len() ==> #[trigger] match_positions@[k] as int == full[
                    full.len() - 1 - k
                ],
        decreases i + j,
    {
        proof {
            assert(directions@[i as int]@[j as int] as int == mat_u8(
                directions@,
                i as int,
                j as int,
            ));
            assert(scores@[i as int]@[j as int] as int == mat_i32(scores@, i as int, j as int));
            assert(!tb_stop(q, c, params, i as int, j as int));
        }
        let d = directions[i][j];
        proof {
            assert(d as int == cell_dir(q, c, params, i as int, j as int));
        }
        if d == 1 {
            let ghost li = i as int;
            let ghost lj = j as int;
            i -= 1;
            j -= 1;
            if seq1[i] == seq2[j] {
                let ghost len_before = full.len() - match_positions@.len();
                proof {
                    assert(tb_positions(q, c, params, li, lj) == tb_positions(
                        q,
                        c,
                        params,
                        li - 1,
                        lj - 1,
                    ).push(lj - 1));
                    assert(tb_positions(q, c, params, li - 1, lj - 1) =~= full.take(
                        len_before - 1,
                    ));
                    assert(tb_positions(q, c, params, li - 1, lj - 1).len() == len_before - 1);
                    assert(full.take(len_before)[len_before - 1] == lj - 1);
                    assert(full[len_before - 1] == lj - 1);
                }
                matches += 1;
                match_positions.push(j);
            }
        } else if d == 2 {
            i -= 1;
        } else {
            j -= 1;
        }
    }
    proof {
        if i > 0 && j > 0 {
            assert(directions@[i as int]@[j as int] as int == mat_u8(
                directions@,
                i as int,
                j as int,
            ));
            assert(scores@[i as int]@[j as int] as int == mat_i32(scores@, i as int, j as int));
        }
        assert(tb_stop(q, c, params, i as int, j as int));
        assert(match_positions@.len() == full.len()) by {
            assert(full.take(full.len() - match_positions@.len()).len() == 0);
        }
    }

    if match_positions.is_empty() {
        let empty_blocks: Vec<(usize, usize)> = Vec::new();
        proof {
            assert(blocks_ints(empty_blocks@) =~= Seq::<(int, int)>::empty());
        }
        return (i, j, matches, empty_blocks);
    }

    // restore ascending order
    let mut asc: Vec<usize> = Vec::new();
    let mut t = match_positions.len();
    while t > 0
        invariant
            t <= match_positions@.len(),
            asc@.len() == match_positions@.len() - t,
            forall|k: int|
                0 <= k < asc@.len() ==> #[trigger] asc@[k] == match_positions@[
                    match_positions@.len() - 1 - k
                ],
        decreases t,
    {
        t -= 1;
        asc.push(match_positions[t]);
    }
    proof {
        assert(pos_ints(asc@) =~= full);
    }

    // merge consecutive runs into half-open blocks
    let mut blocks: Vec<(usize, usize)> = Vec::new();
    let mut start = asc[0];
    let mut prev = start;
    proof {
        assert(full[0] < j_end);
        assert(pos_ints(asc@).drop_first() =~= pos_ints(asc@).skip(1));
    }
    let mut t2: usize = 1;
    while t2 < asc.len()
        invariant
            1 <= t2 <= asc@.len(),
            pos_ints(asc@) == full,
            start <= prev,
            prev as int == full[t2 - 1],
            prev < j_end,
            blocks_ints(blocks@) + blocks_from(full.skip(t2 as int), start as int, prev as int)
                == blocks_of(full),
        decreases asc@.len() - t2,
    {
        let pos = asc[t2];
        proof {
            assert(pos as int == full[t2 as int]);
            assert(full[t2 - 1] < full[t2 as int]);
            assert(full[t2 as int] < j_end);
            assert(full.skip(t2 as int)[0] == full[t2 as int]);
            assert(full.skip(t2 as int).drop_first() =~= full.skip(t2 + 1));
        }
        if pos == prev + 1 {
            prev = pos;
        } else {
            let ghost pre = blocks@;
            let ghost rest = blocks_from(full.skip(t2 + 1), pos as int, pos as int);
            blocks.push((start, prev + 1));
            proof {
                assert(blocks_ints(blocks@) =~= blocks_ints(pre).push(
                    (start as int, prev as int + 1),
                ));
                assert(blocks_ints(pre).push((start as int, prev as int + 1)) + rest
                    =~= blocks_ints(pre) + (seq![(start as int, prev as int + 1)] + rest));
            }
            start = pos;
            prev = pos;
        }
        t2 += 1;
    }
    let ghost pre = blocks@;
    blocks.push((start, prev + 1));
    proof {
        assert(full.skip(asc@.len() as int) =~= Seq::<int>::empty());
        assert(blocks_from(full.skip(asc@.len() as int), start as int, prev as int) =~= seq![
            (start as int, prev as int + 1),
        ]);
        assert(blocks_ints(blocks@) =~= blocks_ints(pre).push((start as int, prev as int + 1)));
        assert(blocks_ints(pre).push((start as int, prev as int + 1)) =~= blocks_ints(pre) + seq![
            (start as int, prev as int + 1),
        ]);
    }
    (i, j, matches, blocks)
}

/// True when `a` wins the deterministic tie-break against `b`: higher score,
/// then smaller token start, then longer token span, then smaller query
/// start, then smaller token end, then smaller query end.
fn alignment_before(a: &Alignment, b: &Alignment) -> (r: bool)
    requires
        a@.token_start <= a@.token_end,
        b@.token_start <= b@.token_end,
    ensures
        r == alignment_lt(a@, b@),
{
    if a.score != b.score {
        return a.score > b.score;
    }
    if a.token_start != b.token_start {
        return a.token_start < b.token_start;
    }
    let a_span = a.token_end - a.token_start;
    let b_span = b.token_end - b.token_start;
    if a_span != b_span {
        return a_span > b_span;
    }
    if a.query_start != b.query_start {
        return a.query_start < b.query_start;
    }
    if a.token_end != b.token_end {
        return a.token_end < b.token_end;
    }
    a.query_end < b.query_end
}

/// The best local alignment of `seq1` against `seq2`: the matrix is filled,
/// every cell attaining the maximal score is traced back, and the winner of
/// the deterministic tie-break is returned. Empty inputs and an all-zero
/// matrix yield the degenerate zero alignment.
pub fn smith_waterman(seq1: &[u32], seq2: &[u32], params: ScoreParams) -> (r: Alignment)
    requires
        dims_fit(seq1@, seq2@),
        pair_fits(seq1@, seq2@, params),
    ensures
        r@ == spec_align(seq1@, seq2@, params),
        valid_alignment(seq1@, seq2@, r@),
        r@.score == grid_max(seq1@, seq2@, params),
{
    let ghost q = seq1@;
    let ghost c = seq2@;
    proof {
        lemma_spec_align_valid(q, c, params);
    }
    if seq1.is_empty() || seq2.is_empty() {
        return Alignment {
            score: 0,
            query_start: 0,
            query_end: 0,
            token_start: 0,
            token_end: 0,
            matches: 0,
        };
    }
    let (scores, directions) = build_matrices(seq1, seq2, params);
    let (max_score, max_positions) = find_max(seq1, seq2, params, &scores);
    if max_score == 0 {
        return Alignment {
            score: 0,
            query_start: 0,
            query_end: 0,
            token_start: 0,
            token_end: 0,
            matches: 0,
        };
    }
    let ghost cells = max_cells(q, c, params);
    proof {
        lemma_best_cell_in_grid(q, c, params);
        lemma_grid_cells_member(q, c, params, grid_max(q, c, params), q.len() as int);
    }
    let (ie0, je0) = max_positions[0];
    proof {
        assert((ie0 as int, je0 as int) == cells[0]);
        lemma_tb_props(q, c, params, ie0 as int, je0 as int);
    }
    let t0 = traceback_details(ie0, je0, &directions, &scores, seq1, seq2, params);
    let mut best = Alignment {
        score: max_score,
        query_start: t0.0,
        query_end: ie0,
        token_start: t0.1,
        token_end: je0,
        matches: t0.2,
    };
    proof {
        assert(best@ == alignment_at(q, c, params, cells[0].0, cells[0].1));
        assert(cells.subrange(1, 1) =~= Seq::<(int, int)>::empty());
    }
    let mut k: usize = 1;
    while k < max_positions.len()
        invariant
            1 <= k <= max_positions@.len(),
            max_positions@.len() == cells.len(),
            cells_match(max_positions@, cells),
            best@.token_start <= best@.token_end,
            best@ == ({
                let w = scan_best_cell(q, c, params, cells.subrange(1, k as int), cells[0]);
                alignment_at(q, c, params, w.0, w.1)
            }),
        decreases max_positions@.len() - k,
    {
        let (ie, je) = max_positions[k];
        proof {
            assert((ie as int, je as int) == cells[k as int]);
            lemma_tb_props(q, c, params, ie as int, je as int);
        }
        let t = traceback_details(ie, je, &directions, &scores, seq1, seq2, params);
        let candidate = Alignment {
            score: max_score,
            query_start: t.0,
            query_end: ie,
            token_start: t.1,
            token_end: je,
            matches: t.2,
        };
        proof {
            assert(candidate@ == alignment_at(q, c, params, cells[k as int].0, cells[k as int].1));
            lemma_scan_push(q, c, params, cells.subrange(1, k as int), cells[0], cells[k as int]);
            assert(cells.subrange(1, k + 1) =~= cells.subrange(1, k as int).push(cells[k as int]));
        }
        if alignment_before(&candidate, &best) {
            best = candidate;
        }
        k += 1;
    }
    proof {
        assert(cells.subrange(1, cells.len() as int) =~= cells.drop_first());
    }
    best
}

/// As `smith_waterman`, and also returns the winning alignment's match
/// blocks: maximal runs of consecutive matched positions, as half-open
/// ranges in candidate coordinates.
pub fn smith_waterman_match_blocks(seq1: &[u32], seq2: &[u32], params: ScoreParams) -> (r: (
    Alignment,
    Vec<(usize, usize)>,
))
    requires
        dims_fit(seq1@, seq2@),
        pair_fits(seq1@, seq2@, params),
    ensures
        r.0@ == spec_align(seq1@, seq2@, params),
        valid_alignment(seq1@, seq2@, r.0@),
        r.0@.score == grid_max(seq1@, seq2@, params),
        blocks_ints(r.1@) == spec_align_blocks(seq1@, seq2@, params),
        valid_blocks(blocks_ints(r.1@), r.0@.token_start, r.0@.token_end, r.0@.matches),
{
    let ghost q = seq1@;
    let ghost c = seq2@;
    proof {
        lemma_spec_align_valid(q, c, params);
        lemma_spec_blocks_valid(q, c, params);
    }
    if seq1.is_empty() || seq2.is_empty() {
        let zero = Alignment {
            score: 0,
            query_start: 0,
            query_end: 0,
            token_start: 0,
            token_end: 0,
            matches: 0,
        };
        let none: Vec<(usize, usize)> = Vec::new();
        proof {
            assert(blocks_ints(none@) =~= Seq::<(int, int)>::empty());
        }
        return (zero, none);
    }
    let (scores, directions) = build_matrices(seq1, seq2, params);
    let (max_score, max_positions) = find_max(seq1, seq2, params, &scores);
    if max_score == 0 {
        let zero = Alignment {
            score: 0,
            query_start: 0,
            query_end: 0,
            token_start: 0,
            token_end: 0,
            matches: 0,
        };
        let none: Vec<(usize, usize)> = Vec::new();
        proof {
            assert(blocks_ints(none@) =~= Seq::<(int, int)>::empty());
        }
        return (zero, none);
    }
    let ghost cells = max_cells(q, c, params);
    proof {
        lemma_best_cell_in_grid(q, c, params);
        lemma_grid_cells_member(q, c, params, grid_max(q, c, params), q.len() as int);
    }
    let (ie0, je0) = max_positions[0];
    proof {
        assert((ie0 as int, je0 as int) == cells[0]);
        lemma_tb_props(q, c, params, ie0 as int, je0 as int);
    }
    let t0 = traceback_details_with_match_blocks(
        ie0,
        je0,
        &directions,
        &scores,
        seq1,
        seq2,
        params,
    );
    let mut best = Alignment {
        score: max_score,
        query_start: t0.0,
        query_end: ie0,
        token_start: t0.1,
        token_end: je0,
        matches: t0.2,
    };
    let mut best_blocks = t0.3;
    proof {
        assert(best@ == alignment_at(q, c, params, cells[0].0, cells[0].1));
        assert(cells.subrange(1, 1) =~= Seq::<(int, int)>::empty());
    }
    let mut k: usize = 1;
    while k < max_positions.len()
        invariant
            1 <= k <= max_positions@.len(),
            max_positions@.len() == cells.len(),
            cells_match(max_positions@, cells),
            best@.token_start <= best@.token_end,
            ({
                let w = scan_best_cell(q, c, params, cells.subrange(1, k as int), cells[0]);
                best@ == alignment_at(q, c, params, w.0, w.1) && blocks_ints(best_blocks@)
                    == blocks_of(tb_positions(q, c, params, w.0, w.1))
            }),
        decreases max_positions@.len() - k,
    {
        let (ie, je) = max_positions[k];
        proof {
            assert((ie as int, je as int) == cells[k as int]);
            lemma_tb_props(q, c, params, ie as int, je as int);
        }
        let t = traceback_details_with_match_blocks(
            ie,
            je,
            &directions,
            &scores,
            seq1,
            seq2,
            params,
        );
        let candidate = Alignment {
            score: max_score,
            query_start: t.0,
            query_end: ie,
            token_start: t.1,
            token_end: je,
            matches: t.2,
        };
        proof {
            assert(candidate@ == alignment_at(q, c, params, cells[k as int].0, cells[k as int].1));
            lemma_scan_push(q, c, params, cells.subrange(1, k as int), cells[0], cells[k as int]);
            assert(cells.subrange(1, k + 1) =~= cells.subrange(1, k as int).push(cells[k as int]));
        }
        if alignment_before(&candidate, &best) {
            best = candidate;
            best_blocks = t.3;
        }
        k += 1;
    }
    proof {
        assert(cells.subrange(1, cells.len() as int) =~= cells.drop_first());
    }
    (best, best_blocks)
}

} // verus!
