//! Proofs about the alignment model: score bounds, properties of the
//! maximal-cell scan, of traceback, of block merging, and of the ranking
//! order.
use vstd::prelude::*;

use crate::model::CandidateModel;
use crate::model::ScoreParams;
use crate::model::alignment_at;
use crate::model::alignment_lt;
use crate::model::best_cell;
use crate::model::blocks_from;
use crate::model::blocks_of;
use crate::model::blocks_total;
use crate::model::candidate_lt;
use crate::model::cell_score;
use crate::model::grid_cells_upto;
use crate::model::grid_max;
use crate::model::grid_max_upto;
use crate::model::insert_ranked;
use crate::model::max_abs_param;
use crate::model::max_cells;
use crate::model::rank_sorted;
use crate::model::row_cells;
use crate::model::row_max;
use crate::model::scan_best_cell;
use crate::model::spec_align;
use crate::model::spec_align_blocks;
use crate::model::strictly_ascending;
use crate::model::tb;
use crate::model::tb_positions;
use crate::model::valid_alignment;
use crate::model::valid_blocks;
use crate::model::zero_alignment;

verus! {

/// Every cell score is non-negative and bounded by the path length times the
/// largest parameter magnitude.
pub proof fn lemma_cell_score_bounds(q: Seq<u32>, c: Seq<u32>, p: ScoreParams, i: int, j: int)
    requires
        0 <= i,
        0 <= j,
    ensures
        0 <= cell_score(q, c, p, i, j) <= (i + j) * max_abs_param(p),
    decreases i + j,
{
    let mm = max_abs_param(p);
    if i <= 0 || j <= 0 {
        assert(0 <= (i + j) * mm) by (nonlinear_arith)
            requires 0 <= i + j && 0 <= mm
        {}
    } else {
        lemma_cell_score_bounds(q, c, p, i - 1, j - 1);
        lemma_cell_score_bounds(q, c, p, i - 1, j);
        lemma_cell_score_bounds(q, c, p, i, j - 1);
        assert((i + j - 2) * mm + mm <= (i + j) * mm && (i + j - 1) * mm + mm <= (i + j) * mm)
            by (nonlinear_arith)
            requires 0 <= mm
        {}
        assert(0 <= (i + j) * mm) by (nonlinear_arith)
            requires 0 <= i + j && 0 <= mm
        {}
    }
}

/// Every cell of row i up to column j scores at most `row_max`, and
/// `row_max` is non-negative and attained (or zero).
pub proof fn lemma_row_max_ge(q: Seq<u32>, c: Seq<u32>, p: ScoreParams, i: int, j: int)
    requires
        0 <= j,
    ensures
        0 <= row_max(q, c, p, i, j),
        forall|b: int| 1 <= b <= j ==> cell_score(q, c, p, i, b) <= row_max(q, c, p, i, j),
    decreases j,
{
    if j > 0 {
        lemma_row_max_ge(q, c, p, i, j - 1);
    }
}

/// Every cell of the first i rows scores at most `grid_max_upto(i)`, which
/// is non-negative.
pub proof fn lemma_grid_max_ge(q: Seq<u32>, c: Seq<u32>, p: ScoreParams, i: int)
    requires
        0 <= i,
    ensures
        0 <= grid_max_upto(q, c, p, i),
        forall|a: int, b: int|
            1 <= a <= i && 1 <= b <= c.len() ==> cell_score(q, c, p, a, b) <= grid_max_upto(
                q,
                c,
                p,
                i,
            ),
    decreases i,
{
    if i > 0 {
        lemma_grid_max_ge(q, c, p, i - 1);
        lemma_row_max_ge(q, c, p, i, c.len() as int);
    }
}

/// A target above the row maximum is attained by no cell of the row.
pub proof fn lemma_row_cells_empty(q: Seq<u32>, c: Seq<u32>, p: ScoreParams, target: int, i: int, j: int)
    requires
        0 <= j,
        target > row_max(q, c, p, i, j),
    ensures
        row_cells(q, c, p, target, i, j) == Seq::<(int, int)>::empty(),
    decreases j,
{
    if j > 0 {
        lemma_row_cells_empty(q, c, p, target, i, j - 1);
    }
}

/// A target above the grid maximum is attained by no cell of the grid.
pub proof fn lemma_grid_cells_empty(q: Seq<u32>, c: Seq<u32>, p: ScoreParams, target: int, i: int)
    requires
        0 <= i,
        target > grid_max_upto(q, c, p, i),
    ensures
        grid_cells_upto(q, c, p, target, i) == Seq::<(int, int)>::empty(),
    decreases i,
{
    if i > 0 {
        lemma_grid_cells_empty(q, c, p, target, i - 1);
        lemma_row_cells_empty(q, c, p, target, i, c.len() as int);
        assert(grid_cells_upto(q, c, p, target, i) =~= Seq::<(int, int)>::empty());
    }
}

/// Cells collected from a row carry that row index, a column in 1..=j, and
/// a score equal to the target.
pub proof fn lemma_row_cells_member(q: Seq<u32>, c: Seq<u32>, p: ScoreParams, target: int, i: int, j: int)
    requires
        0 <= j,
    ensures
        forall|k: int|
            0 <= k < row_cells(q, c, p, target, i, j).len() ==> {
                let cell = #[trigger] row_cells(q, c, p, target, i, j)[k];
                cell.0 == i && 1 <= cell.1 <= j && cell_score(q, c, p, cell.0, cell.1) == target
            },
    decreases j,
{
    if j > 0 {
        lemma_row_cells_member(q, c, p, target, i, j - 1);
        let rest = row_cells(q, c, p, target, i, j - 1);
        let cur = row_cells(q, c, p, target, i, j);
        assert forall|k: int| 0 <= k < cur.len() implies {
            let cell = #[trigger] cur[k];
            cell.0 == i && 1 <= cell.1 <= j && cell_score(q, c, p, cell.0, cell.1) == target
        } by {
            if cell_score(q, c, p, i, j) == target {
                if k < rest.len() {
                    assert(cur[k] == rest[k]);
                } else {
                    assert(cur[k] == (i, j));
                }
            } else {
                assert(cur[k] == rest[k]);
            }
        }
    }
}

/// Cells collected from the grid lie in rows 1..=i and columns 1..=len(c),
/// and each scores exactly the target.
pub proof fn lemma_grid_cells_member(q: Seq<u32>, c: Seq<u32>, p: ScoreParams, target: int, i: int)
    requires
        0 <= i,
    ensures
        forall|k: int|
            0 <= k < grid_cells_upto(q, c, p, target, i).len() ==> {
                let cell = #[trigger] grid_cells_upto(q, c, p, target, i)[k];
                1 <= cell.0 <= i && 1 <= cell.1 <= c.len() && cell_score(q, c, p, cell.0, cell.1)
                    == target
            },
    decreases i,
{
    if i > 0 {
        lemma_grid_cells_member(q, c, p, target, i - 1);
        lemma_row_cells_member(q, c, p, target, i, c.len() as int);
        let prev = grid_cells_upto(q, c, p, target, i - 1);
        let row = row_cells(q, c, p, target, i, c.len() as int);
        let cur = grid_cells_upto(q, c, p, target, i);
        assert forall|k: int| 0 <= k < cur.len() implies {
            let cell = #[trigger] cur[k];
            1 <= cell.0 <= i && 1 <= cell.1 <= c.len() && cell_score(q, c, p, cell.0, cell.1)
                == target
        } by {
            if k < prev.len() {
                assert(cur[k] == prev[k]);
            } else {
                assert(cur[k] == row[k - prev.len()]);
            }
        }
    }
}

/// A row's maximum, if positive, is attained by some collected cell.
pub proof fn lemma_row_cells_nonempty(q: Seq<u32>, c: Seq<u32>, p: ScoreParams, i: int, j: int)
    requires
        0 <= j,
        row_max(q, c, p, i, j) > 0,
    ensures
        row_cells(q, c, p, row_max(q, c, p, i, j), i, j).len() > 0,
    decreases j,
{
    if j > 0 {
        if cell_score(q, c, p, i, j) == row_max(q, c, p, i, j) {
        } else {
            lemma_row_cells_nonempty(q, c, p, i, j - 1);
        }
    }
}

/// A positive grid maximum is attained by some collected cell.
pub proof fn lemma_grid_cells_nonempty(q: Seq<u32>, c: Seq<u32>, p: ScoreParams, i: int)
    requires
        0 <= i,
        grid_max_upto(q, c, p, i) > 0,
    ensures
        grid_cells_upto(q, c, p, grid_max_upto(q, c, p, i), i).len() > 0,
    decreases i,
{
    if i > 0 {
        let target = grid_max_upto(q, c, p, i);
        if row_max(q, c, p, i, c.len() as int) == target {
            lemma_row_cells_nonempty(q, c, p, i, c.len() as int);
        } else {
            lemma_grid_cells_nonempty(q, c, p, i - 1);
        }
    }
}

/// Traceback stays inside the rectangle it started from, counts at most one
/// match per step of either index, and reports its matched positions as a
/// strictly ascending list inside the traced token span.
pub proof fn lemma_tb_props(q: Seq<u32>, c: Seq<u32>, p: ScoreParams, i: int, j: int)
    requires
        0 <= i,
        0 <= j,
    ensures
        ({
            let t = tb(q, c, p, i, j);
            let ps = tb_positions(q, c, p, i, j);
            &&& 0 <= t.0 <= i
            &&& 0 <= t.1 <= j
            &&& 0 <= t.2
            &&& t.2 <= i - t.0
            &&& t.2 <= j - t.1
            &&& ps.len() == t.2
            &&& strictly_ascending(ps)
            &&& forall|k: int| 0 <= k < ps.len() ==> t.1 <= #[trigger] ps[k] < j
        }),
    decreases i + j,
{
    let t = tb(q, c, p, i, j);
    let ps = tb_positions(q, c, p, i, j);
    if crate::model::tb_stop(q, c, p, i, j) {
    } else if crate::model::cell_dir(q, c, p, i, j) == 1 {
        lemma_tb_props(q, c, p, i - 1, j - 1);
        let rp = tb_positions(q, c, p, i - 1, j - 1);
        if q[i - 1] == c[j - 1] {
            assert(ps == rp.push(j - 1));
            assert(forall|a: int, b: int| 0 <= a < b < ps.len() ==> ps[a] < ps[b]) by {
                assert(forall|a: int| 0 <= a < rp.len() ==> #[trigger] ps[a] == rp[a]);
                assert(ps[ps.len() - 1] == j - 1);
            }
        }
    } else if crate::model::cell_dir(q, c, p, i, j) == 2 {
        lemma_tb_props(q, c, p, i - 1, j);
    } else {
        lemma_tb_props(q, c, p, i, j - 1);
    }
}

/// The winner of the maximal-cell scan is the accumulator or one of the
/// scanned cells.
pub proof fn lemma_scan_member(q: Seq<u32>, c: Seq<u32>, p: ScoreParams, cells: Seq<(int, int)>, acc: (int, int))
    ensures
        scan_best_cell(q, c, p, cells, acc) == acc || cells.contains(
            scan_best_cell(q, c, p, cells, acc),
        ),
    decreases cells.len(),
{
    if cells.len() > 0 {
        let cand = alignment_at(q, c, p, cells[0].0, cells[0].1);
        let best = alignment_at(q, c, p, acc.0, acc.1);
        let next = if alignment_lt(cand, best) {
            cells[0]
        } else {
            acc
        };
        lemma_scan_member(q, c, p, cells.drop_first(), next);
        let w = scan_best_cell(q, c, p, cells.drop_first(), next);
        if w != next && cells.drop_first().contains(w) {
            let k = choose|k: int| 0 <= k < cells.drop_first().len() && cells.drop_first()[k] == w;
            assert(cells[k + 1] == w);
        }
    }
}

/// Scanning one more cell applies one more comparison step to the winner so
/// far.
pub proof fn lemma_scan_push(q: Seq<u32>, c: Seq<u32>, p: ScoreParams, cells: Seq<(int, int)>, acc: (int, int), x: (int, int))
    ensures
        scan_best_cell(q, c, p, cells.push(x), acc) == ({
            let w = scan_best_cell(q, c, p, cells, acc);
            if alignment_lt(alignment_at(q, c, p, x.0, x.1), alignment_at(q, c, p, w.0, w.1)) {
                x
            } else {
                w
            }
        }),
    decreases cells.len(),
{
    let pushed = cells.push(x);
    if cells.len() == 0 {
        assert(pushed[0] == x);
        assert(pushed.drop_first() =~= Seq::<(int, int)>::empty());
        let candx = alignment_at(q, c, p, x.0, x.1);
        let besta = alignment_at(q, c, p, acc.0, acc.1);
        let next = if alignment_lt(candx, besta) {
            x
        } else {
            acc
        };
        assert(scan_best_cell(q, c, p, pushed, acc) == scan_best_cell(
            q,
            c,
            p,
            pushed.drop_first(),
            next,
        ));
        assert(scan_best_cell(q, c, p, pushed.drop_first(), next) == next);
        assert(scan_best_cell(q, c, p, cells, acc) == acc);
    } else {
        assert(pushed[0] == cells[0]);
        assert(pushed.drop_first() =~= cells.drop_first().push(x));
        let cand = alignment_at(q, c, p, cells[0].0, cells[0].1);
        let best = alignment_at(q, c, p, acc.0, acc.1);
        let next = if alignment_lt(cand, best) {
            cells[0]
        } else {
            acc
        };
        assert(scan_best_cell(q, c, p, pushed, acc) == scan_best_cell(
            q,
            c,
            p,
            pushed.drop_first(),
            next,
        ));
        assert(scan_best_cell(q, c, p, cells, acc) == scan_best_cell(
            q,
            c,
            p,
            cells.drop_first(),
            next,
        ));
        lemma_scan_push(q, c, p, cells.drop_first(), next, x);
    }
}

/// The best alignment satisfies the data-model invariants: non-negative
/// score, ordered in-range offsets, match count at most either span.
pub proof fn lemma_spec_align_valid(q: Seq<u32>, c: Seq<u32>, p: ScoreParams)
    ensures
        valid_alignment(q, c, spec_align(q, c, p)),
        spec_align(q, c, p).score == grid_max(q, c, p),
{
    lemma_grid_max_ge(q, c, p, q.len() as int);
    if q.len() == 0 || c.len() == 0 || grid_max(q, c, p) == 0 {
        assert(valid_alignment(q, c, zero_alignment()));
        if q.len() == 0 || c.len() == 0 {
            assert(grid_max_upto(q, c, p, q.len() as int) == 0) by {
                if q.len() == 0 {
                } else {
                    lemma_all_rows_zero(q, c, p, q.len() as int);
                }
            }
        }
    } else {
        let target = grid_max(q, c, p);
        let cells = max_cells(q, c, p);
        lemma_grid_cells_nonempty(q, c, p, q.len() as int);
        lemma_grid_cells_member(q, c, p, target, q.len() as int);
        lemma_scan_member(q, c, p, cells.drop_first(), cells[0]);
        let w = best_cell(q, c, p);
        assert(cells.contains(w) || w == cells[0]) by {
            if scan_best_cell(q, c, p, cells.drop_first(), cells[0]) != cells[0] {
                let k = choose|k: int|
                    0 <= k < cells.drop_first().len() && cells.drop_first()[k] == w;
                assert(cells[k + 1] == w);
            }
        }
        assert(1 <= w.0 <= q.len() && 1 <= w.1 <= c.len() && cell_score(q, c, p, w.0, w.1)
            == target) by {
            if w != cells[0] {
                let k = choose|k: int| 0 <= k < cells.len() && cells[k] == w;
                assert(cells[k] == w);
            }
        }
        lemma_tb_props(q, c, p, w.0, w.1);
    }
}

/// With an empty candidate sequence every row maximum is zero, so the grid
/// maximum is zero.
proof fn lemma_all_rows_zero(q: Seq<u32>, c: Seq<u32>, p: ScoreParams, i: int)
    requires
        0 <= i,
        c.len() == 0,
    ensures
        grid_max_upto(q, c, p, i) == 0,
    decreases i,
{
    if i > 0 {
        lemma_all_rows_zero(q, c, p, i - 1);
    }
}

/// Merging an ascending tail of positions onto an open block `[start, prev]`
/// yields non-empty, ascending, gap-separated blocks inside `[start, hi)`
/// whose combined length counts every merged position once.
pub proof fn lemma_blocks_from_valid(ps: Seq<int>, start: int, prev: int, hi: int)
    requires
        start <= prev < hi,
        strictly_ascending(ps),
        forall|k: int| 0 <= k < ps.len() ==> prev < #[trigger] ps[k] < hi,
    ensures
        ({
            let bs = blocks_from(ps, start, prev);
            &&& bs.len() >= 1
            &&& bs[0].0 == start
            &&& forall|k: int| 0 <= k < bs.len() ==> start <= (#[trigger] bs[k]).0 < bs[k].1 <= hi
            &&& forall|k: int| 0 <= k < bs.len() - 1 ==> (#[trigger] bs[k]).1 < bs[k + 1].0
            &&& blocks_total(bs) == (prev + 1 - start) + ps.len()
        }),
    decreases ps.len(),
{
    let bs = blocks_from(ps, start, prev);
    if ps.len() == 0 {
        assert(bs.drop_first() =~= Seq::<(int, int)>::empty());
        assert(blocks_total(bs.drop_first()) == 0);
        assert(bs[0] == (start, prev + 1));
    } else {
        let rest = ps.drop_first();
        assert(forall|a: int| 0 <= a < rest.len() ==> ps[0] < #[trigger] rest[a] < hi) by {
            assert(forall|a: int| 0 <= a < rest.len() ==> rest[a] == ps[a + 1]);
        }
        assert(strictly_ascending(rest)) by {
            assert(forall|a: int| 0 <= a < rest.len() ==> rest[a] == ps[a + 1]);
        }
        if ps[0] == prev + 1 {
            lemma_blocks_from_valid(rest, start, ps[0], hi);
        } else {
            lemma_blocks_from_valid(rest, ps[0], ps[0], hi);
            let sub = blocks_from(rest, ps[0], ps[0]);
            assert(bs == seq![(start, prev + 1)] + sub);
            assert(forall|k: int| 0 <= k < sub.len() ==> bs[k + 1] == #[trigger] sub[k]);
            assert(bs[0] == (start, prev + 1));
            assert(blocks_total(bs) == (prev + 1 - start) + blocks_total(sub)) by {
                assert(bs.drop_first() =~= sub);
            }
        }
    }
}

/// Merging a strictly ascending position list bounded by `[lo, hi)` yields a
/// valid block list whose combined length is the number of positions.
pub proof fn lemma_blocks_of_valid(ps: Seq<int>, lo: int, hi: int)
    requires
        strictly_ascending(ps),
        forall|k: int| 0 <= k < ps.len() ==> lo <= #[trigger] ps[k] < hi,
    ensures
        valid_blocks(blocks_of(ps), lo, hi, ps.len() as int),
{
    if ps.len() == 0 {
    } else {
        let rest = ps.drop_first();
        assert(forall|a: int| 0 <= a < rest.len() ==> ps[0] < #[trigger] rest[a] < hi) by {
            assert(forall|a: int| 0 <= a < rest.len() ==> rest[a] == ps[a + 1]);
        }
        assert(strictly_ascending(rest)) by {
            assert(forall|a: int| 0 <= a < rest.len() ==> rest[a] == ps[a + 1]);
        }
        lemma_blocks_from_valid(rest, ps[0], ps[0], hi);
    }
}

/// The match blocks of the best alignment are valid for that alignment:
/// disjoint ascending runs inside the token span, jointly as long as the
/// match count.
pub proof fn lemma_spec_blocks_valid(q: Seq<u32>, c: Seq<u32>, p: ScoreParams)
    ensures
        valid_blocks(
            spec_align_blocks(q, c, p),
            spec_align(q, c, p).token_start,
            spec_align(q, c, p).token_end,
            spec_align(q, c, p).matches,
        ),
{
    lemma_spec_align_valid(q, c, p);
    if q.len() == 0 || c.len() == 0 || grid_max(q, c, p) == 0 {
    } else {
        let w = best_cell(q, c, p);
        lemma_best_cell_in_grid(q, c, p);
        lemma_tb_props(q, c, p, w.0, w.1);
        let ps = tb_positions(q, c, p, w.0, w.1);
        lemma_blocks_of_valid(ps, tb(q, c, p, w.0, w.1).1, w.1);
    }
}

/// When the grid maximum is positive, the winning cell lies in the grid and
/// attains the maximum.
pub proof fn lemma_best_cell_in_grid(q: Seq<u32>, c: Seq<u32>, p: ScoreParams)
    requires
        grid_max(q, c, p) > 0,
    ensures
        1 <= best_cell(q, c, p).0 <= q.len(),
        1 <= best_cell(q, c, p).1 <= c.len(),
        cell_score(q, c, p, best_cell(q, c, p).0, best_cell(q, c, p).1) == grid_max(q, c, p),
        max_cells(q, c, p).len() > 0,
{
    let target = grid_max(q, c, p);
    let cells = max_cells(q, c, p);
    lemma_grid_cells_nonempty(q, c, p, q.len() as int);
    lemma_grid_cells_member(q, c, p, target, q.len() as int);
    lemma_scan_member(q, c, p, cells.drop_first(), cells[0]);
    let w = best_cell(q, c, p);
    if scan_best_cell(q, c, p, cells.drop_first(), cells[0]) != cells[0] {
        let k = choose|k: int| 0 <= k < cells.drop_first().len() && cells.drop_first()[k] == w;
        assert(cells[k + 1] == w);
    }
}

/// Appending matching elements keeps an executable cell list and its ghost
/// image matching.
pub proof fn lemma_cells_match_push(v: Seq<(usize, usize)>, s: Seq<(int, int)>, x: (usize, usize), xi: (int, int))
    requires
        crate::model::cells_match(v, s),
        (x.0 as int, x.1 as int) == xi,
    ensures
        crate::model::cells_match(v.push(x), s.push(xi)),
{
    assert forall|k: int| 0 <= k < v.push(x).len() implies ((#[trigger] v.push(x)[k]).0 as int, v.push(
        x,
    )[k].1 as int) == s.push(xi)[k] by {
        if k < v.len() {
            assert(v.push(x)[k] == v[k]);
            assert(s.push(xi)[k] == s[k]);
        }
    }
}

/// The strict candidate order is transitive.
pub proof fn lemma_candidate_lt_trans(a: CandidateModel, b: CandidateModel, d: CandidateModel)
    requires
        candidate_lt(a, b),
        candidate_lt(b, d),
    ensures
        candidate_lt(a, d),
{
}

/// Ranked output: no later element is strictly better than an earlier one.
pub open spec fn cand_sorted(s: Seq<CandidateModel>) -> bool {
    forall|a: int, b: int| 0 <= a < b < s.len() ==> !candidate_lt(#[trigger] s[b], #[trigger] s[a])
}

/// Inserting preserves length plus one and the set of elements.
pub proof fn lemma_insert_ranked_len(s: Seq<CandidateModel>, x: CandidateModel)
    ensures
        insert_ranked(s, x).len() == s.len() + 1,
    decreases s.len(),
{
    if s.len() > 0 && !candidate_lt(x, s[0]) {
        lemma_insert_ranked_len(s.drop_first(), x);
    }
}

/// Sorting preserves length.
pub proof fn lemma_rank_sorted_len(s: Seq<CandidateModel>)
    ensures
        rank_sorted(s).len() == s.len(),
    decreases s.len(),
{
    if s.len() > 0 {
        lemma_rank_sorted_len(s.drop_last());
        lemma_insert_ranked_len(rank_sorted(s.drop_last()), s.last());
    }
}

/// Inserting into a ranked sequence keeps it ranked.
pub proof fn lemma_insert_ranked_sorted(s: Seq<CandidateModel>, x: CandidateModel)
    requires
        cand_sorted(s),
    ensures
        cand_sorted(insert_ranked(s, x)),
    decreases s.len(),
{
    let out = insert_ranked(s, x);
    lemma_insert_ranked_len(s, x);
    if s.len() == 0 {
    } else if candidate_lt(x, s[0]) {
        assert(out == seq![x] + s);
        assert(forall|b: int| 1 <= b < out.len() ==> out[b] == s[b - 1]);
        assert(forall|b: int| 1 <= b < out.len() ==> !candidate_lt(#[trigger] out[b], x)) by {
            assert forall|b: int| 1 <= b < out.len() implies !candidate_lt(#[trigger] out[b], x) by {
                if candidate_lt(out[b], x) {
                    lemma_candidate_lt_trans(out[b], x, s[0]);
                    if b >= 2 {
                        assert(!candidate_lt(s[b - 1], s[0]));
                    }
                }
            }
        }
    } else {
        lemma_insert_ranked_sorted(s.drop_first(), x);
        let sub = insert_ranked(s.drop_first(), x);
        assert(out == seq![s[0]] + sub);
        assert(forall|b: int| 1 <= b < out.len() ==> out[b] == sub[b - 1]);
        // every element of the inserted tail is either x or a tail element,
        // and neither is strictly better than the head
        assert forall|b: int| 1 <= b < out.len() implies !candidate_lt(#[trigger] out[b], out[0]) by {
            lemma_insert_ranked_member(s.drop_first(), x, b - 1);
            if out[b] != x {
                let k = choose|k: int|
                    0 <= k < s.drop_first().len() && s.drop_first()[k] == sub[b - 1];
                assert(s[k + 1] == sub[b - 1]);
            }
        }
    }
}

/// Every element of an insertion result is the inserted element or one of
/// the originals.
pub proof fn lemma_insert_ranked_member(s: Seq<CandidateModel>, x: CandidateModel, k: int)
    requires
        0 <= k < insert_ranked(s, x).len(),
    ensures
        insert_ranked(s, x)[k] == x || s.contains(insert_ranked(s, x)[k]),
    decreases s.len(),
{
    lemma_insert_ranked_len(s, x);
    if s.len() == 0 {
    } else if candidate_lt(x, s[0]) {
        if k > 0 {
            assert(s[k - 1] == insert_ranked(s, x)[k]);
        }
    } else {
        if k == 0 {
            assert(s[0] == insert_ranked(s, x)[0]);
        } else {
            lemma_insert_ranked_member(s.drop_first(), x, k - 1);
            let e = insert_ranked(s, x)[k];
            assert(insert_ranked(s.drop_first(), x)[k - 1] == e);
            if e != x {
                let t = choose|t: int|
                    0 <= t < s.drop_first().len() && s.drop_first()[t] == e;
                assert(s[t + 1] == e);
            }
        }
    }
}

/// The ranked sequence is sorted by the candidate order.
pub proof fn lemma_rank_sorted_sorted(s: Seq<CandidateModel>)
    ensures
        cand_sorted(rank_sorted(s)),
    decreases s.len(),
{
    if s.len() > 0 {
        lemma_rank_sorted_sorted(s.drop_last());
        lemma_insert_ranked_sorted(rank_sorted(s.drop_last()), s.last());
    }
}

/// Where the first position with a strictly better element is known, the
/// insertion point is that position.
pub proof fn lemma_insert_ranked_at(s: Seq<CandidateModel>, x: CandidateModel, pos: int)
    requires
        0 <= pos <= s.len(),
        forall|a: int| 0 <= a < pos ==> !candidate_lt(x, #[trigger] s[a]),
        pos == s.len() || candidate_lt(x, s[pos]),
    ensures
        insert_ranked(s, x) == s.insert(pos, x),
    decreases s.len(),
{
    if s.len() == 0 {
        assert(insert_ranked(s, x) =~= s.insert(0, x));
    } else if candidate_lt(x, s[0]) {
        assert(pos == 0);
        assert(insert_ranked(s, x) =~= s.insert(0, x));
    } else {
        lemma_insert_ranked_at(s.drop_first(), x, pos - 1);
        assert(insert_ranked(s, x) =~= s.insert(pos, x)) by {
            assert(insert_ranked(s, x) == seq![s[0]] + insert_ranked(s.drop_first(), x));
            assert(insert_ranked(s.drop_first(), x) == s.drop_first().insert(pos - 1, x));
        }
    }
}

/// Appending one candidate extends the sorted prefix by one insertion.
pub proof fn lemma_rank_sorted_push(s: Seq<CandidateModel>, x: CandidateModel)
    ensures
        rank_sorted(s.push(x)) == insert_ranked(rank_sorted(s), x),
{
    assert(s.push(x).drop_last() =~= s);
    assert(s.push(x).last() == x);
}

} // verus!
