//! Mathematical model of local (Smith–Waterman) alignment over integer
//! token sequences: the dynamic-programming score matrix, the direction
//! matrix, traceback, match blocks, the deterministic tie-break order, and
//! the batch ranking, all as spec functions over `Seq` and `int`.
use vstd::prelude::*;

verus! {

/// Scoring parameters for local alignment: reward for a token match,
/// penalties (usually negative) for a mismatch and for a gap.
#[derive(Clone, Copy)]
pub struct ScoreParams {
    pub match_score: i32,
    pub mismatch_score: i32,
    pub gap_score: i32,
}

/// Result of one pairwise alignment. Offsets are 0-based and half-open:
/// the aligned region is `query[query_start..query_end]` against
/// `candidate[token_start..token_end]`.
#[derive(Clone, Copy, Debug)]
pub struct Alignment {
    pub score: i32,
    pub query_start: usize,
    pub query_end: usize,
    pub token_start: usize,
    pub token_end: usize,
    pub matches: usize,
}

/// An `Alignment` tagged with the candidate's position in a batch input.
#[derive(Clone, Copy, Debug)]
pub struct CandidateAlignment {
    pub score: i32,
    pub index: usize,
    pub query_start: usize,
    pub query_end: usize,
    pub token_start: usize,
    pub token_end: usize,
    pub matches: usize,
}

/// Ghost image of an `Alignment`, over unbounded integers.
pub struct AlignmentModel {
    pub score: int,
    pub query_start: int,
    pub query_end: int,
    pub token_start: int,
    pub token_end: int,
    pub matches: int,
}

/// Ghost image of a `CandidateAlignment`.
pub struct CandidateModel {
    pub score: int,
    pub index: int,
    pub query_start: int,
    pub query_end: int,
    pub token_start: int,
    pub token_end: int,
    pub matches: int,
}

impl View for Alignment {
    type V = AlignmentModel;

    open spec fn view(&self) -> AlignmentModel {
        AlignmentModel {
            score: self.score as int,
            query_start: self.query_start as int,
            query_end: self.query_end as int,
            token_start: self.token_start as int,
            token_end: self.token_end as int,
            matches: self.matches as int,
        }
    }
}

impl View for CandidateAlignment {
    type V = CandidateModel;

    open spec fn view(&self) -> CandidateModel {
        CandidateModel {
            score: self.score as int,
            index: self.index as int,
            query_start: self.query_start as int,
            query_end: self.query_end as int,
            token_start: self.token_start as int,
            token_end: self.token_end as int,
            matches: self.matches as int,
        }
    }
}

pub open spec fn max2(a: int, b: int) -> int {
    if a >= b {
        a
    } else {
        b
    }
}

pub open spec fn min2(a: int, b: int) -> int {
    if a <= b {
        a
    } else {
        b
    }
}

pub open spec fn abs1(a: int) -> int {
    if a >= 0 {
        a
    } else {
        -a
    }
}

/// Largest magnitude among the three scoring parameters; a cell score can
/// grow by at most this much per matrix step.
pub open spec fn max_abs_param(p: ScoreParams) -> int {
    max2(abs1(p.match_score as int), max2(abs1(p.mismatch_score as int), abs1(p.gap_score as int)))
}

/// No intermediate score computed for this pair can leave `i32`.
pub open spec fn pair_fits(q: Seq<u32>, c: Seq<u32>, p: ScoreParams) -> bool {
    q.len() > 0 && c.len() > 0 ==> (q.len() + c.len()) * max_abs_param(p) <= i32::MAX as int
}

/// Score contribution of pairing `q[i-1]` with `c[j-1]`.
pub open spec fn pair_score(q: Seq<u32>, c: Seq<u32>, p: ScoreParams, i: int, j: int) -> int {
    if q[i - 1] == c[j - 1] {
        p.match_score as int
    } else {
        p.mismatch_score as int
    }
}

/// Score of matrix cell (i, j): the local-alignment recurrence with a floor
/// at zero. Row 0 and column 0 are the zero boundary.
pub open spec fn cell_score(q: Seq<u32>, c: Seq<u32>, p: ScoreParams, i: int, j: int) -> int
    decreases i + j,
{
    if i <= 0 || j <= 0 {
        0
    } else {
        let diag = cell_score(q, c, p, i - 1, j - 1) + pair_score(q, c, p, i, j);
        let up = cell_score(q, c, p, i - 1, j) + p.gap_score as int;
        let left = cell_score(q, c, p, i, j - 1) + p.gap_score as int;
        max2(0, max2(diag, max2(up, left)))
    }
}

/// Direction tag of cell (i, j): 0 NONE, 1 DIAG, 2 UP, 3 LEFT. On a tie the
/// fixed priority is DIAG over UP over LEFT; LEFT is reached by exclusion.
pub open spec fn cell_dir(q: Seq<u32>, c: Seq<u32>, p: ScoreParams, i: int, j: int) -> int {
    if i <= 0 || j <= 0 {
        0
    } else {
        let diag = cell_score(q, c, p, i - 1, j - 1) + pair_score(q, c, p, i, j);
        let up = cell_score(q, c, p, i - 1, j) + p.gap_score as int;
        let left = cell_score(q, c, p, i, j - 1) + p.gap_score as int;
        let best = max2(0, max2(diag, max2(up, left)));
        if best <= 0 {
            0
        } else if best == diag {
            1
        } else if best == up {
            2
        } else {
            3
        }
    }
}

/// Traceback from cell (i, j) stops at the matrix boundary, at a NONE cell,
/// or at a zero-score cell.
pub open spec fn tb_stop(q: Seq<u32>, c: Seq<u32>, p: ScoreParams, i: int, j: int) -> bool {
    i <= 0 || j <= 0 || cell_dir(q, c, p, i, j) == 0 || cell_score(q, c, p, i, j) <= 0
}

/// Traceback from cell (i, j): walks backpointers and yields
/// (query_start, token_start, match count).
pub open spec fn tb(q: Seq<u32>, c: Seq<u32>, p: ScoreParams, i: int, j: int) -> (int, int, int)
    decreases i + j,
{
    if tb_stop(q, c, p, i, j) {
        (i, j, 0)
    } else if cell_dir(q, c, p, i, j) == 1 {
        let r = tb(q, c, p, i - 1, j - 1);
        (r.0, r.1, r.2 + if q[i - 1] == c[j - 1] { 1int } else { 0int })
    } else if cell_dir(q, c, p, i, j) == 2 {
        tb(q, c, p, i - 1, j)
    } else {
        tb(q, c, p, i, j - 1)
    }
}

/// Candidate-sequence indices of the matched positions met on the traceback
/// from cell (i, j), in ascending order.
pub open spec fn tb_positions(q: Seq<u32>, c: Seq<u32>, p: ScoreParams, i: int, j: int) -> Seq<int>
    decreases i + j,
{
    if tb_stop(q, c, p, i, j) {
        Seq::empty()
    } else if cell_dir(q, c, p, i, j) == 1 {
        if q[i - 1] == c[j - 1] {
            tb_positions(q, c, p, i - 1, j - 1).push(j - 1)
        } else {
            tb_positions(q, c, p, i - 1, j - 1)
        }
    } else if cell_dir(q, c, p, i, j) == 2 {
        tb_positions(q, c, p, i - 1, j)
    } else {
        tb_positions(q, c, p, i, j - 1)
    }
}

/// Greatest cell score in row i among columns 1..=j.
pub open spec fn row_max(q: Seq<u32>, c: Seq<u32>, p: ScoreParams, i: int, j: int) -> int
    decreases j,
{
    if j <= 0 {
        0
    } else {
        max2(row_max(q, c, p, i, j - 1), cell_score(q, c, p, i, j))
    }
}

/// Greatest cell score in rows 1..=i (all columns), floored at zero.
pub open spec fn grid_max_upto(q: Seq<u32>, c: Seq<u32>, p: ScoreParams, i: int) -> int
    decreases i,
{
    if i <= 0 {
        0
    } else {
        max2(grid_max_upto(q, c, p, i - 1), row_max(q, c, p, i, c.len() as int))
    }
}

/// Greatest score anywhere in the matrix (zero when the matrix is empty or
/// all cells are zero).
pub open spec fn grid_max(q: Seq<u32>, c: Seq<u32>, p: ScoreParams) -> int {
    grid_max_upto(q, c, p, q.len() as int)
}

/// Cells of row i among columns 1..=j whose score equals `target`, in
/// ascending column order.
pub open spec fn row_cells(q: Seq<u32>, c: Seq<u32>, p: ScoreParams, target: int, i: int, j: int) -> Seq<(int, int)>
    decreases j,
{
    if j <= 0 {
        Seq::empty()
    } else {
        let rest = row_cells(q, c, p, target, i, j - 1);
        if cell_score(q, c, p, i, j) == target {
            rest.push((i, j))
        } else {
            rest
        }
    }
}

/// Cells of rows 1..=i whose score equals `target`, in row-major order.
pub open spec fn grid_cells_upto(q: Seq<u32>, c: Seq<u32>, p: ScoreParams, target: int, i: int) -> Seq<(int, int)>
    decreases i,
{
    if i <= 0 {
        Seq::empty()
    } else {
        grid_cells_upto(q, c, p, target, i - 1) + row_cells(q, c, p, target, i, c.len() as int)
    }
}

/// All cells attaining the global maximum score, in row-major order.
pub open spec fn max_cells(q: Seq<u32>, c: Seq<u32>, p: ScoreParams) -> Seq<(int, int)> {
    grid_cells_upto(q, c, p, grid_max(q, c, p), q.len() as int)
}

/// The alignment recovered by tracing back from cell (i, j).
pub open spec fn alignment_at(q: Seq<u32>, c: Seq<u32>, p: ScoreParams, i: int, j: int) -> AlignmentModel {
    let t = tb(q, c, p, i, j);
    AlignmentModel {
        score: cell_score(q, c, p, i, j),
        query_start: t.0,
        query_end: i,
        token_start: t.1,
        token_end: j,
        matches: t.2,
    }
}

/// Strictly-better order on pairwise alignments: higher score, then smaller
/// token start, then longer token span, then smaller query start, then
/// smaller token end, then smaller query end.
pub open spec fn alignment_lt(a: AlignmentModel, b: AlignmentModel) -> bool {
    if a.score != b.score {
        a.score > b.score
    } else if a.token_start != b.token_start {
        a.token_start < b.token_start
    } else if a.token_end - a.token_start != b.token_end - b.token_start {
        a.token_end - a.token_start > b.token_end - b.token_start
    } else if a.query_start != b.query_start {
        a.query_start < b.query_start
    } else if a.token_end != b.token_end {
        a.token_end < b.token_end
    } else {
        a.query_end < b.query_end
    }
}

/// Strictly-better order on batch candidates: as `alignment_lt`, with the
/// candidate index as tie-break between query start and token end.
pub open spec fn candidate_lt(a: CandidateModel, b: CandidateModel) -> bool {
    if a.score != b.score {
        a.score > b.score
    } else if a.token_start != b.token_start {
        a.token_start < b.token_start
    } else if a.token_end - a.token_start != b.token_end - b.token_start {
        a.token_end - a.token_start > b.token_end - b.token_start
    } else if a.query_start != b.query_start {
        a.query_start < b.query_start
    } else if a.index != b.index {
        a.index < b.index
    } else if a.token_end != b.token_end {
        a.token_end < b.token_end
    } else {
        a.query_end < b.query_end
    }
}

/// Left-to-right scan over tied maximal cells, keeping the cell whose traced
/// alignment is strictly better than the best seen so far.
pub open spec fn scan_best_cell(q: Seq<u32>, c: Seq<u32>, p: ScoreParams, cells: Seq<(int, int)>, acc: (int, int)) -> (int, int)
    decreases cells.len(),
{
    if cells.len() == 0 {
        acc
    } else {
        let cand = alignment_at(q, c, p, cells[0].0, cells[0].1);
        let best = alignment_at(q, c, p, acc.0, acc.1);
        let next = if alignment_lt(cand, best) {
            cells[0]
        } else {
            acc
        };
        scan_best_cell(q, c, p, cells.drop_first(), next)
    }
}

/// The cell whose traceback wins the tie-break among all maximal cells.
/// Meaningful only when `grid_max > 0` (then `max_cells` is non-empty).
pub open spec fn best_cell(q: Seq<u32>, c: Seq<u32>, p: ScoreParams) -> (int, int) {
    let cells = max_cells(q, c, p);
    scan_best_cell(q, c, p, cells.drop_first(), cells[0])
}

/// The degenerate alignment returned for empty inputs or an all-zero matrix.
pub open spec fn zero_alignment() -> AlignmentModel {
    AlignmentModel { score: 0, query_start: 0, query_end: 0, token_start: 0, token_end: 0, matches: 0 }
}

/// The one best local alignment of `q` against `c`: the tie-break winner
/// among all cells attaining the maximal score.
pub open spec fn spec_align(q: Seq<u32>, c: Seq<u32>, p: ScoreParams) -> AlignmentModel {
    if q.len() == 0 || c.len() == 0 || grid_max(q, c, p) == 0 {
        zero_alignment()
    } else {
        let cell = best_cell(q, c, p);
        alignment_at(q, c, p, cell.0, cell.1)
    }
}

/// The match blocks accompanying the best alignment: maximal runs of
/// consecutive matched candidate positions, as half-open ranges.
pub open spec fn spec_align_blocks(q: Seq<u32>, c: Seq<u32>, p: ScoreParams) -> Seq<(int, int)> {
    if q.len() == 0 || c.len() == 0 || grid_max(q, c, p) == 0 {
        Seq::empty()
    } else {
        let cell = best_cell(q, c, p);
        blocks_of(tb_positions(q, c, p, cell.0, cell.1))
    }
}

/// Merge the ascending match positions `ps` into half-open blocks, given an
/// open block that currently spans `[start, prev]`.
pub open spec fn blocks_from(ps: Seq<int>, start: int, prev: int) -> Seq<(int, int)>
    decreases ps.len(),
{
    if ps.len() == 0 {
        seq![(start, prev + 1)]
    } else if ps[0] == prev + 1 {
        blocks_from(ps.drop_first(), start, ps[0])
    } else {
        seq![(start, prev + 1)] + blocks_from(ps.drop_first(), ps[0], ps[0])
    }
}

/// Merge an ascending list of matched positions into match blocks.
pub open spec fn blocks_of(ps: Seq<int>) -> Seq<(int, int)> {
    if ps.len() == 0 {
        Seq::empty()
    } else {
        blocks_from(ps.drop_first(), ps[0], ps[0])
    }
}

/// Combined length of a list of half-open blocks.
pub open spec fn blocks_total(bs: Seq<(int, int)>) -> int
    decreases bs.len(),
{
    if bs.len() == 0 {
        0
    } else {
        (bs[0].1 - bs[0].0) + blocks_total(bs.drop_first())
    }
}

/// What every alignment result satisfies: non-negative score, ordered
/// in-range offsets, and a match count no larger than either span.
pub open spec fn valid_alignment(q: Seq<u32>, c: Seq<u32>, a: AlignmentModel) -> bool {
    &&& a.score >= 0
    &&& 0 <= a.query_start <= a.query_end <= q.len()
    &&& 0 <= a.token_start <= a.token_end <= c.len()
    &&& 0 <= a.matches
    &&& a.matches <= a.query_end - a.query_start
    &&& a.matches <= a.token_end - a.token_start
}

/// What a block list must satisfy relative to the alignment it accompanies:
/// each block non-empty and inside `[lo, hi)`, blocks ascending with a gap
/// between successive blocks, and their combined length equal to `total`.
pub open spec fn valid_blocks(bs: Seq<(int, int)>, lo: int, hi: int, total: int) -> bool {
    &&& forall|k: int| 0 <= k < bs.len() ==> lo <= (#[trigger] bs[k]).0 < bs[k].1 <= hi
    &&& forall|k: int| 0 <= k < bs.len() - 1 ==> (#[trigger] bs[k]).1 < bs[k + 1].0
    &&& blocks_total(bs) == total
}

/// A sequence of integers in strictly ascending order.
pub open spec fn strictly_ascending(ps: Seq<int>) -> bool {
    forall|a: int, b: int| 0 <= a < b < ps.len() ==> ps[a] < ps[b]
}

/// The views of a vector of u32 candidate sequences.
pub open spec fn seqs_view(ss: Seq<Vec<u32>>) -> Seq<Seq<u32>> {
    ss.map_values(|v: Vec<u32>| v@)
}

/// The ghost images of a vector of batch candidates.
pub open spec fn cand_views(s: Seq<CandidateAlignment>) -> Seq<CandidateModel> {
    s.map_values(|x: CandidateAlignment| x@)
}

/// Every candidate sequence of the batch fits the score width and the
/// matrix dimensions fit in `usize`.
pub open spec fn batch_ok(q: Seq<u32>, seqs: Seq<Vec<u32>>, p: ScoreParams) -> bool {
    forall|i: int|
        0 <= i < seqs.len() ==> dims_fit(q, (#[trigger] seqs[i])@) && pair_fits(q, seqs[i]@, p)
}

/// The best alignment of `q` against candidate `c`, tagged with `idx`.
pub open spec fn candidate_of(q: Seq<u32>, c: Seq<u32>, p: ScoreParams, idx: int) -> CandidateModel {
    let a = spec_align(q, c, p);
    CandidateModel {
        score: a.score,
        index: idx,
        query_start: a.query_start,
        query_end: a.query_end,
        token_start: a.token_start,
        token_end: a.token_end,
        matches: a.matches,
    }
}

/// One tagged best alignment per candidate, in input order.
pub open spec fn candidates_of(q: Seq<u32>, ss: Seq<Seq<u32>>, p: ScoreParams) -> Seq<CandidateModel> {
    Seq::new(ss.len(), |i: int| candidate_of(q, ss[i], p, i))
}

/// Insert `x` into `s` after every element not strictly worse than `x`.
pub open spec fn insert_ranked(s: Seq<CandidateModel>, x: CandidateModel) -> Seq<CandidateModel>
    decreases s.len(),
{
    if s.len() == 0 {
        seq![x]
    } else if candidate_lt(x, s[0]) {
        seq![x] + s
    } else {
        seq![s[0]] + insert_ranked(s.drop_first(), x)
    }
}

/// Stable insertion sort of batch candidates by the tie-break order.
pub open spec fn rank_sorted(s: Seq<CandidateModel>) -> Seq<CandidateModel>
    decreases s.len(),
{
    if s.len() == 0 {
        Seq::empty()
    } else {
        insert_ranked(rank_sorted(s.drop_last()), s.last())
    }
}

/// Entry (a, b) of a row-major matrix held as a vector of rows of `i32`.
pub open spec fn mat_i32(ss: Seq<Vec<i32>>, a: int, b: int) -> int {
    ss[a]@[b] as int
}

/// Entry (a, b) of a row-major matrix held as a vector of rows of `u8`.
pub open spec fn mat_u8(ds: Seq<Vec<u8>>, a: int, b: int) -> int {
    ds[a]@[b] as int
}

/// The score matrix rows hold exactly the cell scores of the model.
pub open spec fn scores_ok(q: Seq<u32>, c: Seq<u32>, p: ScoreParams, ss: Seq<Vec<i32>>) -> bool {
    &&& ss.len() == q.len() + 1
    &&& forall|a: int| 0 <= a < ss.len() ==> (#[trigger] ss[a])@.len() == c.len() + 1
    &&& forall|a: int, b: int|
        0 <= a <= q.len() && 0 <= b <= c.len() ==> #[trigger] mat_i32(ss, a, b) == cell_score(
            q,
            c,
            p,
            a,
            b,
        )
}

/// The direction matrix rows hold exactly the direction tags of the model.
pub open spec fn dirs_ok(q: Seq<u32>, c: Seq<u32>, p: ScoreParams, ds: Seq<Vec<u8>>) -> bool {
    &&& ds.len() == q.len() + 1
    &&& forall|a: int| 0 <= a < ds.len() ==> (#[trigger] ds[a])@.len() == c.len() + 1
    &&& forall|a: int, b: int|
        0 <= a <= q.len() && 0 <= b <= c.len() ==> #[trigger] mat_u8(ds, a, b) == cell_dir(
            q,
            c,
            p,
            a,
            b,
        )
}

/// The matrix dimensions (each input length plus the zero boundary) fit in
/// `usize`.
pub open spec fn dims_fit(q: Seq<u32>, c: Seq<u32>) -> bool {
    q.len() + 1 <= usize::MAX && c.len() + 1 <= usize::MAX
}

/// An executable cell list mirrors a ghost cell list element for element.
pub open spec fn cells_match(v: Seq<(usize, usize)>, s: Seq<(int, int)>) -> bool {
    &&& v.len() == s.len()
    &&& forall|k: int|
        0 <= k < v.len() ==> ((#[trigger] v[k]).0 as int, v[k].1 as int) == s[k]
}

/// The ghost image of an executable match-position list.
pub open spec fn pos_ints(v: Seq<usize>) -> Seq<int> {
    v.map_values(|x: usize| x as int)
}

/// The ghost image of an executable block list.
pub open spec fn blocks_ints(v: Seq<(usize, usize)>) -> Seq<(int, int)> {
    v.map_values(|t: (usize, usize)| (t.0 as int, t.1 as int))
}

/// The batch result: every candidate aligned and tagged, ranked by the
/// tie-break order, truncated to the first `k`; empty when `k == 0` or
/// there are no candidates.
pub open spec fn spec_topk(q: Seq<u32>, ss: Seq<Seq<u32>>, p: ScoreParams, k: int) -> Seq<CandidateModel> {
    if k <= 0 || ss.len() == 0 {
        Seq::empty()
    } else {
        let ranked = rank_sorted(candidates_of(q, ss, p));
        ranked.take(min2(k, ranked.len() as int))
    }
}

} // verus!
