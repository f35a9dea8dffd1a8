//! The settled playing field: a `width * height` grid of cells stored
//! row-major, with full-row detection and row clearing.
//!
//! The model of a board is its sequence of rows, each row a sequence of
//! cells. Clearing settles the board: every full row disappears, the rows
//! above it slide down, and fresh empty rows enter at the top, so that the
//! final board is `settled(rows)` — as many empty rows as there were full
//! ones, followed by the non-full rows in their old order.

use vstd::prelude::*;

use crate::piece::Color;

verus! {

/// A row is full when every one of its cells is occupied.
pub open spec fn is_full(r: Seq<Option<Color>>) -> bool {
    forall|x: int| 0 <= x < r.len() ==> (#[trigger] r[x]) is Some
}

/// A row of `w` empty cells.
pub open spec fn empty_row(w: nat) -> Seq<Option<Color>> {
    Seq::new(w, |x: int| None::<Color>)
}

/// `n` empty rows of width `w`.
pub open spec fn empty_rows(n: nat, w: nat) -> Seq<Seq<Option<Color>>> {
    Seq::new(n, |i: int| empty_row(w))
}

/// The rows of `rs` that are not full, in order.
pub open spec fn non_full_rows(rs: Seq<Seq<Option<Color>>>) -> Seq<Seq<Option<Color>>> {
    rs.filter(|r: Seq<Option<Color>>| !is_full(r))
}

/// How many rows of `rs` are full.
pub open spec fn full_count(rs: Seq<Seq<Option<Color>>>) -> int {
    rs.len() - non_full_rows(rs).len()
}

/// The rows after every full row has been cleared: one fresh empty row per
/// cleared row on top, then the non-full rows in their old order.
pub open spec fn settled(rs: Seq<Seq<Option<Color>>>, w: nat) -> Seq<Seq<Option<Color>>> {
    empty_rows(full_count(rs) as nat, w) + non_full_rows(rs)
}

/// A cell of row `y`, column `x` lies at flat index `y * w + x`, inside a
/// grid of `w * h` cells.
pub proof fn lemma_grid_size(w: int, h: int, y: int, x: int)
    requires
        1 <= w,
        0 <= x < w,
        0 <= y < h,
    ensures
        0 <= y * w + x < w * h,
{
    assert(0 <= y * w + x && y * w + x < w * h) by (nonlinear_arith)
        requires
            1 <= w,
            0 <= x < w,
            0 <= y < h,
    ;
}

/// A flat index taken in row `y` with `lo <= y < hi` lies in the flat range
/// of those rows, at row-local offset `(y - lo) * w + x` within it.
pub proof fn lemma_index_in_row_range(w: int, y: int, x: int, lo: int, hi: int)
    requires
        1 <= w,
        lo <= y < hi,
        0 <= x < w,
    ensures
        lo * w <= y * w + x < hi * w,
        (y * w + x) - lo * w == (y - lo) * w + x,
{
    assert(lo * w <= y * w + x && y * w + x < hi * w && (y * w + x) - lo * w == (y - lo) * w + x)
        by (nonlinear_arith)
        requires
            1 <= w,
            lo <= y < hi,
            0 <= x < w,
    ;
}

/// Filtering keeps a sequence of rows unchanged when none of them is full.
pub proof fn lemma_no_full_filter_identity(rs: Seq<Seq<Option<Color>>>)
    requires
        forall|i: int| 0 <= i < rs.len() ==> !is_full(#[trigger] rs[i]),
    ensures
        non_full_rows(rs) == rs,
    decreases rs.len(),
{
    reveal(Seq::filter);
    if rs.len() == 0 {
        assert(non_full_rows(rs) =~= rs);
    } else {
        lemma_no_full_filter_identity(rs.drop_last());
        assert(non_full_rows(rs) =~= rs);
    }
}

/// Filtering drops a sequence of rows entirely when all of them are full.
pub proof fn lemma_all_full_filter_empty(rs: Seq<Seq<Option<Color>>>)
    requires
        forall|i: int| 0 <= i < rs.len() ==> is_full(#[trigger] rs[i]),
    ensures
        non_full_rows(rs) == Seq::<Seq<Option<Color>>>::empty(),
    decreases rs.len(),
{
    reveal(Seq::filter);
    if rs.len() == 0 {
        assert(non_full_rows(rs) =~= Seq::<Seq<Option<Color>>>::empty());
    } else {
        lemma_all_full_filter_empty(rs.drop_last());
        assert(non_full_rows(rs) =~= Seq::<Seq<Option<Color>>>::empty());
    }
}

/// An empty row of positive width is not full.
pub proof fn lemma_empty_row_not_full(w: nat)
    requires
        1 <= w,
    ensures
        !is_full(empty_row(w)),
{
    assert(empty_row(w)[0] is None);
}

/// Rows that hold no full row are already settled.
pub proof fn lemma_settled_of_clean(rs: Seq<Seq<Option<Color>>>, w: nat)
    requires
        forall|i: int| 0 <= i < rs.len() ==> !is_full(#[trigger] rs[i]),
    ensures
        settled(rs, w) == rs,
{
    lemma_no_full_filter_identity(rs);
    assert(settled(rs, w) =~= rs);
}

/// One clearing pass leaves the settled form unchanged and clears exactly
/// `count` full rows: when the rows split into a non-full prefix, a full run
/// of `count` rows from `start`, and an arbitrary rest, replacing the run by
/// fresh empty rows on top settles to the same board.
pub proof fn lemma_pass_preserves_settled(
    rs: Seq<Seq<Option<Color>>>,
    w: nat,
    count: int,
    start: int,
)
    requires
        1 <= w,
        1 <= count,
        0 <= start,
        start + count <= rs.len(),
        forall|y: int| 0 <= y < start ==> !is_full(#[trigger] rs[y]),
        forall|y: int| start <= y < start + count ==> is_full(#[trigger] rs[y]),
    ensures
        settled(
            empty_rows(count as nat, w) + rs.subrange(0, start) + rs.subrange(
                start + count,
                rs.len() as int,
            ),
            w,
        ) == settled(rs, w),
        full_count(
            empty_rows(count as nat, w) + rs.subrange(0, start) + rs.subrange(
                start + count,
                rs.len() as int,
            ),
        ) == full_count(rs) - count,
{
    let pred = |r: Seq<Option<Color>>| !is_full(r);
    let a = rs.subrange(0, start);
    let f = rs.subrange(start, start + count);
    let b = rs.subrange(start + count, rs.len() as int);
    let e = empty_rows(count as nat, w);
    assert(rs =~= (a + f) + b);

    lemma_no_full_filter_identity(a);
    lemma_all_full_filter_empty(f);
    assert forall|i: int| 0 <= i < e.len() implies !is_full(#[trigger] e[i]) by {
        lemma_empty_row_not_full(w);
    }
    lemma_no_full_filter_identity(e);

    // The rows as found: non-full prefix, full run, rest.
    Seq::filter_distributes_over_add(a + f, b, pred);
    Seq::filter_distributes_over_add(a, f, pred);
    assert(non_full_rows(rs) == (a + Seq::<Seq<Option<Color>>>::empty()) + non_full_rows(b));
    assert((a + Seq::<Seq<Option<Color>>>::empty()) + non_full_rows(b) =~= a + non_full_rows(b));

    // The rows after the pass: empty rows, non-full prefix, rest.
    let passed = (e + a) + b;
    Seq::filter_distributes_over_add(e + a, b, pred);
    Seq::filter_distributes_over_add(e, a, pred);
    assert(non_full_rows(passed) == (e + a) + non_full_rows(b));

    b.lemma_filter_len(pred);
    let k_b = b.len() - non_full_rows(b).len();
    assert(full_count(rs) == count + k_b);
    assert(full_count(passed) == k_b);

    assert(settled(rs, w) == empty_rows((count + k_b) as nat, w) + (a + non_full_rows(b)));
    assert(settled(passed, w) == empty_rows(k_b as nat, w) + ((e + a) + non_full_rows(b)));
    assert(empty_rows(k_b as nat, w) + ((e + a) + non_full_rows(b)) =~= empty_rows(
        (count + k_b) as nat,
        w,
    ) + (a + non_full_rows(b)));
}

/// The run that [`Board::check_lines`] reports is pinned down whenever the
/// full rows form one contiguous block: on rows whose full rows are exactly
/// `r, r + 1, ..., r + k - 1`, any run satisfying its contract — a first
/// full row `start`, `count` full rows from it, and no room to grow — is
/// the block itself, `count == k` starting at `start == r`. With `k == 1`
/// a single full row `r` is reported as `(1, r)`; with `k == 2` two
/// adjacent full rows are reported as `(2, r)`.
pub proof fn lemma_run_identifies_full_rows(
    rs: Seq<Seq<Option<Color>>>,
    count: int,
    start: int,
    r: int,
    k: int,
)
    requires
        1 <= count,
        0 <= start,
        start + count <= rs.len(),
        forall|y: int| 0 <= y < start ==> !is_full(#[trigger] rs[y]),
        forall|y: int| start <= y < start + count ==> is_full(#[trigger] rs[y]),
        start + count < rs.len() ==> !is_full(rs[start + count]),
        1 <= k,
        0 <= r,
        r + k <= rs.len(),
        forall|y: int| 0 <= y < rs.len() ==> (is_full(#[trigger] rs[y]) <==> r <= y < r + k),
    ensures
        start == r,
        count == k,
{
    assert(is_full(rs[start]));
    assert(is_full(rs[r]));
    assert(start == r);
    assert(is_full(rs[start + count - 1]));
    assert(start + count <= r + k);
    if count < k {
        assert(is_full(rs[start + count]));
        assert(false);
    }
}

/// Clearing rows whose only full row is `r` drops that row, slides the `r`
/// rows above it down by one, and leaves a fresh empty row at the top; the
/// rows below `r` stay where they were.
#[verifier::rlimit(50)]
pub proof fn lemma_settled_single_full_row(rs: Seq<Seq<Option<Color>>>, w: nat, r: int)
    requires
        1 <= w,
        0 <= r < rs.len(),
        is_full(rs[r]),
        forall|i: int| 0 <= i < rs.len() && i != r ==> !is_full(#[trigger] rs[i]),
    ensures
        settled(rs, w) == seq![empty_row(w)] + rs.subrange(0, r) + rs.subrange(
            r + 1,
            rs.len() as int,
        ),
{
    lemma_pass_preserves_settled(rs, w, 1, r);
    let passed = empty_rows(1, w) + rs.subrange(0, r) + rs.subrange(r + 1, rs.len() as int);
    assert forall|i: int| 0 <= i < passed.len() implies !is_full(#[trigger] passed[i]) by {
        if i == 0 {
            lemma_empty_row_not_full(w);
            assert(passed[0] == empty_row(w));
        } else if i < 1 + r {
            assert(passed[i] == rs[i - 1]);
        } else {
            assert(passed[i] == rs[i]);
        }
    }
    lemma_settled_of_clean(passed, w);
    assert(empty_rows(1, w) =~= seq![empty_row(w)]);
}

/// The settled playing field. Cells are stored row-major: the cell of
/// column `x` in row `y` sits at flat index `y * width + x`. Row 0 is the
/// top of the board.
pub struct Board {
    pub grid: Vec<Option<Color>>,
    pub width: usize,
    pub height: usize,
}

impl Board {
    /// The grid holds exactly `width * height` cells and is at least one
    /// cell wide.
    pub open spec fn wf(self) -> bool {
        &&& 1 <= self.width
        &&& self.grid@.len() == self.width * self.height
    }

    /// Row `y` of the board, as a sequence of `width` cells.
    pub open spec fn row_seq(self, y: int) -> Seq<Option<Color>> {
        Seq::new(self.width as nat, |x: int| self.grid@[y * self.width + x])
    }

    /// The board as a sequence of rows, top to bottom.
    pub open spec fn rows(self) -> Seq<Seq<Option<Color>>> {
        Seq::new(self.height as nat, |y: int| self.row_seq(y))
    }

    /// The grid fits in memory, so a cell's flat index fits a `usize`.
    pub proof fn lemma_len_bound(self)
        requires
            self.wf(),
        ensures
            self.width * self.height <= usize::MAX,
    {
        assert(self.grid.len() == self.grid@.len());
    }

    /// A fresh, fully empty board of the given size.
    pub fn new(width: usize, height: usize) -> (b: Board)
        requires
            1 <= width,
            width * height <= usize::MAX,
        ensures
            b.wf(),
            b.width == width,
            b.height == height,
            b.rows() == empty_rows(height as nat, width as nat),
    {
        let n = width * height;
        let mut grid: Vec<Option<Color>> = Vec::new();
        let mut i: usize = 0;
        while i < n
            invariant
                i <= n,
                grid@.len() == i,
                forall|k: int| 0 <= k < i ==> (#[trigger] grid@[k]) is None,
            decreases n - i,
        {
            grid.push(None);
            i += 1;
        }
        let b = Board { grid, width, height };
        proof {
            assert forall|y: int| 0 <= y < height implies #[trigger] b.rows()[y] == empty_row(
                width as nat,
            ) by {
                assert forall|x: int| 0 <= x < width implies #[trigger] b.row_seq(y)[x] is None by {
                    lemma_grid_size(width as int, height as int, y, x);
                }
                assert(b.row_seq(y) =~= empty_row(width as nat));
            }
            assert(b.rows() =~= empty_rows(height as nat, width as nat));
        }
        b
    }

    /// The cell of column `x` in row `y`.
    pub fn cell(&self, x: usize, y: usize) -> (c: Option<Color>)
        requires
            self.wf(),
            x < self.width,
            y < self.height,
        ensures
            c == self.rows()[y as int][x as int],
    {
        proof {
            self.lemma_len_bound();
            lemma_grid_size(self.width as int, self.height as int, y as int, x as int);
        }
        self.grid[y * self.width + x]
    }

    /// Sets the cell of column `x` in row `y`, leaving every other cell as
    /// it was.
    pub fn set_cell(&mut self, x: usize, y: usize, c: Option<Color>)
        requires
            old(self).wf(),
            x < old(self).width,
            y < old(self).height,
        ensures
            final(self).wf(),
            final(self).width == old(self).width,
            final(self).height == old(self).height,
            final(self).rows() == old(self).rows().update(
                y as int,
                old(self).rows()[y as int].update(x as int, c),
            ),
    {
        proof {
            self.lemma_len_bound();
            lemma_grid_size(self.width as int, self.height as int, y as int, x as int);
        }
        let i = y * self.width + x;
        self.grid.set(i, c);
        proof {
            let w = self.width as int;
            let h = self.height as int;
            let target = old(self).rows().update(
                y as int,
                old(self).rows()[y as int].update(x as int, c),
            );
            assert forall|yy: int| 0 <= yy < h implies #[trigger] self.rows()[yy] == target[yy] by {
                assert forall|xx: int| 0 <= xx < w implies #[trigger] self.row_seq(yy)[xx]
                    == target[yy][xx] by {
                    lemma_grid_size(w, h, yy, xx);
                    if yy * w + xx != y as int * w + x as int {
                        assert(self.grid@[yy * w + xx] == old(self).grid@[yy * w + xx]);
                    } else {
                        lemma_flat_index_injective(w, yy, xx, y as int, x as int);
                    }
                }
                assert(self.row_seq(yy) =~= target[yy]);
            }
            assert(self.rows() =~= target);
        }
    }

    /// Whether row `y` is full.
    fn row_full(&self, y: usize) -> (b: bool)
        requires
            self.wf(),
            y < self.height,
        ensures
            b == is_full(self.rows()[y as int]),
    {
        let w = self.width;
        let mut x: usize = 0;
        proof {
            self.lemma_len_bound();
            lemma_grid_size(w as int, self.height as int, y as int, 0);
        }
        let base = y * w;
        while x < w
            invariant
                self.wf(),
                y < self.height,
                w == self.width,
                base == y * w,
                x <= w,
                forall|xx: int| 0 <= xx < x ==> (#[trigger] self.row_seq(y as int)[xx]) is Some,
            decreases w - x,
        {
            proof {
                self.lemma_len_bound();
                lemma_grid_size(w as int, self.height as int, y as int, x as int);
            }
            if self.grid[base + x].is_none() {
                assert(self.row_seq(y as int)[x as int] is None);
                assert(self.rows()[y as int] == self.row_seq(y as int));
                return false;
            }
            x += 1;
        }
        assert(self.rows()[y as int] =~= self.row_seq(y as int));
        true
    }

    /// Scans the rows from the top and reports the first run of full rows:
    /// `None` when no row is full anywhere, otherwise `Some((count, start))`
    /// where `start` is the first full row, the `count` rows from `start`
    /// are all full, and the run can grow no further in either direction.
    /// Full rows below a later gap are not reported by this call.
    pub fn check_lines(&self) -> (r: Option<(usize, usize)>)
        requires
            self.wf(),
        ensures
            (r is None) <==> (forall|y: int|
                0 <= y < self.height ==> !is_full(#[trigger] self.rows()[y])),
            r matches Some(p) ==> {
                &&& 1 <= p.0
                &&& p.1 + p.0 <= self.height
                &&& forall|y: int| 0 <= y < p.1 ==> !is_full(#[trigger] self.rows()[y])
                &&& forall|y: int| p.1 <= y < p.1 + p.0 ==> is_full(#[trigger] self.rows()[y])
                &&& p.1 + p.0 < self.height ==> !is_full(self.rows()[p.1 + p.0])
            },
    {
        let mut tetris_count: usize = 0;
        let mut y: usize = 0;
        while y < self.height
            invariant
                self.wf(),
                tetris_count <= y,
                y <= self.height,
                forall|yy: int|
                    0 <= yy < y - tetris_count ==> !is_full(#[trigger] self.rows()[yy]),
                forall|yy: int|
                    y - tetris_count <= yy < y ==> is_full(#[trigger] self.rows()[yy]),
            decreases self.height - y,
        {
            let full = self.row_full(y);
            if full {
                tetris_count += 1;
            } else if tetris_count > 0 {
                assert(is_full(self.rows()[y - tetris_count]));
                return Some((tetris_count, y - tetris_count));
            }
            y += 1;
        }
        if tetris_count > 0 {
            assert(is_full(self.rows()[self.height - tetris_count]));
            Some((tetris_count, self.height - tetris_count))
        } else {
            None
        }
    }

    /// A prefix of `p` whole rows takes up the first `p * width` cells.
    proof fn lemma_prefix_len(self, p: int)
        requires
            self.wf(),
            0 <= p <= self.height,
        ensures
            0 <= p * self.width <= self.grid@.len(),
    {
        assert(0 <= p * self.width <= self.width * self.height) by (nonlinear_arith)
            requires
                0 <= p <= self.height,
                1 <= self.width,
        ;
    }

    /// Replaces the `count` rows from row `start` by fresh empty rows at
    /// the top of the board: the run disappears, every row above it slides
    /// down by `count` rows, and the rows below it stay where they are.
    fn clear_run(&mut self, count: usize, start: usize)
        requires
            old(self).wf(),
            1 <= count,
            start + count <= old(self).height,
        ensures
            final(self).wf(),
            final(self).width == old(self).width,
            final(self).height == old(self).height,
            final(self).rows() == empty_rows(count as nat, old(self).width as nat) + old(
                self,
            ).rows().subrange(0, start as int) + old(self).rows().subrange(
                start as int + count as int,
                old(self).height as int,
            ),
    {
        let w = self.width;
        let h = self.height;
        let end = start + count;
        proof {
            self.lemma_len_bound();
            self.lemma_prefix_len(count as int);
            self.lemma_prefix_len(start as int);
            self.lemma_prefix_len(end as int);
            assert(count as int * w as int + start as int * w as int == end as int * w as int)
                by (nonlinear_arith)
                requires
                    end == start + count,
            ;
        }
        let n1 = count * w;
        let n2 = start * w;
        let n3 = end * w;
        let total = self.grid.len();
        let mut ng: Vec<Option<Color>> = Vec::new();
        let mut i: usize = 0;
        while i < n1
            invariant
                i <= n1,
                ng@.len() == i,
                forall|k: int| 0 <= k < i ==> (#[trigger] ng@[k]) is None,
            decreases n1 - i,
        {
            ng.push(None);
            i += 1;
        }
        let mut j: usize = 0;
        while j < n2
            invariant
                *self == *old(self),
                self.wf(),
                n2 <= self.grid@.len(),
                j <= n2,
                ng@.len() == n1 + j,
                forall|k: int| 0 <= k < n1 ==> (#[trigger] ng@[k]) is None,
                forall|k: int| 0 <= k < j ==> #[trigger] ng@[n1 + k] == self.grid@[k],
            decreases n2 - j,
        {
            ng.push(self.grid[j]);
            j += 1;
        }
        let mut m: usize = n3;
        while m < total
            invariant
                *self == *old(self),
                self.wf(),
                n1 + n2 == n3,
                n3 <= m <= total,
                total == self.grid@.len(),
                ng@.len() == m,
                forall|k: int| 0 <= k < n1 ==> (#[trigger] ng@[k]) is None,
                forall|k: int| 0 <= k < n2 ==> #[trigger] ng@[n1 + k] == self.grid@[k],
                forall|k: int| n3 <= k < m ==> #[trigger] ng@[k] == self.grid@[k],
            decreases total - m,
        {
            ng.push(self.grid[m]);
            m += 1;
        }
        proof {
            let wi = w as int;
            let ci = count as int;
            let si = start as int;
            let hi = h as int;
            let target = empty_rows(count as nat, w as nat) + old(self).rows().subrange(0, si)
                + old(self).rows().subrange(si + ci, hi);
            let g0 = self.grid@;
            assert(ng@.len() == wi * hi);
            let nb = Board { grid: ng, width: w, height: h };
            assert forall|yy: int| 0 <= yy < hi implies #[trigger] nb.rows()[yy] == target[yy] by {
                assert forall|xx: int| 0 <= xx < wi implies #[trigger] nb.row_seq(yy)[xx]
                    == target[yy][xx] by {
                    let idx = yy * wi + xx;
                    if yy < ci {
                        lemma_index_in_row_range(wi, yy, xx, 0, ci);
                        assert(ng@[idx] is None);
                        assert(target[yy] == empty_row(w as nat));
                    } else if yy < ci + si {
                        lemma_index_in_row_range(wi, yy, xx, ci, ci + si);
                        assert((ci + si) * wi == n1 + n2) by (nonlinear_arith)
                            requires
                                n1 == ci * wi,
                                n2 == si * wi,
                        ;
                        assert(0 <= idx - n1 < n2);
                        assert(ng@[n1 + (idx - n1)] == g0[idx - n1]);
                        assert(ng@[idx] == g0[idx - n1]);
                        assert(idx - n1 == (yy - ci) * wi + xx);
                        lemma_grid_size(wi, hi, yy - ci, xx);
                        assert(target[yy] == old(self).row_seq(yy - ci));
                    } else {
                        lemma_index_in_row_range(wi, yy, xx, ci + si, hi);
                        assert(ng@[idx] == g0[idx]);
                        lemma_grid_size(wi, hi, yy, xx);
                        assert(target[yy] == old(self).row_seq(yy));
                    }
                }
                assert(nb.row_seq(yy) =~= target[yy]);
            }
            assert(nb.rows() =~= target);
        }
        self.grid = ng;
    }

    /// Clears every full row. Each pass takes the first run of full rows
    /// that scanning from the top finds, drops it, slides the rows above it
    /// down and puts fresh empty rows on top; passes repeat until no full
    /// row is left, so runs separated by a gap are cleared one after the
    /// other. The board ends in the settled form of the board it started
    /// in, and no row of it is full.
    pub fn delete_rows(&mut self)
        requires
            old(self).wf(),
        ensures
            final(self).wf(),
            final(self).width == old(self).width,
            final(self).height == old(self).height,
            final(self).rows() == settled(old(self).rows(), old(self).width as nat),
            forall|y: int|
                0 <= y < final(self).height ==> !is_full(#[trigger] final(self).rows()[y]),
    {
        proof {
            self.rows().lemma_filter_len(|r: Seq<Option<Color>>| !is_full(r));
        }
        loop
            invariant
                self.wf(),
                self.width == old(self).width,
                self.height == old(self).height,
                full_count(self.rows()) >= 0,
                settled(self.rows(), self.width as nat) == settled(
                    old(self).rows(),
                    old(self).width as nat,
                ),
            ensures
                self.wf(),
                self.width == old(self).width,
                self.height == old(self).height,
                settled(self.rows(), self.width as nat) == settled(
                    old(self).rows(),
                    old(self).width as nat,
                ),
                forall|y: int| 0 <= y < self.height ==> !is_full(#[trigger] self.rows()[y]),
            decreases full_count(self.rows()),
        {
            let to_be_deleted = self.check_lines();
            match to_be_deleted {
                None => {
                    break;
                },
                Some((num_r, start_r)) => {
                    let ghost rows0 = self.rows();
                    let ghost w = self.width as nat;
                    proof {
                        lemma_pass_preserves_settled(rows0, w, num_r as int, start_r as int);
                    }
                    self.clear_run(num_r, start_r);
                    proof {
                        assert(self.rows() == empty_rows(num_r as nat, w) + rows0.subrange(
                            0,
                            start_r as int,
                        ) + rows0.subrange(start_r as int + num_r as int, rows0.len() as int));
                        assert(full_count(self.rows()) == full_count(rows0) - num_r);
                        self.rows().lemma_filter_len(|r: Seq<Option<Color>>| !is_full(r));
                    }
                },
            }
        }
        proof {
            lemma_settled_of_clean(self.rows(), self.width as nat);
        }
    }
}

/// Distinct cell coordinates have distinct flat indices.
pub proof fn lemma_flat_index_injective(w: int, y1: int, x1: int, y2: int, x2: int)
    requires
        1 <= w,
        0 <= x1 < w,
        0 <= x2 < w,
        y1 * w + x1 == y2 * w + x2,
    ensures
        y1 == y2,
        x1 == x2,
{
    assert(y1 == y2 && x1 == x2) by (nonlinear_arith)
        requires
            1 <= w,
            0 <= x1 < w,
            0 <= x2 < w,
            y1 * w + x1 == y2 * w + x2,
    ;
}

} // verus!
