//! The grid of tiles and the flood fill that recolours the region around a cell.
//!
//! Cells are stored row by row: the cell at column `x` and row `y` has index
//! `y * COLUMNS + x`.
use crate::random::random_below;
use crate::tile::{color_tile, shape_tile, InputColor, InputShape, Tile};
use vstd::prelude::*;

verus! {

/// The largest column number.
pub const WIDTH: u16 = 16;

/// The largest row number.
pub const HEIGHT: u16 = 14;

/// Number of columns (`WIDTH + 1`).
pub const COLUMNS: usize = 17;

/// Number of rows (`HEIGHT + 1`).
pub const ROWS: usize = 15;

/// Number of cells.
pub const CELL_COUNT: usize = 255;

/// Index of the cell at column `x`, row `y`.
pub open spec fn cell_index(x: int, y: int) -> int {
    y * 17 + x
}

/// Cells `a` and `b` are neighbours on the grid: `b` is the cell left of, above,
/// right of, or below `a`.
pub open spec fn adjacent(a: int, b: int) -> bool {
    ||| (b == a - 1 && a % 17 != 0)
    ||| (b == a - 17 && a >= 17)
    ||| (b == a + 1 && a % 17 != 16)
    ||| (b == a + 17 && a + 17 < 255)
}

/// Two tiles agree on the compared attribute: the shape, or else the colour.
pub open spec fn key_matches(a: Tile, b: Tile, by_shape: bool) -> bool {
    if by_shape {
        a.shape == b.shape
    } else {
        a.color == b.color
    }
}

/// `p` is a walk over neighbouring cells of the grid, each of which agrees
/// with `key`.
pub open spec fn is_path(cells: Seq<Tile>, by_shape: bool, key: Tile, p: Seq<int>) -> bool {
    &&& p.len() > 0
    &&& forall|k: int|
        0 <= k < p.len() ==> 0 <= #[trigger] p[k] < cells.len() && key_matches(
            cells[p[k]],
            key,
            by_shape,
        )
    &&& forall|k: int| 0 <= k < p.len() - 1 ==> adjacent(#[trigger] p[k], p[k + 1])
}

/// Cell `i` lies in the region of `start`: a walk leads from `start` to `i`
/// through cells that agree with `start` on the compared attribute.
pub open spec fn in_region(cells: Seq<Tile>, by_shape: bool, start: int, i: int) -> bool {
    exists|p: Seq<int>|
        #[trigger] is_path(cells, by_shape, cells[start], p) && p[0] == start && p.last() == i
}

/// Every cell of the region of `start` replaced by `t`.
pub open spec fn region_fill(cells: Seq<Tile>, by_shape: bool, start: int, t: Tile) -> Seq<Tile> {
    Seq::new(cells.len(), |i: int| if in_region(cells, by_shape, start, i) { t } else { cells[i] })
}

/// The grid after recolouring from cell `start` to colour `c`: nothing
/// changes when `start` is the origin and the origin already has colour `c`.
pub open spec fn color_fill(cells: Seq<Tile>, start: int, c: InputColor) -> Seq<Tile> {
    if start == 0 && cells[0].color == c {
        cells
    } else {
        region_fill(cells, false, start, color_tile(c))
    }
}

/// The grid after reshaping from cell `start` to shape `s`: nothing changes
/// when `start` is the origin and the origin already has shape `s`.
pub open spec fn shape_fill(cells: Seq<Tile>, start: int, s: InputShape) -> Seq<Tile> {
    if start == 0 && cells[0].shape == s {
        cells
    } else {
        region_fill(cells, true, start, shape_tile(s))
    }
}

/// Every cell holds the origin's tile.
pub open spec fn all_match_origin(cells: Seq<Tile>) -> bool {
    forall|i: int| 0 <= i < cells.len() ==> #[trigger] cells[i] == cells[0]
}

/// Every neighbour of `i` that agrees with `key` is marked.
pub open spec fn closed_at(cells: Seq<Tile>, by_shape: bool, key: Tile, m: Seq<bool>, i: int) -> bool {
    forall|j: int|
        0 <= j < 255 && adjacent(i, j) && key_matches(cells[j], key, by_shape) ==> #[trigger] m[j]
}

/// Every marked cell lies in the region of `start`.
pub open spec fn marks_in_region(cells: Seq<Tile>, by_shape: bool, start: int, m: Seq<bool>) -> bool {
    forall|k: int| 0 <= k < 255 && #[trigger] m[k] ==> in_region(cells, by_shape, start, k)
}

/// Number of marked entries.
pub open spec fn marked_count(m: Seq<bool>) -> nat
    decreases m.len(),
{
    if m.len() == 0 {
        0
    } else {
        marked_count(m.drop_last()) + if m.last() {
            1nat
        } else {
            0nat
        }
    }
}

proof fn lemma_marked_count_bound(m: Seq<bool>)
    ensures
        marked_count(m) <= m.len(),
    decreases m.len(),
{
    if m.len() > 0 {
        lemma_marked_count_bound(m.drop_last());
    }
}

proof fn lemma_marked_count_mark(m: Seq<bool>, j: int)
    requires
        0 <= j < m.len(),
        !m[j],
    ensures
        marked_count(m.update(j, true)) == marked_count(m) + 1,
    decreases m.len(),
{
    let u = m.update(j, true);
    if j == m.len() - 1 {
        assert(u.drop_last() =~= m.drop_last());
    } else {
        assert(u.drop_last() =~= m.drop_last().update(j, true));
        lemma_marked_count_mark(m.drop_last(), j);
    }
}

/// A cell is in its own region.
proof fn lemma_start_in_region(cells: Seq<Tile>, by_shape: bool, start: int)
    requires
        0 <= start < cells.len(),
    ensures
        in_region(cells, by_shape, start, start),
{
    let p = seq![start];
    assert(is_path(cells, by_shape, cells[start], p));
}

/// A neighbour of a region cell that agrees with the start is in the region.
proof fn lemma_region_step(cells: Seq<Tile>, by_shape: bool, start: int, i: int, j: int)
    requires
        0 <= start < cells.len(),
        0 <= j < cells.len(),
        in_region(cells, by_shape, start, i),
        adjacent(i, j),
        key_matches(cells[j], cells[start], by_shape),
    ensures
        in_region(cells, by_shape, start, j),
{
    let p = choose|p: Seq<int>|
        #[trigger] is_path(cells, by_shape, cells[start], p) && p[0] == start && p.last() == i;
    let q = p.push(j);
    assert forall|k: int| 0 <= k < q.len() - 1 implies adjacent(#[trigger] q[k], q[k + 1]) by {
        if k < p.len() - 1 {
            assert(q[k] == p[k] && q[k + 1] == p[k + 1]);
        }
    }
    assert forall|k: int| 0 <= k < q.len() implies 0 <= #[trigger] q[k] < cells.len()
        && key_matches(cells[q[k]], cells[start], by_shape) by {
        if k < p.len() {
            assert(q[k] == p[k]);
        }
    }
    assert(is_path(cells, by_shape, cells[start], q));
}

/// A set of marks that holds `start` and is closed under stepping to agreeing
/// neighbours holds the whole region of `start`.
proof fn lemma_closed_marks_cover_region(cells: Seq<Tile>, by_shape: bool, start: int, m: Seq<bool>)
    requires
        cells.len() == 255,
        m.len() == 255,
        0 <= start < 255,
        m[start],
        forall|i: int| 0 <= i < 255 && m[i] ==> closed_at(cells, by_shape, cells[start], m, i),
    ensures
        forall|i: int| 0 <= i < 255 && in_region(cells, by_shape, start, i) ==> #[trigger] m[i],
{
    assert forall|i: int| 0 <= i < 255 && in_region(cells, by_shape, start, i) implies #[trigger] m[i] by {
        let p = choose|p: Seq<int>|
            #[trigger] is_path(cells, by_shape, cells[start], p) && p[0] == start && p.last() == i;
        lemma_path_marked(cells, by_shape, start, m, p, p.len() - 1);
    }
}

proof fn lemma_path_marked(cells: Seq<Tile>, by_shape: bool, start: int, m: Seq<bool>, p: Seq<int>, k: int)
    requires
        cells.len() == 255,
        m.len() == 255,
        0 <= start < 255,
        m[start],
        forall|i: int| 0 <= i < 255 && m[i] ==> closed_at(cells, by_shape, cells[start], m, i),
        is_path(cells, by_shape, cells[start], p),
        p[0] == start,
        0 <= k < p.len(),
    ensures
        m[p[k]],
    decreases k,
{
    if k > 0 {
        lemma_path_marked(cells, by_shape, start, m, p, k - 1);
        assert(adjacent(p[k - 1], p[k]));
        assert(0 <= p[k] < 255);
        assert(closed_at(cells, by_shape, cells[start], m, p[k - 1]));
    }
}

/// Whether `a` and `b` agree on the compared attribute.
fn same_key(a: &Tile, b: &Tile, by_shape: bool) -> (r: bool)
    ensures
        r == key_matches(*a, *b, by_shape),
{
    if by_shape {
        a.shape == b.shape
    } else {
        a.color == b.color
    }
}

/// Marks cell `j`, reached from region cell `i`, and queues it, unless it is
/// marked already or disagrees with the start.
fn visit(
    cells: &Vec<Tile>,
    by_shape: bool,
    start: usize,
    i: usize,
    j: usize,
    mask: &mut Vec<bool>,
    stack: &mut Vec<usize>,
)
    requires
        cells@.len() == 255,
        old(mask)@.len() == 255,
        start < 255,
        i < 255,
        j < 255,
        adjacent(i as int, j as int),
        in_region(cells@, by_shape, start as int, i as int),
        marks_in_region(cells@, by_shape, start as int, old(mask)@),
    ensures
        final(mask)@.len() == 255,
        marks_in_region(cells@, by_shape, start as int, final(mask)@),
        if !old(mask)@[j as int] && key_matches(cells@[j as int], cells@[start as int], by_shape) {
            &&& final(mask)@ == old(mask)@.update(j as int, true)
            &&& final(stack)@ == old(stack)@.push(j)
        } else {
            &&& final(mask)@ == old(mask)@
            &&& final(stack)@ == old(stack)@
        },
{
    if !mask[j] && same_key(&cells[j], &cells[start], by_shape) {
        proof {
            lemma_region_step(cells@, by_shape, start as int, i as int, j as int);
        }
        mask[j] = true;
        stack.push(j);
    }
}

/// Marks exactly the cells of the region of `start`.
fn region(cells: &Vec<Tile>, start: usize, by_shape: bool) -> (mask: Vec<bool>)
    requires
        cells@.len() == 255,
        start < 255,
    ensures
        mask@.len() == 255,
        forall|i: int|
            0 <= i < 255 ==> (#[trigger] mask@[i] <==> in_region(cells@, by_shape, start as int, i)),
{
    let ghost key = cells@[start as int];
    let mut mask: Vec<bool> = Vec::new();
    let mut n: usize = 0;
    while n < CELL_COUNT
        invariant
            n <= 255,
            mask@.len() == n,
            forall|k: int| 0 <= k < n ==> !#[trigger] mask@[k],
        decreases 255 - n,
    {
        mask.push(false);
        n = n + 1;
    }
    proof {
        lemma_start_in_region(cells@, by_shape, start as int);
        assert(marked_count(mask@) == 0) by {
            lemma_none_marked(mask@);
        }
    }
    mask[start] = true;
    proof {
        lemma_marked_count_mark(mask@.update(start as int, false), start as int);
        assert(mask@.update(start as int, false).update(start as int, true) =~= mask@);
    }
    let mut stack: Vec<usize> = Vec::new();
    stack.push(start);
    proof {
        lemma_marked_count_bound(mask@);
        assert(stack@[0] == start);
        assert forall|i: int| 0 <= i < 255 && #[trigger] mask@[i] implies i == start as int by {}
    }
    while stack.len() > 0
        invariant
            cells@.len() == 255,
            start < 255,
            key == cells@[start as int],
            mask@.len() == 255,
            mask@[start as int],
            marked_count(mask@) <= 255,
            forall|k: int| 0 <= k < stack@.len() ==> #[trigger] stack@[k] < 255 && mask@[stack@[k] as int],
            marks_in_region(cells@, by_shape, start as int, mask@),
            forall|i: int|
                0 <= i < 255 && #[trigger] mask@[i] && !stack@.contains(i as usize) ==> closed_at(
                    cells@,
                    by_shape,
                    key,
                    mask@,
                    i,
                ),
        decreases 2 * (255 - marked_count(mask@)) + stack@.len(),
    {
        let ghost mask_in = mask@;
        let ghost stack_in = stack@;
        let i = stack.pop().unwrap();
        let ghost stack0 = stack@;
        assert(stack_in == stack0.push(i));
        assert(i < 255 && mask@[i as int]) by {
            assert(stack_in[stack_in.len() - 1] == i);
        }
        if i % COLUMNS != 0 {
            visit(cells, by_shape, start, i, i - 1, &mut mask, &mut stack);
        }
        let ghost mask1 = mask@;
        let ghost stack1 = stack@;
        proof {
            lemma_visit_step(mask_in, stack0, mask1, stack1, i as int - 1);
        }
        if i >= COLUMNS {
            visit(cells, by_shape, start, i, i - COLUMNS, &mut mask, &mut stack);
        }
        let ghost mask2 = mask@;
        let ghost stack2 = stack@;
        proof {
            lemma_visit_step(mask1, stack1, mask2, stack2, i as int - 17);
        }
        if i % COLUMNS != 16 {
            visit(cells, by_shape, start, i, i + 1, &mut mask, &mut stack);
        }
        let ghost mask3 = mask@;
        let ghost stack3 = stack@;
        proof {
            lemma_visit_step(mask2, stack2, mask3, stack3, i as int + 1);
        }
        if i + COLUMNS < CELL_COUNT {
            visit(cells, by_shape, start, i, i + COLUMNS, &mut mask, &mut stack);
        }
        proof {
            lemma_visit_step(mask3, stack3, mask@, stack@, i as int + 17);
            assert(closed_at(cells@, by_shape, key, mask@, i as int));
            assert forall|k: int|
                0 <= k < 255 && #[trigger] mask@[k] && !stack@.contains(k as usize) implies closed_at(
                cells@,
                by_shape,
                key,
                mask@,
                k,
            ) by {
                if k != i {
                    assert(mask_in[k]);
                    assert(!stack0.contains(k as usize));
                    if stack_in.contains(k as usize) {
                        let w = choose|w: int| 0 <= w < stack_in.len() && stack_in[w] == k as usize;
                        if w < stack0.len() {
                            assert(stack0[w] == k as usize);
                        }
                    }
                    assert(closed_at(cells@, by_shape, key, mask_in, k));
                    assert forall|j: int|
                        0 <= j < 255 && adjacent(k, j) && key_matches(cells@[j], key, by_shape) implies #[trigger] mask@[j] by {
                        assert(mask_in[j]);
                    }
                }
            }
        }
    }
    proof {
        lemma_closed_marks_cover_region(cells@, by_shape, start as int, mask@);
    }
    mask
}

/// What one call of `visit` keeps: marks only grow, each new mark is queued,
/// queued cells stay queued and marked, and the measure does not grow.
proof fn lemma_visit_step(m0: Seq<bool>, s0: Seq<usize>, m1: Seq<bool>, s1: Seq<usize>, j: int)
    requires
        m0.len() == 255,
        forall|k: int| 0 <= k < s0.len() ==> #[trigger] s0[k] < 255 && m0[s0[k] as int],
        (m1 == m0 && s1 == s0) || (0 <= j < 255 && !m0[j] && m1 == m0.update(j, true) && s1
            == s0.push(j as usize)),
    ensures
        m1.len() == 255,
        marked_count(m1) <= 255,
        forall|k: int| 0 <= k < 255 && #[trigger] m0[k] ==> m1[k],
        forall|k: int| 0 <= k < 255 && #[trigger] m1[k] && !m0[k] ==> s1.contains(k as usize),
        forall|x: usize| #[trigger] s0.contains(x) ==> s1.contains(x),
        forall|k: int| 0 <= k < s1.len() ==> #[trigger] s1[k] < 255 && m1[s1[k] as int],
        s0.len() <= s1.len(),
        2 * (255 - marked_count(m1)) + s1.len() <= 2 * (255 - marked_count(m0)) + s0.len(),
{
    lemma_marked_count_bound(m1);
    if m1 != m0 {
        lemma_marked_count_mark(m0, j);
        assert(s1[s0.len() as int] == j as usize);
        assert forall|x: usize| #[trigger] s0.contains(x) implies s1.contains(x) by {
            let w = choose|w: int| 0 <= w < s0.len() && s0[w] == x;
            assert(s1[w] == x);
        }
    }
}

proof fn lemma_none_marked(m: Seq<bool>)
    requires
        forall|k: int| 0 <= k < m.len() ==> !#[trigger] m[k],
    ensures
        marked_count(m) == 0,
    decreases m.len(),
{
    if m.len() > 0 {
        lemma_none_marked(m.drop_last());
    }
}

/// The grid after copying the tile at column `x`, row `y` onto its right
/// neighbour.
pub open spec fn smeared(cells: Seq<Tile>, x: int, y: int) -> Seq<Tile> {
    cells.update(cell_index(x + 1, y), cells[cell_index(x, y)])
}

/// The grid after each copy of `smears`, in order.
pub open spec fn smeared_all(cells: Seq<Tile>, smears: Seq<(u16, u16)>) -> Seq<Tile>
    decreases smears.len(),
{
    if smears.len() == 0 {
        cells
    } else {
        let (x, y) = smears.last();
        smeared(smeared_all(cells, smears.drop_last()), x as int, y as int)
    }
}

/// Each copy starts inside the grid and left of its last column.
pub open spec fn smears_in_bounds(smears: Seq<(u16, u16)>) -> bool {
    forall|k: int| 0 <= k < smears.len() ==> (#[trigger] smears[k]).0 < 16 && smears[k].1 <= 14
}

/// A full grid of tiles that may stand on it.
pub open spec fn valid_cells(cells: Seq<Tile>) -> bool {
    &&& cells.len() == 255
    &&& forall|i: int| 0 <= i < cells.len() ==> (#[trigger] cells[i]).paired()
}

/// The playing grid: one tile for each of the `COLUMNS * ROWS` cells.
pub struct Board {
    cells: Vec<Tile>,
}

impl View for Board {
    type V = Seq<Tile>;

    closed spec fn view(&self) -> Seq<Tile> {
        self.cells@
    }
}

impl Board {
    /// Every cell is present and holds a paired tile.
    pub open spec fn wf(&self) -> bool {
        valid_cells(self@)
    }

    /// A board holding `cells`, row by row; `None` unless there is one paired
    /// tile for each cell.
    pub fn from_tiles(cells: Vec<Tile>) -> (r: Option<Board>)
        ensures
            r.is_some() <==> valid_cells(cells@),
            r.is_some() ==> r.unwrap()@ == cells@ && r.unwrap().wf(),
    {
        if cells.len() != CELL_COUNT {
            return None;
        }
        let mut i: usize = 0;
        while i < cells.len()
            invariant
                i <= cells@.len(),
                forall|k: int| 0 <= k < i ==> (#[trigger] cells@[k]).paired(),
            decreases cells@.len() - i,
        {
            if !cells[i].is_paired() {
                return None;
            }
            i = i + 1;
        }
        Some(Board { cells })
    }

    /// A board built from `tiles` (row by row) and then smeared: for each
    /// `(x, y)` of `smears` in turn, the tile at `(x, y)` is copied onto
    /// `(x + 1, y)`.
    pub fn generate(tiles: Vec<Tile>, smears: &Vec<(u16, u16)>) -> (r: Board)
        requires
            valid_cells(tiles@),
            smears_in_bounds(smears@),
        ensures
            r.wf(),
            r@ == smeared_all(tiles@, smears@),
    {
        let mut board = Board { cells: tiles };
        let mut k: usize = 0;
        while k < smears.len()
            invariant
                k <= smears@.len(),
                smears_in_bounds(smears@),
                board.wf(),
                board@ == smeared_all(tiles@, smears@.take(k as int)),
            decreases smears@.len() - k,
        {
            let (x, y) = smears[k];
            board.smear(x, y);
            proof {
                assert(smears@.take(k as int + 1).drop_last() =~= smears@.take(k as int));
            }
            k = k + 1;
        }
        assert(smears@.take(smears@.len() as int) =~= smears@);
        board
    }

    /// Copies the tile at column `x`, row `y` onto its right neighbour.
    pub fn smear(&mut self, x: u16, y: u16)
        requires
            old(self).wf(),
            x < WIDTH,
            y <= HEIGHT,
        ensures
            final(self).wf(),
            final(self)@ == smeared(old(self)@, x as int, y as int),
    {
        let from = y as usize * COLUMNS + x as usize;
        let tile = self.cells[from];
        self.cells[from + 1] = tile;
    }

    /// A fresh board: every cell drawn at random, then the tile at a random
    /// cell copied onto its right neighbour `WIDTH * HEIGHT + 1` times, with
    /// the column drawn from `[0, WIDTH - 2]` and the row from `[0, HEIGHT - 1]`.
    pub fn new() -> (r: Board)
        ensures
            r.wf(),
            exists|tiles: Seq<Tile>, smears: Seq<(u16, u16)>|
                {
                    &&& valid_cells(tiles)
                    &&& smears.len() == 225
                    &&& forall|k: int|
                        0 <= k < smears.len() ==> (#[trigger] smears[k]).0 <= 14 && smears[k].1
                            <= 13
                    &&& r@ == smeared_all(tiles, smears)
                },
    {
        let mut tiles: Vec<Tile> = Vec::new();
        let mut n: usize = 0;
        while n < CELL_COUNT
            invariant
                n <= 255,
                tiles@.len() == n,
                forall|i: int| 0 <= i < n ==> (#[trigger] tiles@[i]).paired(),
            decreases 255 - n,
        {
            tiles.push(Tile::new());
            n = n + 1;
        }
        let mut smears: Vec<(u16, u16)> = Vec::new();
        let passes: usize = (WIDTH * HEIGHT + 1) as usize;
        while smears.len() < passes
            invariant
                passes == 225,
                smears@.len() <= passes,
                forall|k: int|
                    0 <= k < smears@.len() ==> (#[trigger] smears@[k]).0 <= 14 && smears@[k].1 <= 13,
            decreases passes - smears@.len(),
        {
            let x = random_below(WIDTH - 1);
            let y = random_below(HEIGHT);
            smears.push((x, y));
        }
        let ghost tiles_drawn = tiles@;
        let board = Board::generate(tiles, &smears);
        assert(board@ == smeared_all(tiles_drawn, smears@));
        board
    }

    /// The tile at column `x`, row `y`.
    pub fn tile_at(&self, x: u16, y: u16) -> (r: Tile)
        requires
            self.wf(),
            x <= WIDTH,
            y <= HEIGHT,
        ensures
            r == self@[cell_index(x as int, y as int)],
    {
        self.cells[y as usize * COLUMNS + x as usize]
    }

    /// Every cell holds the origin's tile, both shape and colour.
    pub fn is_won(&self) -> (r: bool)
        requires
            self.wf(),
        ensures
            r == all_match_origin(self@),
    {
        let origin = self.cells[0];
        let mut i: usize = 0;
        while i < CELL_COUNT
            invariant
                i <= 255,
                self.wf(),
                origin == self@[0],
                forall|k: int| 0 <= k < i ==> #[trigger] self@[k] == self@[0],
            decreases 255 - i,
        {
            if self.cells[i] != origin {
                return false;
            }
            i = i + 1;
        }
        true
    }

    /// Writes `t` into every marked cell.
    fn paint(&mut self, mask: &Vec<bool>, t: Tile)
        requires
            old(self).wf(),
            mask@.len() == 255,
            t.paired(),
        ensures
            final(self).wf(),
            final(self)@ == Seq::new(255, |i: int| if mask@[i] { t } else { old(self)@[i] }),
    {
        let ghost before = self@;
        let mut i: usize = 0;
        while i < CELL_COUNT
            invariant
                i <= 255,
                self.wf(),
                mask@.len() == 255,
                before.len() == 255,
                t.paired(),
                forall|k: int|
                    0 <= k < 255 ==> #[trigger] self@[k] == if k < i && mask@[k] {
                        t
                    } else {
                        before[k]
                    },
            decreases 255 - i,
        {
            if mask[i] {
                self.cells[i] = t;
            }
            i = i + 1;
        }
        assert(self@ =~= Seq::new(255, |i: int| if mask@[i] { t } else { before[i] }));
    }

    /// Recolours the region of the cell at column `x`, row `y` to
    /// `search_color`: every cell connected to it through cells of its colour
    /// gets the tile of that colour. At the origin, a move to the origin's own
    /// colour changes nothing. The last argument is not used.
    pub fn change_tile_by_color(
        &mut self,
        x: u16,
        y: u16,
        search_color: InputColor,
        _replacement_tile: Option<InputColor>,
    )
        requires
            old(self).wf(),
            x <= WIDTH,
            y <= HEIGHT,
        ensures
            final(self).wf(),
            final(self)@ == color_fill(old(self)@, cell_index(x as int, y as int), search_color),
    {
        let start = y as usize * COLUMNS + x as usize;
        if x == 0 && y == 0 && self.cells[0].color == search_color {
            return;
        }
        let mask = region(&self.cells, start, false);
        let t = Tile::color(search_color);
        self.paint(&mask, t);
        proof {
            assert(self@ =~= region_fill(old(self)@, false, start as int, t));
        }
    }

    /// Reshapes the region of the cell at column `x`, row `y` to
    /// `search_shape`: every cell connected to it through cells of its shape
    /// gets the tile of that shape. At the origin, a move to the origin's own
    /// shape changes nothing. The last argument is not used.
    pub fn change_tile_by_shape(
        &mut self,
        x: u16,
        y: u16,
        search_shape: InputShape,
        _replacement_tile: Option<InputShape>,
    )
        requires
            old(self).wf(),
            x <= WIDTH,
            y <= HEIGHT,
        ensures
            final(self).wf(),
            final(self)@ == shape_fill(old(self)@, cell_index(x as int, y as int), search_shape),
    {
        let start = y as usize * COLUMNS + x as usize;
        if x == 0 && y == 0 && self.cells[0].shape == search_shape {
            return;
        }
        let mask = region(&self.cells, start, true);
        let t = Tile::shape(search_shape);
        self.paint(&mask, t);
        proof {
            assert(self@ =~= region_fill(old(self)@, true, start as int, t));
        }
    }
}

/// Every cell of a region agrees with its start on the compared attribute.
proof fn lemma_region_agrees(cells: Seq<Tile>, by_shape: bool, start: int, i: int)
    requires
        in_region(cells, by_shape, start, i),
    ensures
        0 <= i < cells.len(),
        key_matches(cells[i], cells[start], by_shape),
{
    let p = choose|p: Seq<int>|
        #[trigger] is_path(cells, by_shape, cells[start], p) && p[0] == start && p.last() == i;
    assert(p[p.len() - 1] == i);
}

/// A colour move at the origin leaves the origin with the tile of the chosen
/// colour, and it changes nothing exactly when the origin had that colour.
pub proof fn law_color_move_sets_origin(cells: Seq<Tile>, c: InputColor)
    requires
        valid_cells(cells),
    ensures
        color_fill(cells, 0, c)[0] == color_tile(c),
        color_fill(cells, 0, c) == cells <==> cells[0].color == c,
{
    lemma_start_in_region(cells, false, 0);
    assert(cells[0].paired());
}

/// A shape move at the origin leaves the origin with the tile of the chosen
/// shape, and it changes nothing exactly when the origin had that shape.
pub proof fn law_shape_move_sets_origin(cells: Seq<Tile>, s: InputShape)
    requires
        valid_cells(cells),
        s != InputShape::Block,
    ensures
        shape_fill(cells, 0, s)[0] == shape_tile(s),
        shape_fill(cells, 0, s) == cells <==> cells[0].shape == s,
{
    lemma_start_in_region(cells, true, 0);
    assert(cells[0].paired());
}

/// A colour move at the origin changes exactly the cells of the origin's
/// region, taken over the colours before the move, unless the origin already
/// had the chosen colour, in which case nothing changes.
pub proof fn law_color_move_changes_region(cells: Seq<Tile>, c: InputColor)
    requires
        valid_cells(cells),
    ensures
        forall|i: int|
            0 <= i < cells.len() ==> (#[trigger] color_fill(cells, 0, c)[i] != cells[i] <==> (
            in_region(cells, false, 0, i) && cells[0].color != c)),
{
    assert forall|i: int| 0 <= i < cells.len() && in_region(cells, false, 0, i) implies #[trigger] cells[i].color == cells[0].color by {
        lemma_region_agrees(cells, false, 0, i);
    }
}

/// A shape move at the origin changes exactly the cells of the origin's
/// region, taken over the shapes before the move, unless the origin already
/// had the chosen shape, in which case nothing changes.
pub proof fn law_shape_move_changes_region(cells: Seq<Tile>, s: InputShape)
    requires
        valid_cells(cells),
        s != InputShape::Block,
    ensures
        forall|i: int|
            0 <= i < cells.len() ==> (#[trigger] shape_fill(cells, 0, s)[i] != cells[i] <==> (
            in_region(cells, true, 0, i) && cells[0].shape != s)),
{
    assert forall|i: int| 0 <= i < cells.len() && in_region(cells, true, 0, i) implies #[trigger] cells[i].shape == cells[0].shape by {
        lemma_region_agrees(cells, true, 0, i);
    }
}

} // verus!
