use vstd::prelude::*;
use vstd::string::StringExecFns;

use crate::disk::{Cell, Disk, CELL_EMPTY};

verus! {

pub const GRID_COLS: usize = 7;

pub const GRID_ROWS: usize = 6;

/// The board used during play. `cells` is column-major: `cells[col][row]`, row 0 = bottom.
/// `col_fill[c]` is the next empty row of column `c`; `col_fill[c] == height` means full.
#[derive(Clone)]
pub struct Grid {
    pub cells: Vec<Vec<Cell>>,
    pub col_fill: [usize; GRID_COLS],
    pub width: usize,
    pub height: usize,
}

/// Compact single-allocation snapshot of a grid, used for undo/redo history.
#[derive(Clone)]
pub struct FlatGrid {
    pub cells: Vec<Cell>,
    pub col_fill: [usize; GRID_COLS],
    pub width: usize,
    pub height: usize,
}

/// The mathematical content of a `Grid`.
#[verifier::ext_equal]
pub struct GridModel {
    pub cells: Seq<Seq<u8>>,
    pub col_fill: Seq<usize>,
    pub width: usize,
    pub height: usize,
}

/// The mathematical content of a `FlatGrid`.
#[verifier::ext_equal]
pub struct FlatGridModel {
    pub cells: Seq<u8>,
    pub col_fill: Seq<usize>,
    pub width: usize,
    pub height: usize,
}

impl View for Grid {
    type V = GridModel;

    open spec fn view(&self) -> GridModel {
        GridModel {
            cells: self.cells@.map_values(|v: Vec<u8>| v@),
            col_fill: self.col_fill@,
            width: self.width,
            height: self.height,
        }
    }
}

impl View for FlatGrid {
    type V = FlatGridModel;

    open spec fn view(&self) -> FlatGridModel {
        FlatGridModel {
            cells: self.cells@,
            col_fill: self.col_fill@,
            width: self.width,
            height: self.height,
        }
    }
}

/// Position `base` moved `k` steps in direction `d` (only the sign of `d` matters).
pub open spec fn offset(base: int, k: int, d: int) -> int {
    if d > 0 {
        base + k
    } else if d < 0 {
        base - k
    } else {
        base
    }
}

/// Cuts `s` into consecutive pieces of length `h`; the last piece may be shorter.
pub open spec fn chunks(s: Seq<u8>, h: nat) -> Seq<Seq<u8>>
    decreases s.len(),
{
    if s.len() == 0 || h == 0 {
        seq![]
    } else if s.len() <= h {
        seq![s]
    } else {
        seq![s.take(h as int)] + chunks(s.skip(h as int), h)
    }
}

impl GridModel {
    /// `width` columns of `height` cells each, and one fill counter per possible column.
    pub open spec fn wf(self) -> bool {
        &&& self.cells.len() == self.width
        &&& forall|c: int| 0 <= c < self.width ==> #[trigger] self.cells[c].len() == self.height
        &&& self.col_fill.len() == GRID_COLS
    }

    /// The empty board of the given size.
    pub open spec fn empty(width: usize, height: usize) -> GridModel {
        GridModel {
            cells: Seq::new(width as nat, |c: int| Seq::new(height as nat, |r: int| CELL_EMPTY)),
            col_fill: Seq::new(GRID_COLS as nat, |c: int| 0usize),
            width,
            height,
        }
    }

    /// The cell value at (c, r), or -1 outside the board.
    pub open spec fn cell(self, c: int, r: int) -> int {
        if 0 <= c < self.width && 0 <= r < self.height {
            self.cells[c][r] as int
        } else {
            -1
        }
    }

    /// The cell `k` steps from (col, row) in direction (dc, dr).
    pub open spec fn along(self, col: int, row: int, dc: int, dr: int, k: int) -> int {
        self.cell(offset(col, k, dc), offset(row, k, dr))
    }

    /// The four cells from step `lo` to step `lo + 3` in direction (dc, dr) all hold
    /// the value at (col, row).
    pub open spec fn window(self, col: int, row: int, dc: int, dr: int, lo: int) -> bool {
        forall|k: int| lo <= k <= lo + 3 ==> #[trigger] self.along(col, row, dc, dr, k) == self.cell(col, row)
    }

    /// Four equal cells in a row in direction (dc, dr), one of which is (col, row).
    pub open spec fn line_through(self, col: int, row: int, dc: int, dr: int) -> bool {
        exists|lo: int| -3 <= lo <= 0 && #[trigger] self.window(col, row, dc, dr, lo)
    }

    /// The disk at (col, row) is part of a horizontal, vertical or diagonal line of four.
    pub open spec fn wins_at(self, col: int, row: int) -> bool {
        &&& self.cell(col, row) != CELL_EMPTY as int
        &&& {
            ||| self.line_through(col, row, 1, 0)
            ||| self.line_through(col, row, 0, 1)
            ||| self.line_through(col, row, 1, 1)
            ||| self.line_through(col, row, 1, -1)
        }
    }

    pub open spec fn column_full(self, col: int) -> bool {
        self.col_fill[col] >= self.height
    }

    /// Every column that has a fill counter is full.
    pub open spec fn full(self) -> bool {
        forall|c: int| 0 <= c < self.width && c < GRID_COLS ==> #[trigger] self.col_fill[c] >= self.height
    }

    /// The cell at the fill height of `col` set to `value`, and the fill height raised by one.
    pub open spec fn place(self, col: int, value: u8) -> GridModel {
        let row = self.col_fill[col] as int;
        GridModel {
            cells: self.cells.update(col, self.cells[col].update(row, value)),
            col_fill: self.col_fill.update(col, (self.col_fill[col] + 1) as usize),
            ..self
        }
    }

    /// The cell (col, row) emptied; the fill height of `col` drops by one when `row` was
    /// its topmost disk.
    pub open spec fn cleared(self, col: int, row: int) -> GridModel {
        let fill = self.col_fill[col];
        GridModel {
            cells: self.cells.update(col, self.cells[col].update(row, CELL_EMPTY)),
            col_fill: if fill > 0 && row == fill - 1 {
                self.col_fill.update(col, (fill - 1) as usize)
            } else {
                self.col_fill
            },
            ..self
        }
    }

    /// The cell (col, row) set to `value`; the fill height of `col` is raised to just above
    /// `row` when it was not above it already.
    pub open spec fn put(self, col: int, row: int, value: u8) -> GridModel {
        GridModel {
            cells: self.cells.update(col, self.cells[col].update(row, value)),
            col_fill: if self.col_fill[col] <= row {
                self.col_fill.update(col, (row + 1) as usize)
            } else {
                self.col_fill
            },
            ..self
        }
    }

    /// Every cell holds 0, 1 or 2.
    pub open spec fn cells_valid(self) -> bool {
        forall|c: int, r: int|
            0 <= c < self.width && 0 <= r < self.height ==> #[trigger] self.cells[c][r] <= 2
    }

    /// Disks rest on each other: in every column the cells below the fill height are
    /// occupied and those at or above it are empty.
    pub open spec fn settled(self) -> bool {
        &&& forall|c: int| 0 <= c < self.width && c < GRID_COLS ==> #[trigger] self.col_fill[c] <= self.height
        &&& forall|c: int, r: int|
            0 <= c < self.width && c < GRID_COLS && 0 <= r < self.height ==> (#[trigger] self.cells[c][r]
                != CELL_EMPTY <==> r < self.col_fill[c])
    }

    pub open spec fn flattened(self) -> FlatGridModel {
        FlatGridModel {
            cells: self.cells.flatten(),
            col_fill: self.col_fill,
            width: self.width,
            height: self.height,
        }
    }
}

impl FlatGridModel {
    pub open spec fn unflattened(self) -> GridModel {
        GridModel {
            cells: chunks(self.cells, self.height as nat),
            col_fill: self.col_fill,
            width: self.width,
            height: self.height,
        }
    }
}

/// One step from `pos` in direction `d`, if that stays below `limit`.
fn step(pos: usize, d: i8, limit: usize) -> (r: Option<usize>)
    requires
        pos < limit,
        -1 <= d <= 1,
    ensures
        match r {
            Some(p) => p as int == offset(pos as int, 1, d as int) && p < limit,
            None => !(0 <= offset(pos as int, 1, d as int) < limit),
        },
{
    if d > 0 {
        if pos + 1 < limit {
            Some(pos + 1)
        } else {
            None
        }
    } else if d < 0 {
        if pos > 0 {
            Some(pos - 1)
        } else {
            None
        }
    } else {
        Some(pos)
    }
}

/// With `a` matching cells behind (col, row) and `b` ahead, each run either capped at
/// three or ended by a non-matching cell, there is a line of four through (col, row)
/// exactly when `a + b >= 3`.
proof fn lemma_runs_decide_line(g: GridModel, col: int, row: int, dc: int, dr: int, a: int, b: int)
    requires
        0 <= col < g.width,
        0 <= row < g.height,
        0 <= a <= 3,
        0 <= b <= 3,
        forall|k: int| 1 <= k <= a ==> #[trigger] g.along(col, row, -dc, -dr, k) == g.cell(col, row),
        a < 3 ==> g.along(col, row, -dc, -dr, a + 1) != g.cell(col, row),
        forall|k: int| 1 <= k <= b ==> #[trigger] g.along(col, row, dc, dr, k) == g.cell(col, row),
        b < 3 ==> g.along(col, row, dc, dr, b + 1) != g.cell(col, row),
    ensures
        (a + b >= 3) == g.line_through(col, row, dc, dr),
{
    if a + b >= 3 {
        assert forall|k: int| -a <= k <= -a + 3 implies #[trigger] g.along(col, row, dc, dr, k) == g.cell(
            col,
            row,
        ) by {
            if k < 0 {
                assert(g.along(col, row, -dc, -dr, -k) == g.cell(col, row));
            }
        }
        assert(g.window(col, row, dc, dr, -a));
    } else {
        assert forall|lo: int| -3 <= lo <= 0 implies !#[trigger] g.window(col, row, dc, dr, lo) by {
            if lo <= -(a + 1) {
                assert(g.along(col, row, -dc, -dr, a + 1) != g.cell(col, row));
                assert(g.along(col, row, dc, dr, -(a + 1)) != g.cell(col, row));
            } else {
                assert(g.along(col, row, dc, dr, b + 1) != g.cell(col, row));
            }
        }
    }
}

/// Emptying the cell a disk was just placed in gives back the board it was placed on.
pub proof fn lemma_place_then_clear(g: GridModel, col: int, value: u8)
    requires
        g.wf(),
        0 <= col < g.width,
        col < GRID_COLS,
        g.col_fill[col] < g.height,
        g.cells[col][g.col_fill[col] as int] == CELL_EMPTY,
    ensures
        g.place(col, value).cleared(col, g.col_fill[col] as int) == g,
{
    let row = g.col_fill[col] as int;
    let h = g.place(col, value).cleared(col, row);
    assert(h.cells[col] =~= g.cells[col]);
    assert(h.cells =~= g.cells);
    assert(h.col_fill =~= g.col_fill);
}

/// Disks rest on each other: dropping a disk into a column that has room keeps every
/// column filled from the bottom with no gaps, and removing the topmost disk of a column
/// does too.
pub proof fn lemma_settled_kept(g: GridModel, col: int, value: u8)
    requires
        g.wf(),
        g.settled(),
        0 <= col < g.width,
        col < GRID_COLS,
        value != CELL_EMPTY,
    ensures
        g.col_fill[col] < g.height ==> g.place(col, value).settled(),
        g.col_fill[col] > 0 ==> g.cleared(col, g.col_fill[col] - 1).settled(),
{
    if g.col_fill[col] < g.height {
        let p = g.place(col, value);
        assert forall|c: int, r: int|
            0 <= c < p.width && c < GRID_COLS && 0 <= r < p.height implies (#[trigger] p.cells[c][r] != CELL_EMPTY
            <==> r < p.col_fill[c]) by {
            if c != col {
                assert(p.cells[c] == g.cells[c]);
            }
        }
    }
    if g.col_fill[col] > 0 {
        let q = g.cleared(col, g.col_fill[col] - 1);
        assert forall|c: int, r: int|
            0 <= c < q.width && c < GRID_COLS && 0 <= r < q.height implies (#[trigger] q.cells[c][r] != CELL_EMPTY
            <==> r < q.col_fill[c]) by {
            if c != col {
                assert(q.cells[c] == g.cells[c]);
            }
        }
    }
}

/// Cutting the concatenation of equally long pieces gives back the pieces.
proof fn lemma_chunks_of_flatten(cells: Seq<Seq<u8>>, h: nat)
    requires
        h > 0,
        forall|c: int| 0 <= c < cells.len() ==> #[trigger] cells[c].len() == h,
    ensures
        chunks(cells.flatten(), h) == cells,
    decreases cells.len(),
{
    if cells.len() == 0 {
        assert(chunks(cells.flatten(), h) =~= cells);
    } else {
        let rest = cells.drop_first();
        assert forall|c: int| 0 <= c < rest.len() implies #[trigger] rest[c].len() == h by {
            assert(rest[c] == cells[c + 1]);
        }
        lemma_chunks_of_flatten(rest, h);
        let f = cells.flatten();
        assert(f == cells[0] + rest.flatten());
        if rest.len() == 0 {
            assert(rest.flatten() =~= Seq::<u8>::empty());
            assert(f =~= cells[0]);
            assert(chunks(f, h) =~= cells);
        } else {
            assert(rest[0].len() == h);
            lemma_flatten_len_ge(rest);
            assert(f.take(h as int) =~= cells[0]);
            assert(f.skip(h as int) =~= rest.flatten());
            assert(chunks(f, h) =~= cells);
        }
    }
}

proof fn lemma_flatten_len_ge(cells: Seq<Seq<u8>>)
    requires
        cells.len() > 0,
    ensures
        cells.flatten().len() >= cells[0].len(),
{
    assert(cells.flatten() == cells[0] + cells.drop_first().flatten());
}

/// Concatenating the pieces of a cut gives back the cut sequence.
proof fn lemma_flatten_of_chunks(s: Seq<u8>, h: nat)
    requires
        h > 0,
    ensures
        chunks(s, h).flatten() == s,
    decreases s.len(),
{
    if s.len() == 0 {
        assert(chunks(s, h).flatten() =~= s);
    } else if s.len() <= h {
        let cs = chunks(s, h);
        assert(cs == seq![s]);
        assert(cs.drop_first() =~= Seq::<Seq<u8>>::empty());
        assert(cs.drop_first().flatten() == Seq::<u8>::empty());
        assert(cs.flatten() == cs[0] + cs.drop_first().flatten());
        assert(cs.flatten() =~= s);
    } else {
        lemma_flatten_of_chunks(s.skip(h as int), h);
        let cs = chunks(s, h);
        assert(cs == seq![s.take(h as int)] + chunks(s.skip(h as int), h));
        assert(cs.drop_first() =~= chunks(s.skip(h as int), h));
        assert(cs.flatten() == cs[0] + cs.drop_first().flatten());
        assert(cs.flatten() =~= s);
    }
}

/// A cut into pieces of length `h` of a sequence of `w * h` elements has `w` pieces of
/// length `h`.
proof fn lemma_chunks_shape(s: Seq<u8>, w: nat, h: nat)
    requires
        h > 0,
        s.len() == w * h,
    ensures
        chunks(s, h).len() == w,
        forall|c: int| 0 <= c < w ==> #[trigger] chunks(s, h)[c].len() == h,
    decreases w,
{
    if w == 0 {
        assert(s.len() == 0) by (nonlinear_arith)
            requires
                s.len() == w * h,
                w == 0,
        ;
    } else {
        assert(s.len() == (w - 1) * h + h) by (nonlinear_arith)
            requires
                s.len() == w * h,
                w > 0,
        ;
        if w == 1 {
            assert(s.len() == h) by (nonlinear_arith)
                requires
                    s.len() == w * h,
                    w == 1,
            ;
            assert(chunks(s, h) =~= seq![s]);
        } else {
            assert((w - 1) * h >= h) by (nonlinear_arith)
                requires
                    w >= 2,
            ;
            lemma_chunks_shape(s.skip(h as int), (w - 1) as nat, h);
            let cs = chunks(s, h);
            assert(cs == seq![s.take(h as int)] + chunks(s.skip(h as int), h));
            assert forall|c: int| 0 <= c < w implies #[trigger] cs[c].len() == h by {
                if c > 0 {
                    assert(cs[c] == chunks(s.skip(h as int), h)[c - 1]);
                }
            }
        }
    }
}

/// Concatenating `n` pieces of length `h` whose elements are at most `b` gives `n * h`
/// elements that are at most `b`.
pub proof fn lemma_flatten_uniform(cells: Seq<Seq<u8>>, h: nat, b: u8)
    requires
        forall|c: int| 0 <= c < cells.len() ==> #[trigger] cells[c].len() == h,
        forall|c: int, r: int| 0 <= c < cells.len() && 0 <= r < h ==> #[trigger] cells[c][r] <= b,
    ensures
        cells.flatten().len() == cells.len() * h,
        forall|i: int| 0 <= i < cells.flatten().len() ==> #[trigger] cells.flatten()[i] <= b,
    decreases cells.len(),
{
    if cells.len() > 0 {
        let rest = cells.drop_first();
        assert forall|c: int| 0 <= c < rest.len() implies #[trigger] rest[c].len() == h by {
            assert(rest[c] == cells[c + 1]);
        }
        assert forall|c: int, r: int| 0 <= c < rest.len() && 0 <= r < h implies #[trigger] rest[c][r] <= b by {
            assert(rest[c] == cells[c + 1]);
            assert(cells[c + 1][r] <= b);
        }
        lemma_flatten_uniform(rest, h, b);
        let f = cells.flatten();
        assert(f == cells[0] + rest.flatten());
        assert(f.len() == cells.len() * h) by (nonlinear_arith)
            requires
                f.len() == h + rest.flatten().len(),
                rest.flatten().len() == rest.len() * h,
                rest.len() == cells.len() - 1,
        ;
        assert forall|i: int| 0 <= i < f.len() implies #[trigger] f[i] <= b by {
            if i < h {
                assert(f[i] == cells[0][i]);
            } else {
                assert(f[i] == rest.flatten()[i - h]);
            }
        }
    }
}

/// The pieces of a cut hold only elements of the cut sequence.
pub proof fn lemma_chunks_bounded(s: Seq<u8>, h: nat, b: u8)
    requires
        h > 0,
        forall|i: int| 0 <= i < s.len() ==> #[trigger] s[i] <= b,
    ensures
        forall|c: int, r: int|
            0 <= c < chunks(s, h).len() && 0 <= r < chunks(s, h)[c].len() ==> #[trigger] chunks(s, h)[c][r] <= b,
    decreases s.len(),
{
    if s.len() > h {
        lemma_chunks_bounded(s.skip(h as int), h, b);
        let cs = chunks(s, h);
        assert(cs == seq![s.take(h as int)] + chunks(s.skip(h as int), h));
        assert forall|c: int, r: int| 0 <= c < cs.len() && 0 <= r < cs[c].len() implies #[trigger] cs[c][r] <= b by {
            if c > 0 {
                assert(cs[c] == chunks(s.skip(h as int), h)[c - 1]);
                assert(chunks(s.skip(h as int), h)[c - 1][r] <= b);
            } else {
                assert(cs[c][r] == s[r]);
            }
        }
    } else if s.len() > 0 {
        assert(chunks(s, h) == seq![s]);
    }
}

/// Unflattening a flattened board gives back the board.
pub proof fn lemma_flat_roundtrip(g: GridModel)
    requires
        g.wf(),
        g.height > 0,
    ensures
        g.flattened().unflattened() == g,
{
    lemma_chunks_of_flatten(g.cells, g.height as nat);
    assert(g.flattened().unflattened().cells =~= g.cells);
}

/// Flattening an unflattened snapshot gives back the snapshot, and a snapshot with
/// `width * height` cells unflattens to a well-formed board.
pub proof fn lemma_unflat_roundtrip(f: FlatGridModel)
    requires
        f.height > 0,
    ensures
        f.unflattened().flattened() == f,
        f.cells.len() == f.width * f.height && f.col_fill.len() == GRID_COLS ==> f.unflattened().wf(),
{
    lemma_flatten_of_chunks(f.cells, f.height as nat);
    if f.cells.len() == f.width * f.height {
        lemma_chunks_shape(f.cells, f.width as nat, f.height as nat);
    }
}

impl Grid {
    /// A grid whose content is well formed is well formed.
    pub proof fn lemma_wf_from_model(&self)
        requires
            self@.wf(),
        ensures
            self.wf(),
    {
        assert forall|c: int| 0 <= c < self.width implies #[trigger] self.cells@[c]@.len() == self.height by {
            assert(self@.cells[c] == self.cells@[c]@);
        }
    }

    /// `width` columns of `height` cells each.
    pub open spec fn wf(&self) -> bool {
        &&& self.cells@.len() == self.width
        &&& forall|c: int| 0 <= c < self.width ==> #[trigger] self.cells@[c]@.len() == self.height
    }

    /// An empty board of `width` columns and `height` rows.
    pub fn new(width: usize, height: usize) -> (g: Self)
        ensures
            g@ == GridModel::empty(width, height),
            g.wf(),
    {
        let mut cells: Vec<Vec<Cell>> = Vec::new();
        let mut c: usize = 0;
        while c < width
            invariant
                c <= width,
                cells@.len() == c,
                forall|i: int| 0 <= i < c ==> #[trigger] cells@[i]@ == Seq::new(height as nat, |r: int| CELL_EMPTY),
            decreases width - c,
        {
            let mut column: Vec<Cell> = Vec::new();
            let mut r: usize = 0;
            while r < height
                invariant
                    r <= height,
                    column@ == Seq::new(r as nat, |k: int| CELL_EMPTY),
                decreases height - r,
            {
                column.push(CELL_EMPTY);
                r += 1;
                assert(column@ =~= Seq::new(r as nat, |k: int| CELL_EMPTY));
            }
            cells.push(column);
            c += 1;
        }
        let g = Grid { cells, col_fill: [0; GRID_COLS], width, height };
        assert(g@.cells =~= GridModel::empty(width, height).cells);
        assert(g@.col_fill =~= GridModel::empty(width, height).col_fill);
        g
    }

    /// Rebuilds a board from a snapshot by cutting its cells into columns of `height`.
    pub fn from_flat(flat: &FlatGrid) -> (g: Self)
        requires
            flat.height > 0,
        ensures
            g@ == flat@.unflattened(),
    {
        let h = flat.height;
        let n = flat.cells.len();
        let mut cells: Vec<Vec<Cell>> = Vec::new();
        let mut start: usize = 0;
        proof {
            assert(flat.cells@.skip(0) =~= flat.cells@);
            assert(cells@.map_values(|v: Vec<u8>| v@) =~= Seq::<Seq<u8>>::empty());
            assert(Seq::<Seq<u8>>::empty() + chunks(flat.cells@, h as nat) =~= chunks(flat.cells@, h as nat));
        }
        while start < n
            invariant
                h == flat.height,
                h > 0,
                n == flat.cells@.len(),
                start <= n,
                cells@.map_values(|v: Vec<u8>| v@) + chunks(flat.cells@.skip(start as int), h as nat)
                    == chunks(flat.cells@, h as nat),
            decreases n - start,
        {
            let ghost rest = flat.cells@.skip(start as int);
            let end = if n - start <= h {
                n
            } else {
                start + h
            };
            let mut piece: Vec<Cell> = Vec::new();
            let mut i = start;
            while i < end
                invariant
                    start <= i <= end,
                    end <= n,
                    n == flat.cells@.len(),
                    piece@ == flat.cells@.subrange(start as int, i as int),
                decreases end - i,
            {
                piece.push(flat.cells[i]);
                i += 1;
                assert(piece@ =~= flat.cells@.subrange(start as int, i as int));
            }
            let ghost before = cells@.map_values(|v: Vec<u8>| v@);
            cells.push(piece);
            proof {
                assert(cells@.map_values(|v: Vec<u8>| v@) =~= before.push(piece@));
                if n - start <= h {
                    assert(piece@ =~= rest);
                    assert(chunks(rest, h as nat) =~= seq![rest]);
                    assert(flat.cells@.skip(end as int) =~= Seq::<u8>::empty());
                    assert(chunks(flat.cells@.skip(end as int), h as nat) =~= Seq::<Seq<u8>>::empty());
                } else {
                    assert(piece@ =~= rest.take(h as int));
                    assert(rest.skip(h as int) =~= flat.cells@.skip(end as int));
                }
                assert(before.push(piece@) + chunks(flat.cells@.skip(end as int), h as nat) =~= before
                    + chunks(rest, h as nat));
            }
            start = end;
        }
        proof {
            assert(flat.cells@.skip(start as int) =~= Seq::<u8>::empty());
            assert(cells@.map_values(|v: Vec<u8>| v@) =~= chunks(flat.cells@, h as nat));
        }
        Grid { cells, col_fill: flat.col_fill, width: flat.width, height: flat.height }
    }

    /// Whether column `col` has no empty cell left.
    pub fn is_column_full(&self, col: usize) -> (full: bool)
        requires
            col < GRID_COLS,
        ensures
            full == self@.column_full(col as int),
    {
        self.col_fill[col] >= self.height
    }

    /// Whether every column is full (a drawn game).
    pub fn is_full(&self) -> (full: bool)
        ensures
            full == self@.full(),
    {
        let mut c: usize = 0;
        while c < self.width && c < GRID_COLS
            invariant
                c <= GRID_COLS,
                forall|i: int| 0 <= i < c ==> #[trigger] self.col_fill@[i] >= self.height,
            decreases GRID_COLS - c,
        {
            if self.col_fill[c] < self.height {
                assert(self@.col_fill[c as int] < self.height);
                return false;
            }
            c += 1;
        }
        true
    }

    pub fn get_cell(&self, col: usize, row: usize) -> (cell: Cell)
        requires
            self.wf(),
            col < self.width,
            row < self.height,
        ensures
            cell == self@.cells[col as int][row as int],
    {
        self.cells[col][row]
    }

    /// A display-ready disk for the cell, coloured from `player_colors`, or `None` if empty.
    pub fn get_disk(&self, col: usize, row: usize, player_colors: &[(u8, u8, u8); 2]) -> (disk: Option<Disk>)
        requires
            self.wf(),
            col < self.width,
            row < self.height,
            self@.cells[col as int][row as int] <= 2,
        ensures
            ({
                let cell = self@.cells[col as int][row as int];
                if cell == CELL_EMPTY {
                    disk is None
                } else {
                    disk == Some(
                        Disk { player: (cell - 1) as u8, color: player_colors@[cell - 1] },
                    )
                }
            }),
    {
        let cell = self.cells[col][row];
        if cell == CELL_EMPTY {
            return None;
        }
        let player = (cell - 1) as usize;
        Some(Disk { player: player as u8, color: player_colors[player] })
    }

    /// Number of cells matching (col, row) in direction (dc, dr), counted from the next
    /// cell on and capped at three.
    fn run_length(&self, col: usize, row: usize, dc: i8, dr: i8) -> (n: usize)
        requires
            self.wf(),
            col < self.width,
            row < self.height,
            -1 <= dc <= 1,
            -1 <= dr <= 1,
        ensures
            n <= 3,
            forall|k: int| 1 <= k <= n ==> #[trigger] self@.along(col as int, row as int, dc as int, dr as int, k)
                == self@.cell(col as int, row as int),
            n < 3 ==> self@.along(col as int, row as int, dc as int, dr as int, n + 1) != self@.cell(
                col as int,
                row as int,
            ),
    {
        let v = self.cells[col][row];
        let ghost g = self@;
        let mut n: usize = 0;
        let mut c = col;
        let mut r = row;
        while n < 3
            invariant
                self.wf(),
                g == self@,
                v == g.cell(col as int, row as int),
                n <= 3,
                c < self.width,
                r < self.height,
                c as int == offset(col as int, n as int, dc as int),
                r as int == offset(row as int, n as int, dr as int),
                -1 <= dc <= 1,
                -1 <= dr <= 1,
                forall|k: int| 1 <= k <= n ==> #[trigger] g.along(col as int, row as int, dc as int, dr as int, k)
                    == v,
            decreases 3 - n,
        {
            let nc = step(c, dc, self.width);
            let nr = step(r, dr, self.height);
            match (nc, nr) {
                (Some(nc), Some(nr)) => {
                    if self.cells[nc][nr] == v {
                        n += 1;
                        c = nc;
                        r = nr;
                    } else {
                        return n;
                    }
                },
                _ => {
                    return n;
                },
            }
        }
        n
    }

    /// Whether (col, row) lies on four equal cells in direction (dc, dr).
    fn has_line(&self, col: usize, row: usize, dc: i8, dr: i8) -> (b: bool)
        requires
            self.wf(),
            col < self.width,
            row < self.height,
            -1 <= dc <= 1,
            -1 <= dr <= 1,
        ensures
            b == self@.line_through(col as int, row as int, dc as int, dr as int),
    {
        let back = self.run_length(col, row, -dc, -dr);
        let ahead = self.run_length(col, row, dc, dr);
        proof {
            lemma_runs_decide_line(self@, col as int, row as int, dc as int, dr as int, back as int, ahead as int);
        }
        back + ahead >= 3
    }

    /// Whether the disk at (col, row) completes a connect four.
    pub fn check_winner(&self, col: usize, row: usize) -> (won: bool)
        requires
            self.wf(),
            col < self.width,
            row < self.height,
        ensures
            won == self@.wins_at(col as int, row as int),
    {
        let cell = self.cells[col][row];
        if cell == CELL_EMPTY {
            return false;
        }
        self.has_line(col, row, 1, 0) || self.has_line(col, row, 0, 1) || self.has_line(col, row, 1, 1)
            || self.has_line(col, row, 1, -1)
    }

    /// Places a disk of `disk.player` in column `col` and returns the row it landed in.
    pub fn push(&mut self, disk: Disk, col: usize) -> (res: Result<usize, String>)
        requires
            old(self).wf(),
            col < old(self).width ==> col < GRID_COLS,
            col < old(self).width && !old(self)@.column_full(col as int) ==> disk.player < 255,
        ensures
            final(self).wf(),
            res is Ok <==> (col < old(self).width && !old(self)@.column_full(col as int)),
            match res {
                Ok(row) => {
                    &&& row == old(self).col_fill[col as int]
                    &&& final(self)@ == old(self)@.place(col as int, (disk.player + 1) as u8)
                },
                Err(msg) => {
                    &&& final(self)@ == old(self)@
                    &&& if col >= old(self).width {
                        msg@ == "Invalid column"@
                    } else {
                        msg@ == "Column full"@
                    }
                },
            },
    {
        if col >= self.width {
            return Err(String::from_str("Invalid column"));
        }
        if self.is_column_full(col) {
            return Err(String::from_str("Column full"));
        }
        let row = self.col_fill[col];
        let ghost old_g = self@;
        self.cells[col][row] = disk.player + 1;
        self.col_fill[col] += 1;
        proof {
            assert(self@.cells =~= old_g.place(col as int, (disk.player + 1) as u8).cells);
            assert(self@.col_fill =~= old_g.place(col as int, (disk.player + 1) as u8).col_fill);
        }
        Ok(row)
    }

    /// Empties (col, row); when `row` is the topmost disk of the column the fill height
    /// drops by one.
    pub fn remove(&mut self, col: usize, row: usize)
        requires
            old(self).wf(),
            col < old(self).width,
            row < old(self).height,
            col < GRID_COLS,
        ensures
            final(self).wf(),
            final(self)@ == old(self)@.cleared(col as int, row as int),
    {
        let ghost old_g = self@;
        self.cells[col][row] = CELL_EMPTY;
        if self.col_fill[col] > 0 && row == self.col_fill[col] - 1 {
            self.col_fill[col] -= 1;
        }
        proof {
            assert(self@.cells =~= old_g.cleared(col as int, row as int).cells);
            assert(self@.col_fill =~= old_g.cleared(col as int, row as int).col_fill);
        }
    }

    /// A compact snapshot: the columns concatenated in order.
    pub fn to_flat(&self) -> (flat: FlatGrid)
        ensures
            flat@ == self@.flattened(),
    {
        let mut cells: Vec<Cell> = Vec::new();
        let mut c: usize = 0;
        while c < self.cells.len()
            invariant
                c <= self.cells@.len(),
                cells@ == self@.cells.take(c as int).flatten(),
            decreases self.cells@.len() - c,
        {
            let column = &self.cells[c];
            let ghost before = cells@;
            let mut r: usize = 0;
            while r < column.len()
                invariant
                    r <= column@.len(),
                    cells@ == before + column@.take(r as int),
                decreases column@.len() - r,
            {
                cells.push(column[r]);
                r += 1;
                assert(cells@ =~= before + column@.take(r as int));
            }
            proof {
                let cs = self@.cells;
                assert(column@.take(r as int) =~= column@);
                assert(cs.take(c + 1) =~= cs.take(c as int).push(cs[c as int]));
                cs.take(c as int).lemma_flatten_push(cs[c as int]);
            }
            c += 1;
        }
        proof {
            assert(self@.cells.take(c as int) =~= self@.cells);
        }
        FlatGrid { cells, col_fill: self.col_fill, width: self.width, height: self.height }
    }
}

impl Default for Grid {
    /// The standard 7 x 6 board, empty.
    fn default() -> (g: Self)
        ensures
            g@ == GridModel::empty(GRID_COLS, GRID_ROWS),
            g.wf(),
    {
        Self::new(GRID_COLS, GRID_ROWS)
    }
}

} // verus!
