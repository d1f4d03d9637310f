//! One board instance: its grid, where it sits on the terminal, and its outcome.
use vstd::prelude::*;
use vstd::string::StringSliceAdditionalSpecFns;

use crate::disk::{disk_ops, Disk, CELL_EMPTY};
use crate::draw::{ops_view, DrawModel, DrawOp};
use crate::grid::{Grid, GridModel, GRID_COLS, GRID_ROWS};
use crate::sparse::{lines_view, render_texture, texture_ops, SegmentModel, SparseSegment};
use crate::text::{repeat, repeat_spec};
use crate::textures::Textures;
use crate::translate::{clamp_coord, screen_coord, Translate};
use crate::types::GameState;

verus! {

/// What the falling-disk animation of a placed disk needs: the disk, its cell, the
/// height it starts from (just above the terminal, relative to the board) and the
/// height it comes to rest at, both in terminal rows.
#[derive(Clone, Copy, PartialEq, Eq, Debug)]
pub struct Animation {
    pub disk: Disk,
    pub col: usize,
    pub row: usize,
    pub start_y: i64,
    pub target_y: u128,
}

/// The animation of `disk` landing in (col, row).
pub open spec fn fall(
    disk: Disk,
    col: usize,
    row: usize,
    height: usize,
    disk_height: u16,
    translate: Translate,
) -> Animation {
    Animation {
        disk,
        col,
        row,
        start_y: (-translate.y) as i64,
        target_y: ((height - row - 1) * disk_height) as u128,
    }
}

/// The outcome after a disk of `player` landed in (col, row).
pub open spec fn outcome(g: GridModel, col: int, row: int, player: usize) -> GameState {
    if g.wins_at(col, row) {
        GameState::Won(player)
    } else if g.full() {
        GameState::Tie
    } else {
        GameState::Playing
    }
}

pub open spec fn sat_sub(a: int, b: int) -> int {
    if a >= b {
        a - b
    } else {
        0
    }
}

/// A single board centred horizontally and resting on the bottom of the terminal.
pub open spec fn board_translate(term_size: (u16, u16), board_width: u16, board_height: u16) -> Translate {
    Translate {
        x: sat_sub((term_size.0 / 2) as int, (board_width / 2) as int) as i32,
        y: sat_sub(term_size.1 as int, board_height as int) as i32,
    }
}

impl Grid {
    /// The animation of `disk` falling into (col, row).
    pub fn animate_push(
        &self,
        disk: Disk,
        col: usize,
        row: usize,
        textures: &Textures,
        translate: &Translate,
    ) -> (r: Result<Animation, String>)
        requires
            row < self.height,
        ensures
            r == Ok::<Animation, String>(
                fall(disk, col, row, self.height, textures.disk_height, *translate),
            ),
    {
        let rows = (self.height - row - 1) as u128;
        let dh = textures.disk_height as u128;
        assert(rows * dh <= u128::MAX) by (nonlinear_arith)
            requires
                rows <= usize::MAX,
                dh <= u16::MAX,
        ;
        let target_y = rows * dh;
        let start_y = -(translate.y as i64);
        Ok(Animation { disk, col, row, start_y, target_y })
    }
}

/// A board position whose coordinate arithmetic stays far from the `i32` limits.
pub open spec fn on_screen(t: Translate) -> bool {
    0 <= t.x <= 0x10_0000 && 0 <= t.y <= 0x10_0000
}

/// `n` rows blanked: for each row from the top, a move to its start and the blank text.
pub open spec fn blank_rows(n: nat, col: u16, blank: Seq<char>) -> Seq<DrawModel>
    decreases n,
{
    if n == 0 {
        seq![]
    } else {
        blank_rows((n - 1) as nat, col, blank) + seq![DrawModel::MoveTo(col, (n - 1) as u16), DrawModel::Print(blank)]
    }
}

/// The command that blanks the holes of a board line: move over its text, print spaces
/// over its gaps.
pub open spec fn hole_op(seg: SegmentModel) -> DrawModel {
    match seg {
        SegmentModel::Text(s) => DrawModel::MoveRight(s.len() as u16),
        SegmentModel::Skip(n) => DrawModel::Print(repeat_spec(seq![' '], n as nat)),
    }
}

/// `hole_op` over each board line, each followed by a move to the next row.
pub open spec fn hole_ops(lines: Seq<Seq<SegmentModel>>, col: u16) -> Seq<DrawModel>
    decreases lines.len(),
{
    if lines.len() == 0 {
        seq![]
    } else {
        hole_ops(lines.drop_last(), col) + lines.last().map_values(|s: SegmentModel| hole_op(s)) + seq![
            DrawModel::MoveToColumn(col),
            DrawModel::MoveDown(1),
        ]
    }
}

/// Owns the board grid, screen position and outcome of one instance.
pub struct Game {
    pub grid: Grid,
    pub translate: Translate,
    pub state: GameState,
}

impl Game {
    /// What `display_whitespace` draws: blank rows above the board, then spaces over the
    /// board's holes.
    pub open spec fn whitespace_ops(&self, textures: &Textures) -> Seq<DrawModel> {
        let t = self.translate;
        blank_rows(if t.y > 0 { t.y as nat } else { 0 }, screen_coord(t.x as int), textures.whitespace@)
            + seq![DrawModel::MoveTo(screen_coord(t.x as int), screen_coord(t.y as int))]
            + hole_ops(lines_view(textures.parsed_board_lines@), screen_coord(t.x as int))
    }

    /// What `display_board` draws: the board texture at the board position.
    pub open spec fn board_ops(&self, textures: &Textures) -> Seq<DrawModel> {
        let t = self.translate;
        seq![DrawModel::MoveTo(screen_coord(t.x as int), screen_coord(t.y as int))] + texture_ops(
            lines_view(textures.parsed_board_lines@),
            screen_coord(t.x as int),
        )
    }

    /// What `display_disks` draws for cell (x, y): nothing when skipped or empty,
    /// otherwise its disk (dimmed afterwards when the board is inactive).
    pub open spec fn cell_ops(
        &self,
        skip: Seq<Seq<bool>>,
        is_active: bool,
        textures: &Textures,
        colors: [(u8, u8, u8); 2],
        x: int,
        y: int,
    ) -> Seq<DrawModel> {
        let cell = self.grid@.cells[x][y];
        if skip[x][y] || cell == CELL_EMPTY {
            seq![]
        } else {
            disk_ops(
                Disk { player: (cell - 1) as u8, color: colors@[cell - 1] },
                textures.char_x_positions@[x] as int,
                (self.grid.height - y - 1) * textures.disk_height,
                textures,
                self.translate,
            ) + if is_active {
                seq![]
            } else {
                seq![DrawModel::Dim]
            }
        }
    }

    /// The cells of column `x` from row 0 up to (not including) row `rows`.
    pub open spec fn column_ops(
        &self,
        skip: Seq<Seq<bool>>,
        is_active: bool,
        textures: &Textures,
        colors: [(u8, u8, u8); 2],
        x: int,
        rows: nat,
    ) -> Seq<DrawModel>
        decreases rows,
    {
        if rows == 0 {
            seq![]
        } else {
            self.column_ops(skip, is_active, textures, colors, x, (rows - 1) as nat) + self.cell_ops(
                skip,
                is_active,
                textures,
                colors,
                x,
                rows - 1,
            )
        }
    }

    /// The columns from 0 up to (not including) `cols`.
    pub open spec fn disks_ops(
        &self,
        skip: Seq<Seq<bool>>,
        is_active: bool,
        textures: &Textures,
        colors: [(u8, u8, u8); 2],
        cols: nat,
    ) -> Seq<DrawModel>
        decreases cols,
    {
        if cols == 0 {
            seq![]
        } else {
            self.disks_ops(skip, is_active, textures, colors, (cols - 1) as nat) + self.column_ops(
                skip,
                is_active,
                textures,
                colors,
                cols - 1,
                if self.grid.height < GRID_ROWS { self.grid.height as nat } else { GRID_ROWS as nat },
            )
        }
    }

    /// Clears the area above the board and blanks the board's holes, so falling disks
    /// have a clean backdrop.
    pub fn display_whitespace(&self, out: &mut Vec<DrawOp>, textures: &Textures)
        requires
            on_screen(self.translate),
        ensures
            ops_view(final(out)@) == ops_view(old(out)@) + self.whitespace_ops(textures),
    {
        let ghost start = ops_view(out@);
        let t = &self.translate;
        let col = clamp_coord(t.x);
        let mut row: i32 = 0;
        while row < t.y
            invariant
                0 <= row,
                row <= t.y || t.y <= 0,
                row == 0 || row <= t.y,
                on_screen(*t),
                col == screen_coord(t.x as int),
                ops_view(out@) == start + blank_rows(row as nat, col, textures.whitespace@),
            decreases t.y - row,
        {
            let ghost before = ops_view(out@);
            out.push(DrawOp::MoveTo(col, row as u16));
            out.push(DrawOp::Print(textures.whitespace.clone()));
            proof {
                assert(ops_view(out@) =~= before + seq![
                    DrawModel::MoveTo(col, row as u16),
                    DrawModel::Print(textures.whitespace@),
                ]);
                assert(blank_rows((row + 1) as nat, col, textures.whitespace@) == blank_rows(row as nat, col, textures.whitespace@)
                    + seq![DrawModel::MoveTo(col, row as u16), DrawModel::Print(textures.whitespace@)]);
            }
            row += 1;
        }
        let ghost mid = ops_view(out@);
        out.push(t.move_to(0, 0));
        let lines = &textures.parsed_board_lines;
        let ghost lv = lines_view(lines@);
        let ghost mid2 = ops_view(out@);
        proof {
            assert(mid2 =~= mid.push(DrawModel::MoveTo(screen_coord(t.x as int), screen_coord(t.y as int))));
            assert(row as nat == (if t.y > 0 { t.y as nat } else { 0 }));
            assert(mid2 =~= start + blank_rows(row as nat, col, textures.whitespace@) + seq![
                DrawModel::MoveTo(screen_coord(t.x as int), screen_coord(t.y as int)),
            ]);
        }
        let mut i: usize = 0;
        while i < lines.len()
            invariant
                i <= lines@.len(),
                lv == lines_view(lines@),
                col == screen_coord(t.x as int),
                on_screen(*t),
                ops_view(out@) == mid2 + hole_ops(lv.take(i as int), col),
            decreases lines@.len() - i,
        {
            let segs = &lines[i];
            let ghost line_start = ops_view(out@);
            let mut j: usize = 0;
            while j < segs.len()
                invariant
                    j <= segs@.len(),
                    ops_view(out@) == line_start + crate::sparse::segments_view(segs@).take(j as int).map_values(
                        |s: SegmentModel| hole_op(s),
                    ),
                decreases segs@.len() - j,
            {
                let ghost before = ops_view(out@);
                match &segs[j] {
                    SparseSegment::Text(s) => {
                        let n = s.unicode_len();
                        out.push(DrawOp::MoveRight(n as u16));
                    },
                    SparseSegment::Skip(n) => {
                        proof {
                            reveal_strlit(" ");
                            assert(" "@ =~= seq![' ']);
                            let b = " ".spec_bytes().len();
                            assert(b <= 4) by {
                                crate::text::lemma_utf8_len_at_most_4x(" "@);
                            }
                            assert(b * (*n as int) <= usize::MAX) by (nonlinear_arith)
                                requires
                                    b <= 4,
                                    *n <= u16::MAX,
                            ;
                        }
                        out.push(DrawOp::Print(repeat(" ", *n as usize)));
                    },
                }
                proof {
                    let sv = crate::sparse::segments_view(segs@);
                    assert(sv.take(j + 1) =~= sv.take(j as int).push(sv[j as int]));
                    assert(ops_view(out@) =~= before.push(hole_op(sv[j as int])));
                    assert(sv.take(j + 1).map_values(|s: SegmentModel| hole_op(s)) =~= sv.take(j as int).map_values(
                        |s: SegmentModel| hole_op(s),
                    ).push(hole_op(sv[j as int])));
                }
                j += 1;
            }
            let ghost after_line = ops_view(out@);
            out.push(t.move_to_column(0));
            out.push(DrawOp::MoveDown(1));
            proof {
                let sv = crate::sparse::segments_view(segs@);
                assert(sv.take(j as int) =~= sv);
                assert(lv.take(i + 1).drop_last() =~= lv.take(i as int));
                assert(lv.take(i + 1).last() == sv);
                assert(ops_view(out@) =~= after_line + seq![DrawModel::MoveToColumn(col), DrawModel::MoveDown(1)]);
                assert(ops_view(out@) =~= mid2 + hole_ops(lv.take(i + 1), col));
            }
            i += 1;
        }
        proof {
            assert(lv.take(i as int) =~= lv);
            assert(row as nat == (if t.y > 0 { t.y as nat } else { 0 }));
            assert(ops_view(out@) =~= start + self.whitespace_ops(textures));
        }
    }

    /// Draws the board texture (walls and holes) on top of everything.
    pub fn display_board(&self, out: &mut Vec<DrawOp>, textures: &Textures)
        requires
            on_screen(self.translate),
        ensures
            ops_view(final(out)@) == ops_view(old(out)@) + self.board_ops(textures),
    {
        let ghost start = ops_view(out@);
        out.push(self.translate.move_to(0, 0));
        let ghost mid = ops_view(out@);
        render_texture(out, &textures.parsed_board_lines, &self.translate, 0);
        proof {
            assert(ops_view(out@) =~= start + self.board_ops(textures));
        }
    }

    /// Draws the disks on the board, leaving out the cells marked in `skip` (those with a
    /// running animation).
    pub fn display_disks(
        &self,
        out: &mut Vec<DrawOp>,
        skip: &[[bool; GRID_ROWS]; GRID_COLS],
        is_active: bool,
        textures: &Textures,
        colors: &[(u8, u8, u8); 2],
    )
        requires
            self.grid.wf(),
            self.grid@.cells_valid(),
            textures.wf(),
            on_screen(self.translate),
            self.grid.height * textures.disk_height <= 0x4000_0000,
            textures.char_x_positions@.len() >= if self.grid.width < GRID_COLS { self.grid.width as int } else { GRID_COLS as int },
        ensures
            ops_view(final(out)@) == ops_view(old(out)@) + self.disks_ops(
                skip@.map_values(|r: [bool; GRID_ROWS]| r@),
                is_active,
                textures,
                *colors,
                if self.grid.width < GRID_COLS { self.grid.width as nat } else { GRID_COLS as nat },
            ),
    {
        let ghost start = ops_view(out@);
        let ghost sk = skip@.map_values(|r: [bool; GRID_ROWS]| r@);
        let ncols = if self.grid.width < GRID_COLS { self.grid.width } else { GRID_COLS };
        let nrows = if self.grid.height < GRID_ROWS { self.grid.height } else { GRID_ROWS };
        let mut x: usize = 0;
        while x < ncols
            invariant
                x <= ncols,
                ncols <= GRID_COLS,
                ncols <= self.grid.width,
                nrows <= GRID_ROWS,
                nrows <= self.grid.height,
                nrows == (if self.grid.height < GRID_ROWS { self.grid.height } else { GRID_ROWS }),
                sk == skip@.map_values(|r: [bool; GRID_ROWS]| r@),
                self.grid.wf(),
                self.grid@.cells_valid(),
                textures.wf(),
                on_screen(self.translate),
                self.grid.height * textures.disk_height <= 0x4000_0000,
                textures.char_x_positions@.len() >= ncols,
                ops_view(out@) == start + self.disks_ops(sk, is_active, textures, *colors, x as nat),
            decreases ncols - x,
        {
            let char_x = textures.char_x_positions[x];
            let ghost col_start = ops_view(out@);
            let mut y: usize = 0;
            while y < nrows
                invariant
                    x < ncols,
                    ncols <= GRID_COLS,
                    ncols <= self.grid.width,
                    y <= nrows,
                    nrows <= GRID_ROWS,
                    nrows <= self.grid.height,
                    sk == skip@.map_values(|r: [bool; GRID_ROWS]| r@),
                    self.grid.wf(),
                    self.grid@.cells_valid(),
                    textures.wf(),
                    on_screen(self.translate),
                    self.grid.height * textures.disk_height <= 0x4000_0000,
                    char_x == textures.char_x_positions@[x as int],
                    0 <= char_x <= u16::MAX,
                    ops_view(out@) == col_start + self.column_ops(sk, is_active, textures, *colors, x as int, y as nat),
                decreases nrows - y,
            {
                let ghost before = ops_view(out@);
                proof {
                    assert(sk[x as int][y as int] == skip[x as int][y as int]);
                    assert(self.grid@.cells[x as int][y as int] <= 2);
                }
                if !skip[x][y] {
                    if let Some(disk) = self.grid.get_disk(x, y, colors) {
                        let rows_below = self.grid.height - y - 1;
                        proof {
                            let dh = textures.disk_height as int;
                            let v = (rows_below as i32) as int;
                            if dh > 0 {
                                assert(rows_below * dh <= self.grid.height * dh) by (nonlinear_arith)
                                    requires
                                        rows_below <= self.grid.height,
                                        dh >= 0,
                                ;
                                assert(rows_below <= rows_below * dh) by (nonlinear_arith)
                                    requires
                                        dh >= 1,
                                        rows_below >= 0,
                                ;
                                assert(v == rows_below);
                                assert(v * dh <= 0x4000_0000);
                                assert(v * dh >= 0) by (nonlinear_arith)
                                    requires
                                        v >= 0,
                                        dh >= 0,
                                ;
                            } else {
                                assert(v * dh == 0) by (nonlinear_arith)
                                    requires
                                        dh == 0,
                                ;
                            }
                        }
                        let char_y = (rows_below as i32) * textures.disk_height_i32;
                        proof {
                            let dh = textures.disk_height as int;
                            if dh == 0 {
                                assert(rows_below * dh == 0) by (nonlinear_arith)
                                    requires
                                        dh == 0,
                                ;
                            }
                            assert(char_y as int == (self.grid.height - y - 1) * textures.disk_height);
                        }
                        let ghost before_disk = ops_view(out@);
                        disk.display(out, char_x, char_y, textures, &self.translate);
                        let ghost after_disk = ops_view(out@);
                        if !is_active {
                            out.push(DrawOp::Dim);
                        }
                        proof {
                            let cell = self.grid@.cells[x as int][y as int];
                            assert(cell != CELL_EMPTY);
                            assert(disk == Disk { player: (cell - 1) as u8, color: colors@[cell - 1] });
                            assert(after_disk == before + disk_ops(disk, char_x as int, char_y as int, textures, self.translate));
                            if is_active {
                                assert(ops_view(out@) == after_disk);
                            } else {
                                assert(ops_view(out@) =~= after_disk.push(DrawModel::Dim));
                            }
                        }
                    }
                }
                proof {
                    assert(ops_view(out@) =~= before + self.cell_ops(sk, is_active, textures, *colors, x as int, y as int));
                }
                y += 1;
            }
            proof {
                assert(ops_view(out@) =~= start + self.disks_ops(sk, is_active, textures, *colors, (x + 1) as nat));
            }
            x += 1;
        }
    }

    /// A fresh game on the standard board, placed for the given terminal size.
    pub fn new(term_size: (u16, u16), textures: &Textures) -> (g: Self)
        ensures
            g.grid@ == GridModel::empty(GRID_COLS, GRID_ROWS),
            g.grid.wf(),
            g.translate == board_translate(term_size, textures.board_width, textures.board_height),
            g.state == GameState::Playing,
    {
        let mut new = Self { grid: Grid::default(), translate: Translate::new(0, 0), state: GameState::Playing };
        new.update_translate(term_size, textures);
        new
    }

    /// A fresh game on the standard board at a given position.
    pub fn at(translate: Translate) -> (g: Self)
        ensures
            g.grid@ == GridModel::empty(GRID_COLS, GRID_ROWS),
            g.grid.wf(),
            g.translate == translate,
            g.state == GameState::Playing,
    {
        Self { grid: Grid::default(), translate, state: GameState::Playing }
    }

    /// Recomputes the screen position from the terminal size.
    pub fn update_translate(&mut self, term_size: (u16, u16), textures: &Textures)
        ensures
            final(self).translate == board_translate(term_size, textures.board_width, textures.board_height),
            final(self).grid == old(self).grid,
            final(self).state == old(self).state,
    {
        let (width, height) = term_size;
        let half = width / 2;
        let half_board = textures.board_width / 2;
        let right = if half >= half_board {
            half - half_board
        } else {
            0
        };
        let bottom = if height >= textures.board_height {
            height - textures.board_height
        } else {
            0
        };
        self.translate = Translate::new(right as i32, bottom as i32);
    }

    /// Places `disk` in `col`, records the outcome in `state` and returns the animation of
    /// the fall; the grid and state stay as they were when the column is invalid or full.
    pub fn drop_animated(&mut self, disk: Disk, col: usize, textures: &Textures) -> (r: Result<Animation, String>)
        requires
            old(self).grid.wf(),
            col < old(self).grid.width ==> col < GRID_COLS,
            disk.player < 255,
        ensures
            final(self).grid.wf(),
            final(self).translate == old(self).translate,
            r is Ok <==> (col < old(self).grid.width && !old(self).grid@.column_full(col as int)),
            match r {
                Ok(anim) => {
                    let row = old(self).grid.col_fill[col as int];
                    &&& final(self).grid@ == old(self).grid@.place(col as int, (disk.player + 1) as u8)
                    &&& anim == fall(disk, col, row, old(self).grid.height, textures.disk_height, old(self).translate)
                    &&& final(self).state == outcome(final(self).grid@, col as int, row as int, disk.player as usize)
                    &&& (final(self).state == GameState::Won(disk.player as usize)) == final(self).grid@.wins_at(
                        col as int,
                        row as int,
                    )
                    &&& (final(self).state == GameState::Tie) == (!final(self).grid@.wins_at(col as int, row as int)
                        && final(self).grid@.full())
                    &&& (final(self).state == GameState::Playing) == (!final(self).grid@.wins_at(
                        col as int,
                        row as int,
                    ) && !final(self).grid@.full())
                },
                Err(msg) => {
                    &&& final(self).grid@ == old(self).grid@
                    &&& final(self).state == old(self).state
                    &&& if col >= old(self).grid.width {
                        msg@ == "Invalid column"@
                    } else {
                        msg@ == "Column full"@
                    }
                },
            },
    {
        let row = match self.grid.push(disk, col) {
            Ok(row) => row,
            Err(e) => return Err(e),
        };
        let animator = match self.grid.animate_push(disk, col, row, textures, &self.translate) {
            Ok(a) => a,
            Err(e) => return Err(e),
        };
        self.state = if self.grid.check_winner(col, row) {
            GameState::Won(disk.player as usize)
        } else if self.grid.is_full() {
            GameState::Tie
        } else {
            GameState::Playing
        };
        Ok(animator)
    }
}

} // verus!
