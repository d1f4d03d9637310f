//! All mutable state of one game instance, with its undo/redo history.
use vstd::prelude::*;

use crate::config::Context;
use crate::disk::{Disk, CELL_EMPTY};
use crate::game::{fall, outcome, Animation, Game};
use crate::grid::{
    lemma_chunks_bounded, lemma_flatten_uniform, lemma_unflat_roundtrip, FlatGridModel, Grid,
    GridModel, GRID_COLS, GRID_ROWS,
};
use crate::strings::Strings;
use crate::text::{decimal, u32_to_string, usize_to_string};
use crate::translate::Translate;
use crate::types::{
    history_view, ActionBanner, GameState, HistoryEntry, HistoryModel, MoveRecord, ResetSnapshot,
    SnapshotModel,
};

verus! {

/// All mutable state of one instance; `game.state` holds the outcome.
pub struct Runtime {
    pub game: Game,
    pub current_player: usize,
    pub selected_col: usize,
    pub scores: Vec<u32>,
    /// One rendered score line per player, rebuilt whenever a score changes.
    pub score_strings: Vec<String>,
    /// The falling-disk animation of each cell, `[col][row]`.
    pub animators: [[Option<Animation>; GRID_ROWS]; GRID_COLS],
    pub confirm_reset: bool,
    pub history: Vec<HistoryEntry>,
    pub redo_stack: Vec<HistoryEntry>,
    pub action_banner: Option<ActionBanner>,
    pub show_cursor: bool,
    pub dirty: bool,
}

/// The mathematical content of a `Runtime`, without its cached score lines.
#[verifier::ext_equal]
pub struct RuntimeModel {
    pub grid: GridModel,
    pub translate: Translate,
    pub state: GameState,
    pub current_player: usize,
    pub selected_col: usize,
    pub scores: Seq<u32>,
    pub animators: Seq<Seq<Option<Animation>>>,
    pub confirm_reset: bool,
    pub history: Seq<HistoryModel>,
    pub redo: Seq<HistoryModel>,
    pub banner: Option<ActionBanner>,
    pub show_cursor: bool,
    pub dirty: bool,
}

/// The part of an instance that undo and redo bring back: the board, its outcome,
/// whose turn it is and the scores.
#[verifier::ext_equal]
pub struct Position {
    pub grid: GridModel,
    pub state: GameState,
    pub current_player: usize,
    pub scores: Seq<u32>,
}

/// No cell animating.
pub open spec fn no_animations() -> Seq<Seq<Option<Animation>>> {
    Seq::new(GRID_COLS as nat, |c: int| Seq::new(GRID_ROWS as nat, |r: int| None::<Animation>))
}

/// The score line of each player: the `score.entry` template filled with the player's
/// number (from 1) and score.
pub open spec fn score_lines(strings: &Strings, scores: Seq<u32>) -> Seq<Seq<char>> {
    Seq::new(
        scores.len(),
        |i: int| strings.fmt_spec("score.entry"@, seq![decimal((i + 1) as nat), decimal(scores[i] as nat)]),
    )
}

pub open spec fn state_wf(s: GameState) -> bool {
    s matches GameState::Won(p) ==> p < 2
}

/// A snapshot of a standard board with two players.
pub open spec fn snapshot_wf(s: SnapshotModel) -> bool {
    &&& s.grid.width == GRID_COLS
    &&& s.grid.height == GRID_ROWS
    &&& s.grid.cells.len() == GRID_COLS * GRID_ROWS
    &&& s.grid.col_fill.len() == GRID_COLS
    &&& forall|c: int| 0 <= c < GRID_COLS ==> #[trigger] s.grid.col_fill[c] <= GRID_ROWS
    &&& forall|i: int| 0 <= i < s.grid.cells.len() ==> #[trigger] s.grid.cells[i] <= 2
    &&& s.current_player < 2
    &&& s.scores.len() == 2
    &&& state_wf(s.state)
}

pub open spec fn entry_wf(e: HistoryModel) -> bool {
    match e {
        HistoryModel::Move(m) => m.col < GRID_COLS && m.row < GRID_ROWS && m.player < 2,
        HistoryModel::Reset(s) => snapshot_wf(s),
    }
}

pub open spec fn entries_wf(es: Seq<HistoryModel>) -> bool {
    forall|i: int| 0 <= i < es.len() ==> #[trigger] entry_wf(es[i])
}

/// The standard board, two players: a score each, cells 0..2, fill heights within the
/// board, animations only on occupied cells, and history entries of the same shape.
pub open spec fn grid_ok(g: GridModel) -> bool {
    &&& g.wf()
    &&& g.width == GRID_COLS
    &&& g.height == GRID_ROWS
    &&& g.cells_valid()
    &&& forall|c: int| 0 <= c < GRID_COLS ==> #[trigger] g.col_fill[c] <= GRID_ROWS
}

impl RuntimeModel {
    pub open spec fn wf(self) -> bool {
        &&& grid_ok(self.grid)
        &&& self.current_player < 2
        &&& self.selected_col < GRID_COLS
        &&& self.scores.len() == 2
        &&& state_wf(self.state)
        &&& self.animators.len() == GRID_COLS
        &&& forall|c: int| 0 <= c < GRID_COLS ==> #[trigger] self.animators[c].len() == GRID_ROWS
        &&& forall|c: int, r: int|
            0 <= c < GRID_COLS && 0 <= r < GRID_ROWS && #[trigger] self.animators[c][r] is Some
                ==> self.grid.cells[c][r] != CELL_EMPTY && self.animators[c][r]->0.col == c
        &&& entries_wf(self.history)
        &&& entries_wf(self.redo)
        &&& (self.banner matches Some(ActionBanner::Placement { player, col, .. }) ==> player < 2 && col < GRID_COLS)
    }

    pub open spec fn position(self) -> Position {
        Position {
            grid: self.grid,
            state: self.state,
            current_player: self.current_player,
            scores: self.scores,
        }
    }

    /// What a reset saves: the flattened board, the turn, the outcome and the scores.
    pub open spec fn snapshot(self) -> SnapshotModel {
        SnapshotModel {
            grid: self.grid.flattened(),
            current_player: self.current_player,
            state: self.state,
            scores: self.scores,
        }
    }

    /// Back to the position a snapshot saved, with no animation running.
    pub open spec fn restored(self, snap: SnapshotModel) -> RuntimeModel {
        RuntimeModel {
            grid: snap.grid.unflattened(),
            state: snap.state,
            current_player: snap.current_player,
            scores: snap.scores,
            animators: no_animations(),
            confirm_reset: false,
            ..self
        }
    }

    /// Undo: take the last history entry back and put it on the redo stack.
    /// A move is removed from the board (the winner's point is taken back when it won);
    /// a reset brings back the saved position, saving the current one for redo.
    pub open spec fn undone(self) -> RuntimeModel {
        if self.history.len() == 0 {
            RuntimeModel { confirm_reset: false, ..self }
        } else {
            match self.history.last() {
                HistoryModel::Move(rec) => {
                    let scores = match self.state {
                        GameState::Won(p) => if self.scores[p as int] > 0 {
                            self.scores.update(p as int, (self.scores[p as int] - 1) as u32)
                        } else {
                            self.scores
                        },
                        _ => self.scores,
                    };
                    RuntimeModel {
                        animators: self.animators.update(
                            rec.col as int,
                            self.animators[rec.col as int].update(rec.row as int, None),
                        ),
                        grid: self.grid.cleared(rec.col as int, rec.row as int),
                        scores,
                        state: GameState::Playing,
                        current_player: rec.player,
                        history: self.history.drop_last(),
                        redo: self.redo.push(HistoryModel::Move(rec)),
                        banner: Some(ActionBanner::Placement { player: rec.player, col: rec.col, is_redo: false }),
                        confirm_reset: false,
                        dirty: true,
                        ..self
                    }
                },
                HistoryModel::Reset(snap) => RuntimeModel {
                    redo: self.redo.push(HistoryModel::Reset(self.snapshot())),
                    history: self.history.drop_last(),
                    banner: Some(ActionBanner::Reset { is_redo: false }),
                    dirty: true,
                    ..self.restored(snap)
                },
            }
        }
    }

    /// Redo: replay the last redo entry and put it back on the history. A move is
    /// placed again (its outcome recomputed, the winner scoring, the turn passing while
    /// the game goes on) and animated; a reset brings back its saved position, saving the
    /// current one for undo.
    pub open spec fn redone(self, colors: [(u8, u8, u8); 2], disk_height: u16) -> RuntimeModel {
        if self.redo.len() == 0 {
            RuntimeModel { confirm_reset: false, ..self }
        } else {
            match self.redo.last() {
                HistoryModel::Move(rec) => {
                    let disk = Disk { player: rec.player as u8, color: colors@[rec.player as int] };
                    let grid = self.grid.put(rec.col as int, rec.row as int, (rec.player + 1) as u8);
                    let state = outcome(grid, rec.col as int, rec.row as int, rec.player);
                    RuntimeModel {
                        grid,
                        state,
                        scores: match state {
                            GameState::Won(p) => self.scores.update(p as int, (self.scores[p as int] + 1) as u32),
                            _ => self.scores,
                        },
                        current_player: if state == GameState::Playing {
                            (1 - rec.player) as usize
                        } else {
                            self.current_player
                        },
                        animators: self.animators.update(
                            rec.col as int,
                            self.animators[rec.col as int].update(
                                rec.row as int,
                                Some(fall(disk, rec.col, rec.row, self.grid.height, disk_height, self.translate)),
                            ),
                        ),
                        banner: Some(ActionBanner::Placement { player: rec.player, col: rec.col, is_redo: true }),
                        selected_col: rec.col,
                        show_cursor: false,
                        history: self.history.push(HistoryModel::Move(rec)),
                        redo: self.redo.drop_last(),
                        confirm_reset: false,
                        dirty: true,
                        ..self
                    }
                },
                HistoryModel::Reset(snap) => RuntimeModel {
                    history: self.history.push(HistoryModel::Reset(self.snapshot())),
                    redo: self.redo.drop_last(),
                    banner: Some(ActionBanner::Reset { is_redo: true }),
                    dirty: true,
                    ..self.restored(snap)
                },
            }
        }
    }

    /// Soft reset: save the position on the history (so it can be undone), clear the redo
    /// stack and start an empty board with player 1 to move; scores are kept.
    pub open spec fn reset(self) -> RuntimeModel {
        RuntimeModel {
            history: self.history.push(HistoryModel::Reset(self.snapshot())),
            redo: seq![],
            grid: GridModel::empty(GRID_COLS, GRID_ROWS),
            state: GameState::Playing,
            current_player: 0,
            selected_col: 0,
            animators: no_animations(),
            confirm_reset: false,
            banner: None,
            show_cursor: true,
            dirty: true,
            ..self
        }
    }

    /// Hard reset: an empty board, zero scores and no history to undo.
    pub open spec fn hard_reset(self) -> RuntimeModel {
        RuntimeModel {
            grid: GridModel::empty(GRID_COLS, GRID_ROWS),
            state: GameState::Playing,
            current_player: 0,
            selected_col: 0,
            scores: seq![0u32, 0u32],
            animators: no_animations(),
            confirm_reset: false,
            history: seq![],
            redo: seq![],
            banner: None,
            show_cursor: true,
            dirty: true,
            ..self
        }
    }

    /// A fresh instance at `translate`: empty board, player 1 to move, zero scores, no
    /// history, nothing animating, cursor shown.
    pub open spec fn fresh(translate: Translate) -> RuntimeModel {
        RuntimeModel {
            grid: GridModel::empty(GRID_COLS, GRID_ROWS),
            translate,
            state: GameState::Playing,
            current_player: 0,
            selected_col: 0,
            scores: seq![0u32, 0u32],
            animators: no_animations(),
            confirm_reset: false,
            history: seq![],
            redo: seq![],
            banner: None,
            show_cursor: true,
            dirty: true,
        }
    }

    /// Whether any disk is on the board.
    pub open spec fn has_pieces(self) -> bool {
        exists|c: int| 0 <= c < GRID_COLS && #[trigger] self.grid.col_fill[c] > 0
    }

    /// Whether dropping a disk of the current player in `col` completes a line of four.
    pub open spec fn drop_wins(self, col: usize) -> bool {
        &&& col < self.grid.width
        &&& !self.grid.column_full(col as int)
        &&& self.grid.place(col as int, (self.current_player + 1) as u8).wins_at(
            col as int,
            self.grid.col_fill[col as int] as int,
        )
    }

    /// Whether redoing the top of the redo stack replays a move that completes a line of
    /// four, and the player whose move it is.
    pub open spec fn redo_wins(self) -> Option<usize> {
        if self.redo.len() > 0 {
            match self.redo.last() {
                HistoryModel::Move(r) => if self.grid.put(r.col as int, r.row as int, (r.player + 1) as u8).wins_at(
                    r.col as int,
                    r.row as int,
                ) {
                    Some(r.player)
                } else {
                    None
                },
                _ => None,
            }
        } else {
            None
        }
    }

    /// A win that a drop or a redo could bring has a score to add to: the only moves that
    /// count up a score are winning ones.
    pub open spec fn score_room(self) -> bool {
        &&& forall|c: usize| #[trigger] self.drop_wins(c) ==> self.scores[self.current_player as int] < u32::MAX
        &&& (self.redo_wins() matches Some(p) ==> self.scores[p as int] < u32::MAX)
    }

    /// Whether the top of the redo stack is the move of the current player in `col`.
    pub open spec fn redo_matches(self, col: usize) -> bool {
        &&& self.redo.len() > 0
        &&& self.redo.last() matches HistoryModel::Move(r)
        &&& r.col == col
        &&& r.player == self.current_player
    }

    /// Dropping a disk of the current player in `col`: the confirm prompt and banner go
    /// away; the redo stack loses its top when that top is this very move and is cleared
    /// otherwise. When the column takes the disk, the disk is placed and animated, the move
    /// goes on the history, the outcome is recomputed, a win scores and a game that goes
    /// on passes the turn. Also says whether the disk was placed.
    pub open spec fn dropped(self, col: usize, colors: [(u8, u8, u8); 2], disk_height: u16) -> (RuntimeModel, bool) {
        let base = RuntimeModel {
            confirm_reset: false,
            banner: None,
            redo: if self.redo_matches(col) {
                self.redo.drop_last()
            } else {
                seq![]
            },
            ..self
        };
        if col >= self.grid.width || self.grid.column_full(col as int) {
            (base, false)
        } else {
            let p = self.current_player;
            let row = self.grid.col_fill[col as int];
            let disk = Disk { player: p as u8, color: colors@[p as int] };
            let grid = self.grid.place(col as int, (p + 1) as u8);
            let state = outcome(grid, col as int, row as int, p);
            (
                RuntimeModel {
                    grid,
                    state,
                    selected_col: col,
                    animators: self.animators.update(
                        col as int,
                        self.animators[col as int].update(
                            row as int,
                            Some(fall(disk, col, row, self.grid.height, disk_height, self.translate)),
                        ),
                    ),
                    history: self.history.push(HistoryModel::Move(MoveRecord { col, row, player: p })),
                    scores: match state {
                        GameState::Won(w) => self.scores.update(w as int, (self.scores[w as int] + 1) as u32),
                        _ => self.scores,
                    },
                    current_player: if state == GameState::Playing {
                        (1 - p) as usize
                    } else {
                        p
                    },
                    show_cursor: false,
                    dirty: true,
                    ..base
                },
                true,
            )
        }
    }
}

/// A flattened standard board is a valid snapshot grid.
proof fn lemma_snapshot_of_grid(g: GridModel)
    requires
        grid_ok(g),
    ensures
        g.flattened().cells.len() == GRID_COLS * GRID_ROWS,
        forall|i: int| 0 <= i < g.flattened().cells.len() ==> #[trigger] g.flattened().cells[i] <= 2,
{
    lemma_flatten_uniform(g.cells, GRID_ROWS as nat, 2);
}

/// A valid snapshot grid unflattens to a standard board.
proof fn lemma_grid_of_snapshot(s: SnapshotModel)
    requires
        snapshot_wf(s),
    ensures
        grid_ok(s.grid.unflattened()),
{
    lemma_unflat_roundtrip(s.grid);
    lemma_chunks_bounded(s.grid.cells, GRID_ROWS as nat, 2);
}

/// Undo keeps the model invariant.
pub proof fn lemma_undo_wf(m: RuntimeModel)
    requires
        m.wf(),
    ensures
        m.undone().wf(),
{
    let n = m.undone();
    if m.history.len() > 0 {
        assert(entry_wf(m.history[m.history.len() - 1]));
        match m.history.last() {
            HistoryModel::Move(rec) => {
                assert forall|c: int, r: int|
                    0 <= c < GRID_COLS && 0 <= r < GRID_ROWS && #[trigger] n.animators[c][r] is Some
                        implies n.grid.cells[c][r] != CELL_EMPTY by {
                    assert(m.animators[c][r] is Some);
                }
                assert forall|i: int| 0 <= i < n.redo.len() implies #[trigger] entry_wf(n.redo[i]) by {
                    if i < m.redo.len() {
                        assert(n.redo[i] == m.redo[i]);
                    }
                }
                assert forall|i: int| 0 <= i < n.history.len() implies #[trigger] entry_wf(n.history[i]) by {
                    assert(n.history[i] == m.history[i]);
                }
                assert forall|c: int, r: int| 0 <= c < n.grid.width && 0 <= r < n.grid.height implies #[trigger] n.grid.cells[c][r] <= 2 by {
                    assert(m.grid.cells[c][r] <= 2);
                }
            },
            HistoryModel::Reset(snap) => {
                lemma_grid_of_snapshot(snap);
                lemma_snapshot_of_grid(m.grid);
                assert forall|i: int| 0 <= i < n.redo.len() implies #[trigger] entry_wf(n.redo[i]) by {
                    if i < m.redo.len() {
                        assert(n.redo[i] == m.redo[i]);
                    }
                }
                assert forall|i: int| 0 <= i < n.history.len() implies #[trigger] entry_wf(n.history[i]) by {
                    assert(n.history[i] == m.history[i]);
                }
            },
        }
    }
}

/// Dropping a disk keeps the model invariant.
pub proof fn lemma_drop_wf(m: RuntimeModel, col: usize, colors: [(u8, u8, u8); 2], disk_height: u16)
    requires
        m.wf(),
    ensures
        m.dropped(col, colors, disk_height).0.wf(),
{
    let n = m.dropped(col, colors, disk_height).0;
    assert forall|i: int| 0 <= i < n.redo.len() implies #[trigger] entry_wf(n.redo[i]) by {
        assert(n.redo[i] == m.redo[i]);
    }
    if !(col >= m.grid.width || m.grid.column_full(col as int)) {
        let row = m.grid.col_fill[col as int];
        assert forall|c: int, r: int|
            0 <= c < GRID_COLS && 0 <= r < GRID_ROWS && #[trigger] n.animators[c][r] is Some
                implies n.grid.cells[c][r] != CELL_EMPTY by {
            if c != col || r != row {
                assert(m.animators[c][r] is Some);
            }
        }
        assert forall|i: int| 0 <= i < n.history.len() implies #[trigger] entry_wf(n.history[i]) by {
            if i < m.history.len() {
                assert(n.history[i] == m.history[i]);
            }
        }
        assert forall|c: int, r: int| 0 <= c < n.grid.width && 0 <= r < n.grid.height implies #[trigger] n.grid.cells[c][r] <= 2 by {
            assert(m.grid.cells[c][r] <= 2);
        }
    }
}

/// Redo keeps the model invariant.
pub proof fn lemma_redo_wf(m: RuntimeModel, colors: [(u8, u8, u8); 2], disk_height: u16)
    requires
        m.wf(),
    ensures
        m.redone(colors, disk_height).wf(),
{
    let n = m.redone(colors, disk_height);
    if m.redo.len() > 0 {
        assert(entry_wf(m.redo[m.redo.len() - 1]));
        match m.redo.last() {
            HistoryModel::Move(rec) => {
                assert forall|c: int, r: int|
                    0 <= c < GRID_COLS && 0 <= r < GRID_ROWS && #[trigger] n.animators[c][r] is Some
                        implies n.grid.cells[c][r] != CELL_EMPTY by {
                    if c != rec.col || r != rec.row {
                        assert(m.animators[c][r] is Some);
                    }
                }
                assert forall|i: int| 0 <= i < n.history.len() implies #[trigger] entry_wf(n.history[i]) by {
                    if i < m.history.len() {
                        assert(n.history[i] == m.history[i]);
                    }
                }
                assert forall|i: int| 0 <= i < n.redo.len() implies #[trigger] entry_wf(n.redo[i]) by {
                    assert(n.redo[i] == m.redo[i]);
                }
                assert forall|c: int, r: int| 0 <= c < n.grid.width && 0 <= r < n.grid.height implies #[trigger] n.grid.cells[c][r] <= 2 by {
                    assert(m.grid.cells[c][r] <= 2);
                }
            },
            HistoryModel::Reset(snap) => {
                lemma_grid_of_snapshot(snap);
                lemma_snapshot_of_grid(m.grid);
                assert forall|i: int| 0 <= i < n.history.len() implies #[trigger] entry_wf(n.history[i]) by {
                    if i < m.history.len() {
                        assert(n.history[i] == m.history[i]);
                    }
                }
                assert forall|i: int| 0 <= i < n.redo.len() implies #[trigger] entry_wf(n.redo[i]) by {
                    assert(n.redo[i] == m.redo[i]);
                }
            },
        }
    }
}

impl View for Runtime {
    type V = RuntimeModel;

    open spec fn view(&self) -> RuntimeModel {
        RuntimeModel {
            grid: self.game.grid@,
            translate: self.game.translate,
            state: self.game.state,
            current_player: self.current_player,
            selected_col: self.selected_col,
            scores: self.scores@,
            animators: self.animators@.map_values(|a: [Option<Animation>; GRID_ROWS]| a@),
            confirm_reset: self.confirm_reset,
            history: history_view(self.history@),
            redo: history_view(self.redo_stack@),
            banner: self.action_banner,
            show_cursor: self.show_cursor,
            dirty: self.dirty,
        }
    }
}

/// Builds the score line of each player.
fn build_score_strings(scores: &Vec<u32>, strings: &Strings) -> (lines: Vec<String>)
    ensures
        lines@.map_values(|s: String| s@) == score_lines(strings, scores@),
{
    let mut lines: Vec<String> = Vec::new();
    let mut i: usize = 0;
    while i < scores.len()
        invariant
            i <= scores@.len(),
            lines@.map_values(|s: String| s@) == score_lines(strings, scores@).take(i as int),
        decreases scores@.len() - i,
    {
        let number = usize_to_string(i + 1);
        let score = u32_to_string(scores[i]);
        let args: Vec<&str> = vec![number.as_str(), score.as_str()];
        let line = strings.fmt("score.entry", args.as_slice());
        let ghost before = lines@.map_values(|s: String| s@);
        lines.push(line);
        proof {
            assert(args@.map_values(|a: &str| a@) =~= seq![decimal((i + 1) as nat), decimal(scores@[i as int] as nat)]);
            assert(lines@.map_values(|s: String| s@) =~= before.push(line@));
            assert(score_lines(strings, scores@).take(i + 1) =~= score_lines(strings, scores@).take(i as int).push(
                line@,
            ));
        }
        i += 1;
    }
    proof {
        assert(score_lines(strings, scores@).take(i as int) =~= score_lines(strings, scores@));
    }
    lines
}

impl Runtime {
    /// The model holds its invariant and the grid its shape.
    pub open spec fn ok(&self) -> bool {
        &&& self@.wf()
        &&& self.game.grid.wf()
    }

    /// `ok`, and the cached score lines match the scores.
    pub open spec fn wf(&self, strings: &Strings) -> bool {
        &&& self.ok()
        &&& self.score_strings@.map_values(|s: String| s@) == score_lines(strings, self.scores@)
    }

    /// A fresh instance for the given terminal size: empty board, player 1 to move,
    /// zero scores, no history.
    pub fn new(ctx: &Context, term_size: (u16, u16)) -> (rt: Self)
        ensures
            rt.wf(&ctx.strings),
            rt@ == RuntimeModel::fresh(
                crate::game::board_translate(term_size, ctx.textures.board_width, ctx.textures.board_height),
            ),
    {
        let scores: Vec<u32> = vec![0u32, 0u32];
        let score_strings = build_score_strings(&scores, &ctx.strings);
        let mut rt = Self {
            game: Game::new(term_size, &ctx.textures),
            current_player: 0,
            selected_col: 0,
            scores,
            score_strings,
            animators: [[None; GRID_ROWS]; GRID_COLS],
            confirm_reset: false,
            history: Vec::new(),
            redo_stack: Vec::new(),
            action_banner: None,
            show_cursor: true,
            dirty: true,
        };
        rt.clear_animators();
        proof {
            assert(rt@.history =~= Seq::<HistoryModel>::empty());
            assert(rt@.redo =~= Seq::<HistoryModel>::empty());
            assert(rt@.scores =~= seq![0u32, 0u32]);
            assert(rt@ =~= RuntimeModel::fresh(
                crate::game::board_translate(term_size, ctx.textures.board_width, ctx.textures.board_height),
            ));
        }
        rt
    }

    /// Whether every win a drop or a redo could bring has a score to add to (see
    /// `RuntimeModel::score_room`).
    pub fn score_room_check(&self) -> (b: bool)
        requires
            self.ok(),
        ensures
            b == self@.score_room(),
    {
        let ghost m = self@;
        let p = self.current_player;
        if self.scores[p] == u32::MAX {
            let mut c: usize = 0;
            while c < GRID_COLS
                invariant
                    m == self@,
                    self.ok(),
                    p == m.current_player,
                    m.scores[p as int] == u32::MAX,
                    c <= GRID_COLS,
                    forall|d: usize| d < c ==> !#[trigger] m.drop_wins(d),
                decreases GRID_COLS - c,
            {
                if !self.game.grid.is_column_full(c) {
                    let mut g = copy_grid(&self.game.grid);
                    let disk = Disk { player: p as u8, color: (0, 0, 0) };
                    let row = self.game.grid.col_fill[c];
                    let _ = g.push(disk, c);
                    if g.check_winner(c, row) {
                        proof {
                            assert(g@ == m.grid.place(c as int, (p + 1) as u8));
                            assert(m.drop_wins(c));
                            assert(m.scores[m.current_player as int] == u32::MAX);
                            assert(!m.score_room());
                        }
                        return false;
                    }
                }
                c += 1;
            }
            assert forall|d: usize| #[trigger] m.drop_wins(d) implies m.scores[p as int] < u32::MAX by {
                assert(d < GRID_COLS);
            }
        }
        let n = self.redo_stack.len();
        if n > 0 {
            proof {
                assert(self.redo_stack@[n - 1]@ == m.redo.last());
                assert(entry_wf(m.redo[m.redo.len() - 1]));
            }
            if let HistoryEntry::Move(r) = &self.redo_stack[n - 1] {
                if self.scores[r.player] == u32::MAX {
                    let mut g = copy_grid(&self.game.grid);
                    let ghost g0 = g@;
                    g.cells[r.col][r.row] = (r.player + 1) as u8;
                    if g.col_fill[r.col] <= r.row {
                        g.col_fill[r.col] = r.row + 1;
                    }
                    proof {
                        assert(g@.cells =~= g0.put(r.col as int, r.row as int, (r.player + 1) as u8).cells);
                        assert(g@.col_fill =~= g0.put(r.col as int, r.row as int, (r.player + 1) as u8).col_fill);
                        g.lemma_wf_from_model();
                    }
                    if g.check_winner(r.col, r.row) {
                        return false;
                    }
                }
            }
        }
        true
    }

    /// Rebuilds the cached score lines from the scores.
    pub fn update_score_strings(&mut self, ctx: &Context)
        ensures
            final(self).score_strings@.map_values(|s: String| s@) == score_lines(&ctx.strings, final(self).scores@),
            final(self)@ == old(self)@,
            final(self).game.grid == old(self).game.grid,
    {
        self.score_strings = build_score_strings(&self.scores, &ctx.strings);
    }

    /// The snapshot a reset, or the undo or redo of one, saves.
    fn take_snapshot(&self) -> (s: ResetSnapshot)
        ensures
            s@ == self@.snapshot(),
    {
        let scores = self.scores.clone();
        proof {
            assert(scores@ =~= self.scores@);
        }
        ResetSnapshot {
            grid: self.game.grid.to_flat(),
            current_player: self.current_player,
            state: self.game.state,
            scores,
        }
    }

    /// Soft reset: saves the position on the history so it can be undone, then starts an
    /// empty board with player 1 to move.
    pub fn reset_game(&mut self)
        requires
            old(self).ok(),
        ensures
            final(self).ok(),
            final(self).score_strings == old(self).score_strings,
            final(self)@ == old(self)@.reset(),
    {
        let ghost old_m = self@;
        let snapshot = self.take_snapshot();
        proof {
            lemma_snapshot_of_grid(old_m.grid);
        }
        self.history.push(HistoryEntry::Reset(snapshot));
        self.redo_stack.clear();
        let translate = self.game.translate;
        self.game = Game::at(translate);
        self.current_player = 0;
        self.selected_col = 0;
        self.clear_animators();
        self.confirm_reset = false;
        self.action_banner = None;
        self.show_cursor = true;
        self.dirty = true;
        proof {
            assert(history_view(self.history@) =~= old_m.history.push(HistoryModel::Reset(old_m.snapshot())));
            assert(history_view(self.redo_stack@) =~= Seq::<HistoryModel>::empty());
            assert(self@ =~= old_m.reset());
        }
    }

    /// Wipes everything, scores and history included; nothing can be undone after this.
    pub fn hard_reset(&mut self, ctx: &Context)
        requires
            old(self).ok(),
        ensures
            final(self).wf(&ctx.strings),
            final(self)@ == old(self)@.hard_reset(),
    {
        let ghost old_m = self@;
        let translate = self.game.translate;
        self.game = Game::at(translate);
        self.current_player = 0;
        self.selected_col = 0;
        self.scores = vec![0u32, 0u32];
        self.update_score_strings(ctx);
        self.clear_animators();
        self.confirm_reset = false;
        self.history.clear();
        self.redo_stack.clear();
        self.action_banner = None;
        self.show_cursor = true;
        self.dirty = true;
        proof {
            assert(history_view(self.history@) =~= Seq::<HistoryModel>::empty());
            assert(history_view(self.redo_stack@) =~= Seq::<HistoryModel>::empty());
            assert(self@ =~= old_m.hard_reset());
        }
    }

    /// Takes back the last history entry (see `RuntimeModel::undone`).
    pub fn undo(&mut self, ctx: &Context)
        requires
            old(self).wf(&ctx.strings),
        ensures
            final(self).wf(&ctx.strings),
            final(self)@ == old(self)@.undone(),
    {
        let ghost old_m = self@;
        self.confirm_reset = false;
        let entry = match self.history.pop() {
            Some(e) => e,
            None => {
                proof {
                    assert(self@ =~= old_m.undone());
                }
                return;
            },
        };
        proof {
            assert(history_view(self.history@) =~= old_m.history.drop_last());
            assert(entry@ == old_m.history.last());
            assert(entry_wf(old_m.history[old_m.history.len() - 1]));
        }
        match entry {
            HistoryEntry::Move(record) => {
                self.animators[record.col][record.row] = None;
                self.game.grid.remove(record.col, record.row);
                if let GameState::Won(p) = self.game.state {
                    if self.scores[p] > 0 {
                        self.scores[p] -= 1;
                        self.update_score_strings(ctx);
                    }
                }
                self.game.state = GameState::Playing;
                self.current_player = record.player;
                self.redo_stack.push(HistoryEntry::Move(record));
                self.action_banner = Some(
                    ActionBanner::Placement { player: record.player, col: record.col, is_redo: false },
                );
                self.dirty = true;
                proof {
                    lemma_undo_wf(old_m);
                    assert(history_view(self.redo_stack@) =~= old_m.redo.push(HistoryModel::Move(record)));
                    assert(self@.animators =~= old_m.undone().animators);
                    assert(self@.scores =~= old_m.undone().scores);
                    assert(self@ =~= old_m.undone());
                }
            },
            HistoryEntry::Reset(snapshot) => {
                let redo_snapshot = self.take_snapshot();
                proof {
                    lemma_snapshot_of_grid(old_m.grid);
                }
                self.redo_stack.push(HistoryEntry::Reset(redo_snapshot));
                let translate = self.game.translate;
                self.game = Game::at(translate);
                proof {
                    lemma_grid_of_snapshot(snapshot@);
                }
                self.game.grid = Grid::from_flat(&snapshot.grid);
                self.game.state = snapshot.state;
                self.current_player = snapshot.current_player;
                self.scores = snapshot.scores;
                self.update_score_strings(ctx);
                self.clear_animators();
                self.confirm_reset = false;
                self.action_banner = Some(ActionBanner::Reset { is_redo: false });
                self.dirty = true;
                proof {
                    lemma_undo_wf(old_m);
                    assert(history_view(self.redo_stack@) =~= old_m.redo.push(HistoryModel::Reset(old_m.snapshot())));
                    assert(self@ =~= old_m.undone());
                    self.game.grid.lemma_wf_from_model();
                }
            },
        }
    }

    /// Replays the last redo entry (see `RuntimeModel::redone`).
    pub fn redo(&mut self, ctx: &Context)
        requires
            old(self).wf(&ctx.strings),
            old(self)@.redo_wins() matches Some(p) ==> old(self)@.scores[p as int] < u32::MAX,
        ensures
            final(self).wf(&ctx.strings),
            final(self)@ == old(self)@.redone(ctx.config.player_colors, ctx.textures.disk_height),
    {
        let ghost old_m = self@;
        self.confirm_reset = false;
        let entry = match self.redo_stack.pop() {
            Some(e) => e,
            None => {
                proof {
                    assert(self@ =~= old_m.redone(ctx.config.player_colors, ctx.textures.disk_height));
                }
                return;
            },
        };
        proof {
            assert(history_view(self.redo_stack@) =~= old_m.redo.drop_last());
            assert(entry@ == old_m.redo.last());
            assert(entry_wf(old_m.redo[old_m.redo.len() - 1]));
        }
        match entry {
            HistoryEntry::Move(record) => {
                let (r, g, b) = ctx.config.player_colors[record.player];
                let disk = Disk { player: record.player as u8, color: (r, g, b) };
                self.game.grid.cells[record.col][record.row] = disk.player + 1;
                if self.game.grid.col_fill[record.col] <= record.row {
                    self.game.grid.col_fill[record.col] = record.row + 1;
                }
                proof {
                    assert(self.game.grid@.cells =~= old_m.grid.put(record.col as int, record.row as int, (record.player + 1) as u8).cells);
                    assert(self.game.grid@.col_fill =~= old_m.grid.put(record.col as int, record.row as int, (record.player + 1) as u8).col_fill);
                }
                self.game.state = if self.game.grid.check_winner(record.col, record.row) {
                    GameState::Won(record.player)
                } else if self.game.grid.is_full() {
                    GameState::Tie
                } else {
                    GameState::Playing
                };
                if let GameState::Won(p) = self.game.state {
                    self.scores[p] += 1;
                    self.update_score_strings(ctx);
                }
                if self.game.state == GameState::Playing {
                    self.current_player = 1 - record.player;
                }
                if let Ok(animator) = self.game.grid.animate_push(
                    disk,
                    record.col,
                    record.row,
                    &ctx.textures,
                    &self.game.translate,
                ) {
                    self.animators[record.col][record.row] = Some(animator);
                }
                self.action_banner = Some(
                    ActionBanner::Placement { player: record.player, col: record.col, is_redo: true },
                );
                self.selected_col = record.col;
                self.show_cursor = false;
                self.history.push(HistoryEntry::Move(record));
                self.dirty = true;
                proof {
                    lemma_redo_wf(old_m, ctx.config.player_colors, ctx.textures.disk_height);
                    let new_m = old_m.redone(ctx.config.player_colors, ctx.textures.disk_height);
                    assert(history_view(self.history@) =~= old_m.history.push(HistoryModel::Move(record)));
                    assert(self@.animators =~= new_m.animators);
                    assert(self@.scores =~= new_m.scores);
                    assert(self@ =~= new_m);
                }
            },
            HistoryEntry::Reset(redo_snapshot) => {
                let snapshot = self.take_snapshot();
                proof {
                    lemma_snapshot_of_grid(old_m.grid);
                }
                self.history.push(HistoryEntry::Reset(snapshot));
                let translate = self.game.translate;
                self.game = Game::at(translate);
                proof {
                    lemma_grid_of_snapshot(redo_snapshot@);
                }
                self.game.grid = Grid::from_flat(&redo_snapshot.grid);
                self.game.state = redo_snapshot.state;
                self.current_player = redo_snapshot.current_player;
                self.scores = redo_snapshot.scores;
                self.update_score_strings(ctx);
                self.clear_animators();
                self.confirm_reset = false;
                self.action_banner = Some(ActionBanner::Reset { is_redo: true });
                self.dirty = true;
                proof {
                    lemma_redo_wf(old_m, ctx.config.player_colors, ctx.textures.disk_height);
                    assert(history_view(self.history@) =~= old_m.history.push(HistoryModel::Reset(old_m.snapshot())));
                    assert(self@ =~= old_m.redone(ctx.config.player_colors, ctx.textures.disk_height));
                    self.game.grid.lemma_wf_from_model();
                }
            },
        }
    }

    /// Stops every animation.
    fn clear_animators(&mut self)
        ensures
            final(self)@ == (RuntimeModel { animators: no_animations(), ..old(self)@ }),
            final(self).game.grid == old(self).game.grid,
            final(self).score_strings == old(self).score_strings,
    {
        let mut c: usize = 0;
        while c < GRID_COLS
            invariant
                c <= GRID_COLS,
                forall|i: int, j: int| 0 <= i < c && 0 <= j < GRID_ROWS ==> (#[trigger] self.animators[i][j] is None),
                self.game == old(self).game,
                self.current_player == old(self).current_player,
                self.selected_col == old(self).selected_col,
                self.scores == old(self).scores,
                self.score_strings == old(self).score_strings,
                self.confirm_reset == old(self).confirm_reset,
                self.history == old(self).history,
                self.redo_stack == old(self).redo_stack,
                self.action_banner == old(self).action_banner,
                self.show_cursor == old(self).show_cursor,
                self.dirty == old(self).dirty,
            decreases GRID_COLS - c,
        {
            let mut r: usize = 0;
            while r < GRID_ROWS
                invariant
                    c < GRID_COLS,
                    r <= GRID_ROWS,
                    forall|i: int, j: int| 0 <= i < c && 0 <= j < GRID_ROWS ==> (#[trigger] self.animators[i][j] is None),
                    forall|j: int| 0 <= j < r ==> (#[trigger] self.animators[c as int][j] is None),
                    self.game == old(self).game,
                    self.current_player == old(self).current_player,
                    self.selected_col == old(self).selected_col,
                    self.scores == old(self).scores,
                    self.score_strings == old(self).score_strings,
                    self.confirm_reset == old(self).confirm_reset,
                    self.history == old(self).history,
                    self.redo_stack == old(self).redo_stack,
                    self.action_banner == old(self).action_banner,
                    self.show_cursor == old(self).show_cursor,
                    self.dirty == old(self).dirty,
                decreases GRID_ROWS - r,
            {
                self.animators[c][r] = None;
                r += 1;
            }
            c += 1;
        }
        proof {
            assert(self@.animators =~= no_animations()) by {
                assert forall|i: int| 0 <= i < GRID_COLS implies #[trigger] self@.animators[i] =~= no_animations()[i] by {
                    assert forall|j: int| 0 <= j < GRID_ROWS implies self@.animators[i][j] == no_animations()[i][j] by {
                        assert(self.animators[i][j] is None);
                    }
                }
            }
            assert(self@ =~= RuntimeModel { animators: no_animations(), ..old(self)@ });
        }
    }
}

} // verus!

verus! {

/// The move record a successful drop in `col` pushes.
pub open spec fn drop_record(m: RuntimeModel, col: usize) -> MoveRecord {
    MoveRecord { col, row: m.grid.col_fill[col as int], player: m.current_player }
}

/// The redo stack a drop in `col` leaves.
pub open spec fn redo_after_drop(m: RuntimeModel, col: usize) -> Seq<HistoryModel> {
    if m.redo_matches(col) {
        m.redo.drop_last()
    } else {
        seq![]
    }
}

/// Undoing a drop brings back the position (board, outcome, turn, scores), the history
/// and the animations from before it; the move waits on the redo stack.
pub proof fn lemma_undo_after_drop(m: RuntimeModel, col: usize, colors: [(u8, u8, u8); 2], disk_height: u16)
    requires
        m.wf(),
        m.state == GameState::Playing,
        col < m.grid.width,
        !m.grid.column_full(col as int),
        m.grid.cells[col as int][m.grid.col_fill[col as int] as int] == CELL_EMPTY,
        m.scores[m.current_player as int] < u32::MAX,
    ensures
        m.dropped(col, colors, disk_height).1,
        m.dropped(col, colors, disk_height).0.undone().position() == m.position(),
        m.dropped(col, colors, disk_height).0.undone().history == m.history,
        m.dropped(col, colors, disk_height).0.undone().animators == m.animators,
        m.dropped(col, colors, disk_height).0.undone().redo == redo_after_drop(m, col).push(
            HistoryModel::Move(drop_record(m, col)),
        ),
{
    let d = m.dropped(col, colors, disk_height).0;
    let u = d.undone();
    let row = m.grid.col_fill[col as int];
    assert(d.history.last() == HistoryModel::Move(drop_record(m, col)));
    crate::grid::lemma_place_then_clear(m.grid, col as int, (m.current_player + 1) as u8);
    assert(u.grid == m.grid);
    assert(u.history =~= m.history);
    assert(m.animators[col as int][row as int] is None);
    assert(u.animators[col as int] =~= m.animators[col as int]);
    assert(u.animators =~= m.animators);
    assert(u.scores =~= m.scores);
    assert(u.position() =~= m.position());
}

/// Redoing an undone drop gives back what the drop gave: the position, the history, the
/// redo stack, the animations and the selected column.
pub proof fn lemma_redo_after_undo_of_drop(
    m: RuntimeModel,
    col: usize,
    colors: [(u8, u8, u8); 2],
    disk_height: u16,
)
    requires
        m.wf(),
        m.state == GameState::Playing,
        col < m.grid.width,
        !m.grid.column_full(col as int),
        m.grid.cells[col as int][m.grid.col_fill[col as int] as int] == CELL_EMPTY,
        m.scores[m.current_player as int] < u32::MAX,
    ensures
        ({
            let d = m.dropped(col, colors, disk_height).0;
            let r = d.undone().redone(colors, disk_height);
            &&& r.position() == d.position()
            &&& r.history == d.history
            &&& r.redo == d.redo
            &&& r.animators == d.animators
            &&& r.selected_col == d.selected_col
        }),
{
    let d = m.dropped(col, colors, disk_height).0;
    let u = d.undone();
    lemma_undo_after_drop(m, col, colors, disk_height);
    let r = u.redone(colors, disk_height);
    let row = m.grid.col_fill[col as int];
    assert(u.redo.last() == HistoryModel::Move(drop_record(m, col)));
    assert(u.grid.put(col as int, row as int, (m.current_player + 1) as u8) =~= d.grid);
    assert(r.grid == d.grid);
    assert(r.scores =~= d.scores);
    assert(r.history =~= d.history);
    assert(r.redo =~= d.redo);
    assert(r.animators =~= d.animators);
    assert(r.position() =~= d.position());
}

/// Undoing a soft reset brings back the position and the history from before it.
pub proof fn lemma_undo_after_reset(m: RuntimeModel)
    requires
        m.wf(),
    ensures
        m.reset().undone().position() == m.position(),
        m.reset().undone().history == m.history,
{
    let u = m.reset().undone();
    crate::grid::lemma_flat_roundtrip(m.grid);
    assert(u.history =~= m.history);
    assert(u.position() =~= m.position());
}

/// Redoing an undone reset gives back the position, the history and the redo stack.
pub proof fn lemma_redo_after_undo_of_reset(m: RuntimeModel, colors: [(u8, u8, u8); 2], disk_height: u16)
    requires
        m.wf(),
        m.history.len() > 0,
        m.history.last() is Reset,
    ensures
        m.undone().redone(colors, disk_height).position() == m.position(),
        m.undone().redone(colors, disk_height).history == m.history,
        m.undone().redone(colors, disk_height).redo == m.redo,
{
    let snap = m.history.last()->Reset_0;
    assert(entry_wf(m.history[m.history.len() - 1]));
    let u = m.undone();
    let r = u.redone(colors, disk_height);
    lemma_unflat_roundtrip(snap.grid);
    crate::grid::lemma_flat_roundtrip(m.grid);
    assert(u.snapshot() =~= snap);
    assert(r.history =~= m.history);
    assert(r.redo =~= m.redo);
    assert(r.position() =~= m.position());
}

/// Scoring and turns: a drop that lands wins exactly when it completes a line of four
/// through its cell; then the mover, and only the mover, scores one point, and the turn
/// stays; a drop that does not win leaves the scores alone, and while the game goes on
/// the turn passes to the other player.
pub proof fn lemma_drop_scores(m: RuntimeModel, col: usize, colors: [(u8, u8, u8); 2], disk_height: u16)
    requires
        m.wf(),
        m.scores[m.current_player as int] < u32::MAX,
        m.dropped(col, colors, disk_height).1,
    ensures
        ({
            let d = m.dropped(col, colors, disk_height).0;
            let p = m.current_player as int;
            let row = m.grid.col_fill[col as int] as int;
            &&& (d.state is Won) == d.grid.wins_at(col as int, row)
            &&& d.state is Won ==> {
                &&& d.state == GameState::Won(m.current_player)
                &&& d.scores[p] == m.scores[p] + 1
                &&& d.scores[1 - p] == m.scores[1 - p]
                &&& d.current_player == m.current_player
            }
            &&& !(d.state is Won) ==> d.scores == m.scores
            &&& d.state == GameState::Playing ==> d.current_player == 1 - m.current_player
        }),
{
}

/// A single timeline: playing the move that is next on the redo stack keeps the rest of
/// the stack; playing any other move discards the whole stack.
pub proof fn lemma_drop_single_timeline(m: RuntimeModel, col: usize, colors: [(u8, u8, u8); 2], disk_height: u16)
    ensures
        m.redo_matches(col) ==> m.dropped(col, colors, disk_height).0.redo == m.redo.drop_last(),
        !m.redo_matches(col) ==> m.dropped(col, colors, disk_height).0.redo == Seq::<HistoryModel>::empty(),
{
}

/// Redoing a move and then undoing and redoing it again gives back what the first redo
/// gave: the position, the history, the redo stack, the animations and the selected
/// column. The move replayed is the current player's (as it is after that move was
/// undone).
pub proof fn lemma_redo_after_undo_of_redo(m: RuntimeModel, colors: [(u8, u8, u8); 2], disk_height: u16)
    requires
        m.wf(),
        m.redo.len() > 0,
        m.redo.last() is Move,
        m.redo.last()->Move_0.player == m.current_player,
        m.scores[m.current_player as int] < u32::MAX,
    ensures
        ({
            let d = m.redone(colors, disk_height);
            let r = d.undone().redone(colors, disk_height);
            &&& r.position() == d.position()
            &&& r.history == d.history
            &&& r.redo == d.redo
            &&& r.animators == d.animators
            &&& r.selected_col == d.selected_col
        }),
{
    let rec = m.redo.last()->Move_0;
    assert(entry_wf(m.redo[m.redo.len() - 1]));
    let d = m.redone(colors, disk_height);
    let u = d.undone();
    let r = u.redone(colors, disk_height);
    let col = rec.col as int;
    let row = rec.row as int;
    let v = (rec.player + 1) as u8;
    assert(d.history.last() == HistoryModel::Move(rec));
    assert(u.redo =~= m.redo);
    assert(u.redo.last() == HistoryModel::Move(rec));
    assert(u.grid.put(col, row, v).cells[col] =~= d.grid.cells[col]);
    assert(u.grid.put(col, row, v).cells =~= d.grid.cells);
    assert(u.grid.put(col, row, v).col_fill =~= d.grid.col_fill);
    assert(u.grid.put(col, row, v) == d.grid);
    assert(r.grid == d.grid);
    assert(r.scores =~= d.scores);
    assert(r.history =~= d.history);
    assert(r.redo =~= d.redo);
    assert(r.animators[col] =~= d.animators[col]);
    assert(r.animators =~= d.animators);
    assert(r.position() =~= d.position());
}

/// A copy of a grid with the same content.
fn copy_grid(g: &Grid) -> (c: Grid)
    requires
        g.wf(),
        g@.wf(),
        g.height > 0,
    ensures
        c@ == g@,
        c.wf(),
{
    let c = Grid::from_flat(&g.to_flat());
    proof {
        crate::grid::lemma_flat_roundtrip(g@);
        c.lemma_wf_from_model();
    }
    c
}

/// The outcome after a disk lands: the mover wins exactly when the disk completes a line
/// of four through its cell; otherwise the game is a tie exactly when every column is
/// full, and goes on exactly when some column still has room.
pub proof fn lemma_outcome_cases(g: GridModel, col: int, row: int, player: usize)
    ensures
        (outcome(g, col, row, player) == GameState::Won(player)) == g.wins_at(col, row),
        (outcome(g, col, row, player) is Won) == g.wins_at(col, row),
        (outcome(g, col, row, player) == GameState::Tie) == (!g.wins_at(col, row) && (forall|c: int|
            0 <= c < g.width && c < GRID_COLS ==> #[trigger] g.col_fill[c] >= g.height)),
        (outcome(g, col, row, player) == GameState::Playing) == (!g.wins_at(col, row) && (exists|c: int|
            0 <= c < g.width && c < GRID_COLS && #[trigger] g.col_fill[c] < g.height)),
{
}

/// A drop that lands decides the game: a line of four through the new disk is a win for
/// the mover; otherwise a board with no room left is a tie, and a board with room left
/// goes on. A drop never leaves a full board in play.
pub proof fn lemma_drop_outcome(m: RuntimeModel, col: usize, colors: [(u8, u8, u8); 2], disk_height: u16)
    requires
        m.wf(),
        m.dropped(col, colors, disk_height).1,
    ensures
        ({
            let d = m.dropped(col, colors, disk_height).0;
            let row = m.grid.col_fill[col as int] as int;
            let full = forall|c: int| 0 <= c < GRID_COLS ==> #[trigger] d.grid.col_fill[c] >= GRID_ROWS;
            &&& d.grid.cells[col as int][row] == (m.current_player + 1) as u8
            &&& (d.state == GameState::Won(m.current_player)) == d.grid.wins_at(col as int, row)
            &&& (d.state == GameState::Tie) == (!d.grid.wins_at(col as int, row) && full)
            &&& (d.state == GameState::Playing) == (!d.grid.wins_at(col as int, row) && !full)
        }),
{
    let d = m.dropped(col, colors, disk_height).0;
    let row = m.grid.col_fill[col as int] as int;
    lemma_outcome_cases(d.grid, col as int, row, m.current_player);
}

/// Redoing a move decides the game the same way: a line of four through the replayed disk
/// is a win for its player; otherwise a full board is a tie and a board with room goes on.
pub proof fn lemma_redo_outcome(m: RuntimeModel, colors: [(u8, u8, u8); 2], disk_height: u16)
    requires
        m.wf(),
        m.redo.len() > 0,
        m.redo.last() is Move,
    ensures
        ({
            let r = m.redo.last()->Move_0;
            let d = m.redone(colors, disk_height);
            let full = forall|c: int| 0 <= c < GRID_COLS ==> #[trigger] d.grid.col_fill[c] >= GRID_ROWS;
            &&& (d.state == GameState::Won(r.player)) == d.grid.wins_at(r.col as int, r.row as int)
            &&& (d.state == GameState::Tie) == (!d.grid.wins_at(r.col as int, r.row as int) && full)
            &&& (d.state == GameState::Playing) == (!d.grid.wins_at(r.col as int, r.row as int) && !full)
        }),
{
    let r = m.redo.last()->Move_0;
    let d = m.redone(colors, disk_height);
    lemma_outcome_cases(d.grid, r.col as int, r.row as int, r.player);
}

/// A soft reset starts a new game on an empty board with player 1 to move and the scores
/// kept; the old position goes on the history as one entry, so it can be undone, and
/// nothing is left to redo: redoing right after a reset changes nothing.
pub proof fn lemma_reset_effect(m: RuntimeModel, colors: [(u8, u8, u8); 2], disk_height: u16)
    requires
        m.wf(),
    ensures
        ({
            let n = m.reset();
            &&& n.redo.len() == 0
            &&& n.redone(colors, disk_height) == n
            &&& n.history.len() == m.history.len() + 1
            &&& n.history.drop_last() == m.history
            &&& n.history.last() is Reset
            &&& n.scores == m.scores
            &&& n.state == GameState::Playing
            &&& n.current_player == 0
            &&& n.translate == m.translate
            &&& forall|c: int, r: int| 0 <= c < GRID_COLS && 0 <= r < GRID_ROWS ==> #[trigger] n.grid.cells[c][r] == 0
            &&& forall|c: int| 0 <= c < GRID_COLS ==> #[trigger] n.grid.col_fill[c] == 0
        }),
{
    let n = m.reset();
    assert(n.history.drop_last() =~= m.history);
    assert(n.redone(colors, disk_height) =~= n);
}

/// A hard reset gives a new game in progress at the same place: empty board, player 1 to
/// move, both scores zero, nothing to undo or redo, nothing falling, whatever the state
/// before (a won or tied game included).
pub proof fn lemma_hard_reset_effect(m: RuntimeModel)
    requires
        m.wf(),
    ensures
        ({
            let n = m.hard_reset();
            &&& n.state == GameState::Playing
            &&& n.current_player == 0
            &&& n.scores =~= seq![0u32, 0u32]
            &&& n.history.len() == 0
            &&& n.redo.len() == 0
            &&& n.translate == m.translate
            &&& n.grid.width == GRID_COLS && n.grid.height == GRID_ROWS
            &&& forall|c: int, r: int| 0 <= c < GRID_COLS && 0 <= r < GRID_ROWS ==> #[trigger] n.grid.cells[c][r] == 0
            &&& forall|c: int| 0 <= c < GRID_COLS ==> #[trigger] n.grid.col_fill[c] == 0
            &&& forall|c: int, r: int| 0 <= c < GRID_COLS && 0 <= r < GRID_ROWS ==> #[trigger] n.animators[c][r] is None
            &&& n == RuntimeModel::fresh(m.translate)
        }),
{
}

} // verus!
