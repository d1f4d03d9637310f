//! Game outcome, undo/redo history and UI feedback values.
use vstd::prelude::*;

use crate::grid::{FlatGrid, FlatGridModel};

verus! {

/// The outcome of a board.
#[derive(Clone, Copy, PartialEq, Eq, Structural, Debug)]
pub enum GameState {
    Playing,
    /// The index of the player who won.
    Won(usize),
    Tie,
}

/// A single disk placement, stored so it can be undone or redone.
#[derive(Clone, Copy, PartialEq, Eq, Structural, Debug)]
pub struct MoveRecord {
    pub col: usize,
    pub row: usize,
    pub player: usize,
}

/// Full board state captured before a soft reset, so the reset can be undone.
pub struct ResetSnapshot {
    pub grid: FlatGrid,
    pub current_player: usize,
    pub state: GameState,
    pub scores: Vec<u32>,
}

/// One entry on the history or redo stack.
pub enum HistoryEntry {
    Move(MoveRecord),
    Reset(ResetSnapshot),
}

/// Shown above the board briefly after an undo or redo to confirm what happened.
#[derive(Clone, Copy, PartialEq, Eq, Structural, Debug)]
pub enum ActionBanner {
    Placement { player: usize, col: usize, is_redo: bool },
    Reset { is_redo: bool },
}

/// The mathematical content of a `ResetSnapshot`.
pub struct SnapshotModel {
    pub grid: FlatGridModel,
    pub current_player: usize,
    pub state: GameState,
    pub scores: Seq<u32>,
}

/// The mathematical content of a `HistoryEntry`.
pub enum HistoryModel {
    Move(MoveRecord),
    Reset(SnapshotModel),
}

impl View for ResetSnapshot {
    type V = SnapshotModel;

    open spec fn view(&self) -> SnapshotModel {
        SnapshotModel {
            grid: self.grid@,
            current_player: self.current_player,
            state: self.state,
            scores: self.scores@,
        }
    }
}

impl View for HistoryEntry {
    type V = HistoryModel;

    open spec fn view(&self) -> HistoryModel {
        match self {
            HistoryEntry::Move(m) => HistoryModel::Move(*m),
            HistoryEntry::Reset(s) => HistoryModel::Reset(s@),
        }
    }
}

/// The views of a stack of history entries, bottom first.
pub open spec fn history_view(entries: Seq<HistoryEntry>) -> Seq<HistoryModel> {
    entries.map_values(|e: HistoryEntry| e@)
}

} // verus!
