//! Terminal drawing commands, produced by the renderer and carried out by the caller.
use vstd::prelude::*;

verus! {

/// One terminal command.
#[derive(Debug, PartialEq, Eq)]
pub enum DrawOp {
    /// Move the cursor to (column, row).
    MoveTo(u16, u16),
    /// Move the cursor to a column of the current row.
    MoveToColumn(u16),
    /// Move the cursor right by a number of cells.
    MoveRight(u16),
    /// Move the cursor down by a number of rows.
    MoveDown(u16),
    /// Print text at the cursor.
    Print(String),
    /// Set the foreground to an RGB colour.
    SetForeground(u8, u8, u8),
    /// Reset colours and attributes.
    ResetColor,
    /// Turn on the dim attribute.
    Dim,
    /// Turn off bold and dim.
    NormalIntensity,
    /// Write bytes as they are.
    Raw(Vec<u8>),
}

/// The mathematical content of a `DrawOp`.
pub enum DrawModel {
    MoveTo(u16, u16),
    MoveToColumn(u16),
    MoveRight(u16),
    MoveDown(u16),
    Print(Seq<char>),
    SetForeground(u8, u8, u8),
    ResetColor,
    Dim,
    NormalIntensity,
    Raw(Seq<u8>),
}

impl View for DrawOp {
    type V = DrawModel;

    open spec fn view(&self) -> DrawModel {
        match self {
            DrawOp::MoveTo(x, y) => DrawModel::MoveTo(*x, *y),
            DrawOp::MoveToColumn(x) => DrawModel::MoveToColumn(*x),
            DrawOp::MoveRight(n) => DrawModel::MoveRight(*n),
            DrawOp::MoveDown(n) => DrawModel::MoveDown(*n),
            DrawOp::Print(s) => DrawModel::Print(s@),
            DrawOp::SetForeground(r, g, b) => DrawModel::SetForeground(*r, *g, *b),
            DrawOp::ResetColor => DrawModel::ResetColor,
            DrawOp::Dim => DrawModel::Dim,
            DrawOp::NormalIntensity => DrawModel::NormalIntensity,
            DrawOp::Raw(bytes) => DrawModel::Raw(bytes@),
        }
    }
}

/// The views of a sequence of commands.
pub open spec fn ops_view(ops: Seq<DrawOp>) -> Seq<DrawModel> {
    ops.map_values(|o: DrawOp| o@)
}

} // verus!
