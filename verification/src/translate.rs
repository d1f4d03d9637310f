//! Board-relative to terminal-absolute coordinates.
use vstd::prelude::*;

use crate::draw::DrawOp;

verus! {

/// Where a board's top-left corner sits on the terminal. Every board instance has its own.
#[derive(Clone, Copy, PartialEq, Eq, Structural, Debug)]
pub struct Translate {
    pub x: i32,
    pub y: i32,
}

/// A terminal coordinate: negative values clamp to 0, larger ones keep their low 16 bits.
pub open spec fn screen_coord(v: int) -> u16 {
    (if v < 0 {
        0
    } else {
        v
    }) as u16
}

impl Translate {
    pub fn new(x: i32, y: i32) -> (t: Self)
        ensures
            t.x == x,
            t.y == y,
    {
        Self { x, y }
    }

    /// The cursor move to board position (x, y).
    pub fn move_to(&self, x: i32, y: i32) -> (op: DrawOp)
        requires
            i32::MIN <= x + self.x <= i32::MAX,
            i32::MIN <= y + self.y <= i32::MAX,
        ensures
            op@ == crate::draw::DrawModel::MoveTo(screen_coord(x + self.x), screen_coord(y + self.y)),
    {
        let cx = x + self.x;
        let cy = y + self.y;
        DrawOp::MoveTo(clamp_coord(cx), clamp_coord(cy))
    }

    /// The cursor move to board column `x` of the current row.
    pub fn move_to_column(&self, x: i32) -> (op: DrawOp)
        requires
            i32::MIN <= x + self.x <= i32::MAX,
        ensures
            op@ == crate::draw::DrawModel::MoveToColumn(screen_coord(x + self.x)),
    {
        DrawOp::MoveToColumn(clamp_coord(x + self.x))
    }
}

/// `v.max(0) as u16`.
pub fn clamp_coord(v: i32) -> (c: u16)
    ensures
        c == screen_coord(v as int),
{
    let m = if v < 0 {
        0
    } else {
        v
    };
    m as u16
}

} // verus!
