use vstd::prelude::*;

use crate::draw::{ops_view, DrawModel, DrawOp};
use crate::sparse::{lines_view, render_texture, texture_ops};
use crate::textures::Textures;
use crate::translate::{screen_coord, Translate};

verus! {

/// Packed cell value used in `Grid::cells`: 0 = empty, 1 = player 0, 2 = player 1.
pub type Cell = u8;

/// The value of an empty cell.
pub const CELL_EMPTY: Cell = 0;

/// A disk ready for display: `player` is 0-indexed and `color` is that player's RGB triple.
#[derive(Clone, Copy, PartialEq, Eq, Debug)]
pub struct Disk {
    pub player: u8,
    pub color: (u8, u8, u8),
}

/// The commands that draw `disk` with its top-left corner at board position (x, y):
/// its colour, a move there, the disk texture, and a colour reset.
pub open spec fn disk_ops(disk: Disk, x: int, y: int, textures: &Textures, translate: Translate) -> Seq<DrawModel> {
    seq![
        DrawModel::SetForeground(disk.color.0, disk.color.1, disk.color.2),
        DrawModel::MoveTo(screen_coord(x + translate.x), screen_coord(y + translate.y)),
    ] + texture_ops(lines_view(textures.parsed_disk_lines@), screen_coord(x + translate.x)) + seq![
        DrawModel::ResetColor,
    ]
}

impl Disk {
    /// Draws the disk with its top-left corner at board position (x, y).
    pub fn display(&self, out: &mut Vec<DrawOp>, x: i32, y: i32, textures: &Textures, translate: &Translate)
        requires
            i32::MIN <= x + translate.x <= i32::MAX,
            i32::MIN <= y + translate.y <= i32::MAX,
        ensures
            ops_view(final(out)@) == ops_view(old(out)@) + disk_ops(*self, x as int, y as int, textures, *translate),
    {
        let ghost start = ops_view(out@);
        let (r, g, b) = self.color;
        out.push(DrawOp::SetForeground(r, g, b));
        out.push(translate.move_to(x, y));
        let ghost mid = ops_view(out@);
        render_texture(out, &textures.parsed_disk_lines, translate, x);
        let ghost mid2 = ops_view(out@);
        out.push(DrawOp::ResetColor);
        proof {
            assert(mid =~= start + seq![
                DrawModel::SetForeground(r, g, b),
                DrawModel::MoveTo(screen_coord(x + translate.x), screen_coord(y + translate.y)),
            ]);
            assert(ops_view(out@) =~= mid2.push(DrawModel::ResetColor));
            assert(ops_view(out@) =~= start + disk_ops(*self, x as int, y as int, textures, *translate));
        }
    }
}

} // verus!
