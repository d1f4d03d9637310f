//! Layout of the boards on the terminal, and the frame drawn each redraw.
use vstd::prelude::*;

use crate::app::AppState;
use crate::config::Context;
use crate::constants::INSTANCE_GAP;
use crate::draw::{ops_view, DrawModel, DrawOp};
use crate::game::{on_screen, sat_sub};
use crate::grid::{GRID_COLS, GRID_ROWS};
use crate::runtime::{Runtime, RuntimeModel};
use crate::status::{draw_ops, status_fits};
use crate::strings::Strings;
use crate::text::{decimal, lines, lines_spec, push_char, usize_to_string};
use crate::textures::{max_line_len, Textures};
use crate::translate::Translate;

verus! {

/// The escape sequence that starts a synchronized update.
pub open spec fn begin_sync_bytes() -> Seq<u8> {
    seq![0x1bu8, 0x5bu8, 0x3fu8, 0x32u8, 0x30u8, 0x32u8, 0x36u8, 0x68u8]
}

/// The escape sequence that ends a synchronized update.
pub open spec fn end_sync_bytes() -> Seq<u8> {
    seq![0x1bu8, 0x5bu8, 0x3fu8, 0x32u8, 0x30u8, 0x32u8, 0x36u8, 0x6cu8]
}

/// Starts a synchronized update (no flicker on terminals that support it).
pub fn begin_sync(out: &mut Vec<DrawOp>)
    ensures
        ops_view(final(out)@) == ops_view(old(out)@).push(DrawModel::Raw(begin_sync_bytes())),
{
    let bytes: Vec<u8> = vec![0x1bu8, 0x5bu8, 0x3fu8, 0x32u8, 0x30u8, 0x32u8, 0x36u8, 0x68u8];
    let ghost before = ops_view(out@);
    out.push(DrawOp::Raw(bytes));
    proof {
        assert(ops_view(out@) =~= before.push(DrawModel::Raw(begin_sync_bytes())));
    }
}

/// Ends a synchronized update.
pub fn end_sync(out: &mut Vec<DrawOp>)
    ensures
        ops_view(final(out)@) == ops_view(old(out)@).push(DrawModel::Raw(end_sync_bytes())),
{
    let bytes: Vec<u8> = vec![0x1bu8, 0x5bu8, 0x3fu8, 0x32u8, 0x30u8, 0x32u8, 0x36u8, 0x6cu8];
    let ghost before = ops_view(out@);
    out.push(DrawOp::Raw(bytes));
    proof {
        assert(ops_view(out@) =~= before.push(DrawModel::Raw(end_sync_bytes())));
    }
}

/// Width of `n` boards side by side with gaps between them.
pub open spec fn total_width(n: int, board_width: int) -> int {
    n * board_width + (n - 1) * INSTANCE_GAP
}

/// `n` boards of this width fit the coordinate arithmetic of the layout.
pub open spec fn layout_fits(n: int, board_width: int) -> bool {
    n * (board_width + INSTANCE_GAP) + u16::MAX <= i32::MAX
}

/// Where board `i` of `n` goes: the row of boards centred horizontally (flush left when
/// too wide) and resting on the bottom of the terminal.
pub open spec fn board_position(i: int, n: int, term_size: (u16, u16), board_width: u16, board_height: u16) -> Translate {
    let free = term_size.0 - total_width(n, board_width as int);
    let start_x = if free < 0 {
        0
    } else {
        free / 2
    };
    let y = if term_size.1 < board_height {
        0
    } else {
        term_size.1 - board_height
    };
    Translate { x: (start_x + i * (board_width + INSTANCE_GAP)) as i32, y: y as i32 }
}

/// Each board moved to its place in the row, and marked for redraw.
pub open spec fn relayout(instances: Seq<RuntimeModel>, term_size: (u16, u16), board_width: u16, board_height: u16) -> Seq<RuntimeModel> {
    Seq::new(
        instances.len(),
        |i: int|
            RuntimeModel {
                translate: board_position(i, instances.len() as int, term_size, board_width, board_height),
                dirty: true,
                ..instances[i]
            },
    )
}

pub open spec fn instances_view(instances: Seq<Runtime>) -> Seq<RuntimeModel> {
    instances.map_values(|r: Runtime| r@)
}

pub open spec fn all_wf(instances: Seq<Runtime>, strings: &Strings) -> bool {
    forall|i: int| 0 <= i < instances.len() ==> #[trigger] instances[i].wf(strings)
}

/// Places every board so that the row of them is centred on the terminal.
pub fn update_all_translates(instances: &mut Vec<Runtime>, term_size: (u16, u16), textures: &Textures, strings: &Strings)
    requires
        layout_fits(old(instances)@.len() as int, textures.board_width as int),
        all_wf(old(instances)@, strings),
    ensures
        instances_view(final(instances)@) == relayout(
            instances_view(old(instances)@),
            term_size,
            textures.board_width,
            textures.board_height,
        ),
        all_wf(final(instances)@, strings),
{
    let ghost start = instances_view(instances@);
    let n = instances.len();
    if n == 0 {
        proof {
            assert(instances_view(instances@) =~= relayout(start, term_size, textures.board_width, textures.board_height));
        }
        return;
    }
    let (term_width, term_height) = term_size;
    let bw = textures.board_width as i32;
    let gap = INSTANCE_GAP as i32;
    assert(n * (bw + gap) <= i32::MAX);
    assert(n * bw <= n * (bw + gap)) by (nonlinear_arith)
        requires
            bw >= 0,
            gap >= 0,
            n >= 0,
    ;
    assert((n - 1) * gap <= n * gap) by (nonlinear_arith)
        requires
            gap >= 0,
            n >= 1,
    ;
    assert(n * (bw + gap) == n * bw + n * gap) by (nonlinear_arith);
    assert(n <= n * (bw + gap)) by (nonlinear_arith)
        requires
            bw + gap >= 1,
            n >= 0,
    ;
    let count = n as i32;
    let total = count * bw + (count - 1) * gap;
    let free = term_width as i32 - total;
    let start_x = if free / 2 > 0 {
        free / 2
    } else {
        0
    };
    let y = if (term_height as i32) - (textures.board_height as i32) > 0 {
        (term_height as i32) - (textures.board_height as i32)
    } else {
        0
    };
    let mut i: usize = 0;
    while i < n
        invariant
            n == instances@.len(),
            n == start.len(),
            n <= i32::MAX,
            i <= n,
            n * (bw + gap) <= i32::MAX - u16::MAX,
            0 <= start_x <= u16::MAX,
            bw == textures.board_width,
            gap == INSTANCE_GAP,
            start_x == board_position(0, n as int, term_size, textures.board_width, textures.board_height).x,
            y == board_position(0, n as int, term_size, textures.board_width, textures.board_height).y,
            forall|j: int| 0 <= j < i ==> #[trigger] instances_view(instances@)[j] == relayout(
                start,
                term_size,
                textures.board_width,
                textures.board_height,
            )[j],
            forall|j: int| i <= j < n ==> #[trigger] instances_view(instances@)[j] == start[j],
            all_wf(instances@, strings),
        decreases n - i,
    {
        assert(i * (bw + gap) <= n * (bw + gap)) by (nonlinear_arith)
            requires
                i <= n,
                bw + gap >= 0,
        ;
        let x = start_x + (i as i32) * (bw + gap);
        let ghost before = instances@;
        assert(before[i as int].wf(strings));
        instances[i].game.translate = Translate::new(x, y);
        instances[i].dirty = true;
        proof {
            let rl = relayout(start, term_size, textures.board_width, textures.board_height);
            assert forall|j: int| 0 <= j < n && j != i implies #[trigger] instances@[j] == before[j] by {}
            assert(instances@[i as int].wf(strings));
            assert(instances_view(before)[i as int] == start[i as int]);
            assert(instances_view(instances@)[i as int] =~= rl[i as int]);
            assert forall|j: int| 0 <= j < n && j != i implies #[trigger] instances_view(instances@)[j]
                == instances_view(before)[j] by {}
        }
        i += 1;
    }
    proof {
        assert(instances_view(instances@) =~= relayout(start, term_size, textures.board_width, textures.board_height));
    }
}

/// Whether there is room for one more board: fewer than nine, and all of them fit the
/// terminal's width.
pub open spec fn room_for_another(n: int, term_width: u16, board_width: u16) -> bool {
    n < 9 && total_width(n + 1, board_width as int) <= term_width
}

/// Whether one more board fits beside the current ones.
pub fn can_add_instance(instances: &[Runtime], term_width: u16, textures: &Textures) -> (b: bool)
    requires
        instances@.len() < 9 ==> total_width(instances@.len() + 1int, textures.board_width as int) <= u16::MAX,
    ensures
        b == room_for_another(instances@.len() as int, term_width, textures.board_width),
{
    if instances.len() >= 9 {
        return false;
    }
    let count = (instances.len() + 1) as u16;
    assert(count * textures.board_width + (count - 1) * INSTANCE_GAP <= u16::MAX);
    assert(count * textures.board_width <= u16::MAX) by (nonlinear_arith)
        requires
            count * textures.board_width + (count - 1) * INSTANCE_GAP <= u16::MAX,
            count >= 1,
    ;
    let total_width = count * textures.board_width + (count - 1) * INSTANCE_GAP;
    total_width <= term_width
}

/// `n` times the horizontal box-drawing bar.
pub open spec fn bar(n: nat) -> Seq<char> {
    Seq::new(n, |i: int| '\u{2500}')
}

/// A text line between two vertical box-drawing bars.
pub open spec fn barred(line: Seq<char>) -> Seq<char> {
    seq!['\u{2502}'] + line + seq!['\u{2502}']
}

/// The lines of a message drawn in a box as wide as its longest line: a top edge, each
/// line between bars (one empty line for an empty message), a bottom edge.
pub open spec fn boxed_lines(msg: Seq<char>) -> Seq<Seq<char>> {
    let ls = lines_spec(msg);
    let w = max_line_len(ls);
    let middle = if ls.len() == 0 {
        seq![seq![]]
    } else {
        ls.map_values(|l: Seq<char>| barred(l))
    };
    seq![seq!['\u{250c}'] + bar(w) + seq!['\u{2510}']] + middle + seq![seq!['\u{2514}'] + bar(w) + seq!['\u{2518}']]
}

/// The first `n` of `lines`, each printed at column `x` on its own row from row `y` down.
pub open spec fn lines_at(lines: Seq<Seq<char>>, x: u16, y: int, n: nat) -> Seq<DrawModel>
    decreases n,
{
    if n == 0 {
        seq![]
    } else {
        lines_at(lines, x, y, (n - 1) as nat) + seq![
            DrawModel::MoveTo(x, (y + n - 1) as u16),
            DrawModel::Print(lines[n - 1]),
        ]
    }
}

/// The message asking to confirm the removal of board `index` (counted from 1 on
/// screen).
pub open spec fn remove_confirm_text(strings: &Strings, index: usize) -> Seq<char> {
    strings.fmt_spec("confirm.remove"@, seq![decimal((index + 1) as nat)])
}

/// The removal dialog: the boxed message centred on the terminal.
pub open spec fn remove_confirm_ops(strings: &Strings, index: usize, term_size: (u16, u16)) -> Seq<DrawModel> {
    let msg = remove_confirm_text(strings, index);
    let box_lines = boxed_lines(msg);
    let width = max_line_len(lines_spec(msg)) + 2;
    let x = (sat_sub(term_size.0 as int, width as int) / 2) as u16;
    let y = sat_sub(term_size.1 as int, box_lines.len() as int) / 2;
    lines_at(box_lines, x, y, box_lines.len())
}

/// The edges of a box around text `w` characters wide.
fn box_edge(left: char, w: usize, right: char) -> (r: String)
    ensures
        r@ == seq![left] + bar(w as nat) + seq![right],
{
    let mut r = String::new();
    push_char(&mut r, left);
    let mut i: usize = 0;
    while i < w
        invariant
            i <= w,
            r@ == seq![left] + bar(i as nat),
        decreases w - i,
    {
        push_char(&mut r, '\u{2500}');
        proof {
            assert(bar((i + 1) as nat) =~= bar(i as nat).push('\u{2500}'));
        }
        i += 1;
    }
    push_char(&mut r, right);
    r
}

/// Draws a centred box asking whether to remove board `index`.
pub fn display_remove_confirm(out: &mut Vec<DrawOp>, index: usize, term_size: (u16, u16), strings: &Strings)
    requires
        index < usize::MAX,
        lines_spec(remove_confirm_text(strings, index)).len() + 3 <= u16::MAX,
    ensures
        ops_view(final(out)@) == ops_view(old(out)@) + remove_confirm_ops(strings, index, term_size),
{
    let ghost start = ops_view(out@);
    let number = usize_to_string(index + 1);
    let args: [&str; 1] = [number.as_str()];
    let raw = strings.fmt("confirm.remove", &args);
    proof {
        assert(args@.map_values(|a: &str| a@) =~= seq![decimal((index + 1) as nat)]);
    }
    let raw_lines = lines(raw.as_str());
    let ghost ls = raw_lines@.map_values(|l: &str| l@);
    let n = raw_lines.len();
    let mut w: usize = 0;
    let mut i: usize = 0;
    while i < n
        invariant
            n == raw_lines@.len(),
            ls == raw_lines@.map_values(|l: &str| l@),
            i <= n,
            w == max_line_len(ls.take(i as int)),
        decreases n - i,
    {
        proof {
            assert(ls.take(i + 1).drop_last() =~= ls.take(i as int));
            assert(ls.take(i + 1).last() == raw_lines@[i as int]@);
        }
        let len = raw_lines[i].unicode_len();
        if len > w {
            w = len;
        }
        i += 1;
    }
    proof {
        assert(ls.take(n as int) =~= ls);
    }
    let ghost box_lines = boxed_lines(raw@);
    let height = if n == 0 {
        3
    } else {
        n + 2
    };
    assert(box_lines.len() == height);
    let tw = term_size.0 as usize;
    let x: u16 = if w <= tw && tw - w >= 2 {
        ((tw - w - 2) / 2) as u16
    } else {
        0
    };
    let y: u16 = if (term_size.1 as usize) >= height {
        ((term_size.1 as usize - height) / 2) as u16
    } else {
        0
    };
    let ghost before = ops_view(out@);
    out.push(DrawOp::MoveTo(x, y));
    out.push(DrawOp::Print(box_edge('\u{250c}', w, '\u{2510}')));
    proof {
        assert(ls == lines_spec(raw@));
        assert(lines_at(box_lines, x, y as int, 0) =~= seq![]);
        assert(ops_view(out@) =~= start + lines_at(box_lines, x, y as int, 1));
    }
    assert(y as int + height as int <= 0x10000);
    if n == 0 {
        out.push(DrawOp::MoveTo(x, y + 1));
        out.push(DrawOp::Print(String::new()));
        proof {
            assert(ops_view(out@) =~= start + lines_at(box_lines, x, y as int, 2));
        }
    }
    let mut j: usize = 0;
    while j < n
        invariant
            n == raw_lines@.len(),
            ls == raw_lines@.map_values(|l: &str| l@),
            box_lines == boxed_lines(raw@),
            ls == lines_spec(raw@),
            j <= n,
            n + 3 <= u16::MAX,
            height == if n == 0 {
                3
            } else {
                n + 2
            },
            y as int + height as int <= 0x10000,
            ops_view(out@) == start + lines_at(box_lines, x, y as int, (if n == 0 { 2 } else { j + 1 }) as nat),
        decreases n - j,
    {
        let mut line = String::new();
        push_char(&mut line, '\u{2502}');
        line.append(raw_lines[j]);
        push_char(&mut line, '\u{2502}');
        let row = y + (j as u16) + 1;
        let ghost before_line = ops_view(out@);
        out.push(DrawOp::MoveTo(x, row));
        out.push(DrawOp::Print(line));
        proof {
            assert(line@ =~= barred(ls[j as int]));
            assert(box_lines[j + 1] == barred(ls[j as int]));
            assert(ops_view(out@) =~= before_line + seq![DrawModel::MoveTo(x, row), DrawModel::Print(line@)]);
            assert(ops_view(out@) =~= start + lines_at(box_lines, x, y as int, (j + 2) as nat));
        }
        j += 1;
    }
    proof {
        assert(box_lines[height - 1] == seq!['\u{2514}'] + bar(w as nat) + seq!['\u{2518}']);
    }
    let bottom_row = y + (height as u16) - 1;
    let ghost before_bottom = ops_view(out@);
    let bottom = box_edge('\u{2514}', w, '\u{2518}');
    out.push(DrawOp::MoveTo(x, bottom_row));
    out.push(DrawOp::Print(bottom));
    proof {
        assert(before_bottom == start + lines_at(box_lines, x, y as int, (height - 1) as nat));
        assert(bottom_row == (y + height - 1) as u16);
        assert(ops_view(out@) =~= before_bottom + seq![DrawModel::MoveTo(x, bottom_row), DrawModel::Print(bottom@)]);
        assert(ops_view(out@) =~= start + lines_at(box_lines, x, y as int, height as nat));
        assert(ops_view(out@) =~= start + remove_confirm_ops(strings, index, term_size));
    }
}

/// One board's part of a frame: drawn (dimmed unless it is the active one and no dialog
/// is open) when it changed or the removal dialog is open, else nothing.
pub open spec fn board_frame(
    rt: Runtime,
    is_active: bool,
    confirm_remove: bool,
    term_size: (u16, u16),
    anim_y: [[i32; GRID_ROWS]; GRID_COLS],
    ctx: &Context,
) -> Seq<DrawModel> {
    if rt.dirty || confirm_remove {
        draw_ops(
            &rt,
            is_active,
            !is_active || confirm_remove,
            term_size,
            anim_y@.map_values(|row: [i32; GRID_ROWS]| row@),
            ctx,
        )
    } else {
        seq![]
    }
}

/// The parts of the first `n` boards.
pub open spec fn boards_frame(
    instances: Seq<Runtime>,
    active: usize,
    confirm_remove: bool,
    term_size: (u16, u16),
    anim_y: Seq<[[i32; GRID_ROWS]; GRID_COLS]>,
    ctx: &Context,
    n: nat,
) -> Seq<DrawModel>
    decreases n,
{
    if n == 0 {
        seq![]
    } else {
        let i = n - 1;
        boards_frame(instances, active, confirm_remove, term_size, anim_y, ctx, (n - 1) as nat) + board_frame(
            instances[i],
            i == active,
            confirm_remove,
            term_size,
            anim_y[i],
            ctx,
        )
    }
}

/// A whole frame, inside a synchronized update: the boards, then the removal dialog
/// when it is open.
pub open spec fn redraw_ops(
    app: &AppState,
    term_size: (u16, u16),
    anim_y: Seq<[[i32; GRID_ROWS]; GRID_COLS]>,
    ctx: &Context,
) -> Seq<DrawModel> {
    seq![DrawModel::Raw(begin_sync_bytes())] + boards_frame(
        app.instances@,
        app.active,
        app.confirm_remove,
        term_size,
        anim_y,
        ctx,
        app.instances@.len(),
    ) + (if app.confirm_remove {
        remove_confirm_ops(&ctx.strings, app.active, term_size)
    } else {
        seq![]
    }) + seq![DrawModel::Raw(end_sync_bytes())]
}

/// The boards as they are after a frame: none of them needs drawing any more.
pub open spec fn drawn(instances: Seq<RuntimeModel>) -> Seq<RuntimeModel> {
    instances.map_values(|r: RuntimeModel| RuntimeModel { dirty: false, ..r })
}

/// What drawing a frame needs: the textures measured, and every board's texts short
/// enough to place (see `status_fits`), and the removal dialog short enough for the
/// terminal's rows.
pub open spec fn frame_fits(app: &AppState, anim_y: Seq<[[i32; GRID_ROWS]; GRID_COLS]>, ctx: &Context) -> bool {
    &&& ctx.textures.wf()
    &&& ctx.textures.char_x_positions@.len() >= GRID_COLS
    &&& anim_y.len() == app.instances@.len()
    &&& forall|i: int|
        0 <= i < app.instances@.len() ==> status_fits(
            #[trigger] app.instances@[i]@,
            app.instances@[i].score_strings@.map_values(|s: String| s@),
            ctx,
        )
    &&& forall|i: int, c: int, r: int|
        0 <= i < anim_y.len() && 0 <= c < GRID_COLS && 0 <= r < GRID_ROWS ==> -0x4000_0000 <= #[trigger] anim_y[i][c][r]
            <= 0x4000_0000
    &&& lines_spec(remove_confirm_text(&ctx.strings, app.active)).len() + 3 <= u16::MAX
}

/// Draws a frame: every board that changed (all of them while the removal dialog is
/// open), each falling disk at the row `anim_y` gives for its board and cell, then the
/// dialog; afterwards no board needs drawing.
pub fn redraw(
    out: &mut Vec<DrawOp>,
    app: &mut AppState,
    term_size: (u16, u16),
    anim_y: &Vec<[[i32; GRID_ROWS]; GRID_COLS]>,
    ctx: &Context,
)
    requires
        old(app).wf(&ctx.strings),
        frame_fits(old(app), anim_y@, ctx),
    ensures
        final(app).wf(&ctx.strings),
        final(app)@ == (crate::app::AppModel { instances: drawn(old(app)@.instances), ..old(app)@ }),
        ops_view(final(out)@) == ops_view(old(out)@) + redraw_ops(old(app), term_size, anim_y@, ctx),
{
    let ghost start = ops_view(out@);
    let ghost old_app = *app;
    let ghost insts = app.instances@;
    begin_sync(out);
    let n = app.instances.len();
    let mut i: usize = 0;
    while i < n
        invariant
            n == app.instances@.len(),
            n == insts.len(),
            i <= n,
            app.active == old_app.active,
            app.confirm_remove == old_app.confirm_remove,
            old_app.wf(&ctx.strings),
            frame_fits(&old_app, anim_y@, ctx),
            insts == old_app.instances@,
            forall|j: int| i <= j < n ==> #[trigger] app.instances@[j] == insts[j],
            forall|j: int| 0 <= j < i ==> #[trigger] app.instances@[j]@ == (RuntimeModel { dirty: false, ..insts[j]@ }),
            forall|j: int| 0 <= j < i ==> #[trigger] app.instances@[j].wf(&ctx.strings),
            ops_view(out@) == start + seq![DrawModel::Raw(begin_sync_bytes())] + boards_frame(
                insts,
                app.active,
                app.confirm_remove,
                term_size,
                anim_y@,
                ctx,
                i as nat,
            ),
        decreases n - i,
    {
        let is_active = i == app.active;
        let dim = !is_active || app.confirm_remove;
        let ghost before = ops_view(out@);
        proof {
            assert(insts[i as int].wf(&ctx.strings));
            assert(on_screen(old_app@.instances[i as int].translate));
            assert(status_fits(
                insts[i as int]@,
                insts[i as int].score_strings@.map_values(|s: String| s@),
                ctx,
            ));
            assert forall|c: int, r: int| 0 <= c < GRID_COLS && 0 <= r < GRID_ROWS implies -0x4000_0000
                <= #[trigger] anim_y@[i as int][c][r] <= 0x4000_0000 by {
                assert(-0x4000_0000 <= anim_y@[i as int][c][r] <= 0x4000_0000);
            }
        }
        if app.instances[i].dirty || app.confirm_remove {
            app.instances[i].draw(out, is_active, dim, term_size, &anim_y[i], ctx);
            app.instances[i].dirty = false;
        }
        proof {
            assert(ops_view(out@) =~= before + board_frame(
                insts[i as int],
                i == app.active,
                app.confirm_remove,
                term_size,
                anim_y@[i as int],
                ctx,
            ));
            assert(app.instances@[i as int]@ =~= (RuntimeModel { dirty: false, ..insts[i as int]@ }));
        }
        i += 1;
    }
    if app.confirm_remove {
        display_remove_confirm(out, app.active, term_size, &ctx.strings);
    }
    end_sync(out);
    proof {
        assert(instances_view(app.instances@) =~= drawn(old_app@.instances));
        assert(ops_view(out@) =~= start + redraw_ops(&old_app, term_size, anim_y@, ctx));
    }
}

/// Whether a frame can be drawn: see `frame_fits`.
pub fn frame_fits_check(app: &AppState, anim_y: &Vec<[[i32; GRID_ROWS]; GRID_COLS]>, ctx: &Context) -> (b: bool)
    requires
        app.wf(&ctx.strings),
    ensures
        b == frame_fits(app, anim_y@, ctx),
{
    let t = &ctx.textures;
    if t.disk_height_i32 != t.disk_height as i32 || t.char_x_positions.len() < GRID_COLS
        || anim_y.len() != app.instances.len() {
        return false;
    }
    let mut k: usize = 0;
    while k < t.char_x_positions.len()
        invariant
            t == &ctx.textures,
            k <= t.char_x_positions@.len(),
            forall|j: int| 0 <= j < k ==> 0 <= #[trigger] t.char_x_positions@[j] <= u16::MAX,
        decreases t.char_x_positions@.len() - k,
    {
        let x = t.char_x_positions[k];
        if x < 0 || x > 0xffff {
            proof {
                assert(!(0 <= t.char_x_positions@[k as int] <= u16::MAX));
                assert(!ctx.textures.wf());
            }
            return false;
        }
        k += 1;
    }
    assert(ctx.textures.wf());
    let n = app.instances.len();
    let mut i: usize = 0;
    while i < n
        invariant
            n == app.instances@.len(),
            app.wf(&ctx.strings),
            i <= n,
            forall|j: int|
                0 <= j < i ==> status_fits(
                    #[trigger] app.instances@[j]@,
                    app.instances@[j].score_strings@.map_values(|s: String| s@),
                    ctx,
                ),
        decreases n - i,
    {
        assert(app.instances@[i as int].wf(&ctx.strings));
        if !app.instances[i].status_fits_check(ctx) {
            return false;
        }
        i += 1;
    }
    let mut i: usize = 0;
    while i < n
        invariant
            n == anim_y@.len(),
            i <= n,
            forall|a: int, c: int, r: int|
                0 <= a < i && 0 <= c < GRID_COLS && 0 <= r < GRID_ROWS ==> -0x4000_0000 <= #[trigger] anim_y@[a][c][r]
                    <= 0x4000_0000,
        decreases n - i,
    {
        let mut c: usize = 0;
        while c < GRID_COLS
            invariant
                n == anim_y@.len(),
                i < n,
                c <= GRID_COLS,
                forall|a: int, cc: int, r: int|
                    0 <= a < i && 0 <= cc < GRID_COLS && 0 <= r < GRID_ROWS ==> -0x4000_0000
                        <= #[trigger] anim_y@[a][cc][r] <= 0x4000_0000,
                forall|cc: int, r: int|
                    0 <= cc < c && 0 <= r < GRID_ROWS ==> -0x4000_0000 <= #[trigger] anim_y@[i as int][cc][r]
                        <= 0x4000_0000,
            decreases GRID_COLS - c,
        {
            let mut r: usize = 0;
            while r < GRID_ROWS
                invariant
                    n == anim_y@.len(),
                    i < n,
                    c < GRID_COLS,
                    r <= GRID_ROWS,
                    forall|a: int, cc: int, rr: int|
                        0 <= a < i && 0 <= cc < GRID_COLS && 0 <= rr < GRID_ROWS ==> -0x4000_0000
                            <= #[trigger] anim_y@[a][cc][rr] <= 0x4000_0000,
                    forall|cc: int, rr: int|
                        0 <= cc < c && 0 <= rr < GRID_ROWS ==> -0x4000_0000 <= #[trigger] anim_y@[i as int][cc][rr]
                            <= 0x4000_0000,
                    forall|rr: int| 0 <= rr < r ==> -0x4000_0000 <= #[trigger] anim_y@[i as int][c as int][rr] <= 0x4000_0000,
                decreases GRID_ROWS - r,
            {
                let v = anim_y[i][c][r];
                if v < -0x4000_0000 || v > 0x4000_0000 {
                    return false;
                }
                r += 1;
            }
            c += 1;
        }
        i += 1;
    }
    let number = usize_to_string(app.active + 1);
    let args: [&str; 1] = [number.as_str()];
    let text = ctx.strings.fmt("confirm.remove", &args);
    proof {
        assert(args@.map_values(|a: &str| a@) =~= seq![decimal((app.active + 1) as nat)]);
    }
    let text_lines = lines(text.as_str());
    proof {
        assert(text_lines@.map_values(|l: &str| l@).len() == text_lines@.len());
    }
    text_lines.len() <= 0xffff - 3
}

} // verus!
