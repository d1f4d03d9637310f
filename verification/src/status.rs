//! What one instance draws: its board, disks, animations and the texts around it.
use vstd::prelude::*;
use vstd::string::StringExecFns;

use crate::config::Context;
use crate::disk::{disk_ops, Disk};
use crate::draw::{ops_view, DrawModel, DrawOp};
use crate::game::{on_screen, Game};
use crate::grid::{GRID_COLS, GRID_ROWS};
use crate::runtime::{Runtime, RuntimeModel};
use crate::strings::Strings;
use crate::text::{chars_in_bytes, decimal, ends_on_char, skip_bytes, usize_to_string, utf8_len, utf8_len_at_most};
use crate::textures::Textures;
use crate::translate::{clamp_coord, screen_coord};
use crate::types::{ActionBanner, GameState};

verus! {

/// Text printed in a colour, then the colour reset (and the board dimmed again when it
/// is inactive, since the reset clears the dim attribute).
pub open spec fn color_print_ops(color: (u8, u8, u8), msg: Seq<char>, is_active: bool) -> Seq<DrawModel> {
    seq![DrawModel::SetForeground(color.0, color.1, color.2), DrawModel::Print(msg), DrawModel::ResetColor]
        + if is_active {
        seq![]
    } else {
        seq![DrawModel::Dim]
    }
}

/// The column where text `width` bytes wide starts when centred on `center`.
pub open spec fn centered(center: int, width: nat) -> u16 {
    screen_coord(center - width / 2)
}

/// `msg` with a space on each side.
pub open spec fn padded(msg: Seq<char>) -> Seq<char> {
    seq![' '] + msg + seq![' ']
}

pub open spec fn placement_key(is_redo: bool) -> Seq<char> {
    if is_redo {
        "action.placement.redo"@
    } else {
        "action.placement.undo"@
    }
}

pub open spec fn reset_key(is_redo: bool) -> Seq<char> {
    if is_redo {
        "action.reset.redo"@
    } else {
        "action.reset.undo"@
    }
}

/// The coloured part of a placement banner: " Player N".
pub open spec fn player_prefix(player: usize) -> Seq<char> {
    " Player "@ + decimal((player + 1) as nat)
}

/// The placement banner text: the template filled with the player and column numbers.
pub open spec fn placement_text(strings: &Strings, player: usize, col: usize, is_redo: bool) -> Seq<char> {
    strings.fmt_spec(placement_key(is_redo), seq![decimal((player + 1) as nat), decimal((col + 1) as nat)])
}

/// The plain part of a placement banner: the text after its first "Player N" bytes, and a
/// space.
pub open spec fn placement_suffix(strings: &Strings, player: usize, col: usize, is_redo: bool) -> Seq<char> {
    let full = placement_text(strings, player, col, is_redo);
    full.skip(chars_in_bytes(full, utf8_len(player_prefix(player)) - 1)->0) + seq![' ']
}

/// The total byte length of the texts.
pub open spec fn total_utf8_len(texts: Seq<Seq<char>>) -> nat
    decreases texts.len(),
{
    if texts.len() == 0 {
        0
    } else {
        total_utf8_len(texts.drop_last()) + utf8_len(texts.last())
    }
}

/// The score lines from the first up to (not including) `n`, each in its player's colour
/// and followed by the separator unless it is the last.
pub open spec fn score_parts(
    lines: Seq<Seq<char>>,
    sep: Seq<char>,
    colors: [(u8, u8, u8); 2],
    is_active: bool,
    n: nat,
) -> Seq<DrawModel>
    decreases n,
{
    if n == 0 {
        seq![]
    } else {
        let i = n - 1;
        score_parts(lines, sep, colors, is_active, (n - 1) as nat) + color_print_ops(colors@[i], lines[i], is_active)
            + if i < lines.len() - 1 {
            seq![DrawModel::Print(sep)]
        } else {
            seq![]
        }
    }
}

/// The texts around one board, as `display_status` draws them.
pub struct StatusLayout {
    pub center: int,
    pub turn_y: u16,
    pub undo_y: u16,
    pub status_y: u16,
}

pub open spec fn status_layout(m: RuntimeModel, textures: &Textures) -> StatusLayout {
    let t = m.translate;
    StatusLayout {
        center: t.x + textures.board_width / 2,
        turn_y: screen_coord(t.y - 5),
        undo_y: screen_coord(t.y - 3),
        status_y: screen_coord(t.y - 1),
    }
}

/// The column cursor, shown only on the active board while its game goes on and no
/// prompt is open.
pub open spec fn cursor_ops(m: RuntimeModel, is_active: bool, ctx: &Context) -> Seq<DrawModel> {
    let tex = &ctx.textures;
    if is_active && m.show_cursor && m.state == GameState::Playing && !m.confirm_reset && m.selected_col
        < tex.char_x_positions@.len() {
        seq![
            DrawModel::MoveTo(
                screen_coord(m.translate.x + tex.char_x_positions@[m.selected_col as int]),
                status_layout(m, tex).status_y,
            ),
        ] + color_print_ops(ctx.config.player_colors@[m.current_player as int], tex.col_cursor@, is_active)
    } else {
        seq![]
    }
}

/// The undo/redo banner.
pub open spec fn banner_ops(m: RuntimeModel, is_active: bool, ctx: &Context) -> Seq<DrawModel> {
    let l = status_layout(m, &ctx.textures);
    match m.banner {
        None => seq![],
        Some(ActionBanner::Placement { player, col, is_redo }) => {
            let prefix = player_prefix(player);
            let suffix = placement_suffix(&ctx.strings, player, col, is_redo);
            seq![DrawModel::MoveTo(centered(l.center, utf8_len(prefix) + utf8_len(suffix)), l.undo_y)]
                + color_print_ops(ctx.config.player_colors@[player as int], prefix, is_active) + seq![
                DrawModel::Print(suffix),
            ]
        },
        Some(ActionBanner::Reset { is_redo }) => {
            let msg = padded(ctx.strings.fmt_spec(reset_key(is_redo), seq![]));
            seq![DrawModel::MoveTo(centered(l.center, utf8_len(msg)), l.undo_y), DrawModel::Print(msg)]
        },
    }
}

/// The turn indicator, the reset prompt, or the end-of-game message.
pub open spec fn state_ops(m: RuntimeModel, is_active: bool, ctx: &Context) -> Seq<DrawModel> {
    let l = status_layout(m, &ctx.textures);
    let colors = ctx.config.player_colors;
    match m.state {
        GameState::Playing => if m.confirm_reset {
            let msg = padded(ctx.strings.fmt_spec("confirm.reset"@, seq![]));
            seq![DrawModel::MoveTo(centered(l.center, utf8_len(msg)), l.turn_y), DrawModel::Print(msg)]
        } else {
            let msg = padded(ctx.strings.fmt_spec("player.turn"@, seq![decimal((m.current_player + 1) as nat)]));
            seq![DrawModel::MoveTo(centered(l.center, utf8_len(msg)), l.turn_y)] + color_print_ops(
                colors@[m.current_player as int],
                msg,
                is_active,
            )
        },
        GameState::Won(p) => {
            let msg = padded(ctx.strings.fmt_spec("player.wins"@, seq![decimal((p + 1) as nat)]));
            seq![DrawModel::MoveTo(centered(l.center, utf8_len(msg)), l.status_y)] + color_print_ops(
                colors@[p as int],
                msg,
                is_active,
            )
        },
        GameState::Tie => {
            let msg = padded(ctx.strings.fmt_spec("player.tie"@, seq![]));
            seq![DrawModel::MoveTo(centered(l.center, utf8_len(msg)), l.status_y), DrawModel::Print(msg)]
        },
    }
}

/// Byte width of the scoreboard: the score lines, the separators between them and a
/// space at each end.
pub open spec fn scoreboard_width(lines: Seq<Seq<char>>, sep: Seq<char>) -> nat {
    total_utf8_len(lines) + utf8_len(sep) * (if lines.len() > 0 { lines.len() - 1 } else { 0 }) as nat + 2
}

/// The scoreboard on the bottom row of the terminal.
pub open spec fn score_ops(
    m: RuntimeModel,
    lines: Seq<Seq<char>>,
    is_active: bool,
    term_size: (u16, u16),
    ctx: &Context,
) -> Seq<DrawModel> {
    let l = status_layout(m, &ctx.textures);
    let sep = ctx.strings.raw_spec("score.separator"@);
    seq![
        DrawModel::MoveTo(
            centered(l.center, scoreboard_width(lines, sep)),
            if term_size.1 > 0 { (term_size.1 - 1) as u16 } else { 0 },
        ),
        DrawModel::Print(seq![' ']),
    ] + score_parts(lines, sep, ctx.config.player_colors, is_active, lines.len()) + seq![DrawModel::Print(seq![' '])]
}

/// Everything `display_status` draws: cursor, banner, the turn/prompt/outcome line (left
/// out on an inactive board whose reset prompt is open) and, always, the scoreboard.
pub open spec fn status_ops(
    m: RuntimeModel,
    lines: Seq<Seq<char>>,
    is_active: bool,
    term_size: (u16, u16),
    ctx: &Context,
) -> Seq<DrawModel> {
    cursor_ops(m, is_active, ctx) + banner_ops(m, is_active, ctx) + (if m.state == GameState::Playing
        && m.confirm_reset && !is_active {
        seq![]
    } else {
        state_ops(m, is_active, ctx)
    }) + score_ops(m, lines, is_active, term_size, ctx)
}

/// A text, padded by a space on each side, is at most `i32::MAX` bytes wide: the width
/// that centring takes as an `i32`.
pub open spec fn text_fits(t: Seq<char>) -> bool {
    utf8_len(t) + 2 <= i32::MAX
}

/// Every text that `display_status` centres is at most `i32::MAX` bytes wide with its
/// padding, and the placement banner's text starts with as many bytes as "Player N"
/// ending on a character.
pub open spec fn status_fits(m: RuntimeModel, lines: Seq<Seq<char>>, ctx: &Context) -> bool {
    let s = &ctx.strings;
    &&& match m.banner {
        Some(ActionBanner::Placement { player, col, is_redo }) => {
            &&& text_fits(placement_text(s, player, col, is_redo))
            &&& chars_in_bytes(placement_text(s, player, col, is_redo), utf8_len(player_prefix(player)) - 1) is Some
        },
        Some(ActionBanner::Reset { is_redo }) => text_fits(s.fmt_spec(reset_key(is_redo), seq![])),
        None => true,
    }
    &&& text_fits(s.fmt_spec("confirm.reset"@, seq![]))
    &&& text_fits(s.fmt_spec("player.turn"@, seq![decimal((m.current_player + 1) as nat)]))
    &&& (m.state matches GameState::Won(p) ==> text_fits(s.fmt_spec("player.wins"@, seq![decimal((p + 1) as nat)])))
    &&& text_fits(s.fmt_spec("player.tie"@, seq![]))
    &&& scoreboard_width(lines, s.raw_spec("score.separator"@)) <= i32::MAX
}

/// Which cells have a running animation, `[col][row]`.
pub open spec fn animating(m: RuntimeModel) -> Seq<Seq<bool>> {
    Seq::new(GRID_COLS as nat, |c: int| Seq::new(GRID_ROWS as nat, |r: int| m.animators[c][r] is Some))
}

/// The falling disk of cell (c, r), drawn at row `anim_y[c][r]` of the board (dimmed
/// again afterwards when the board is dimmed), or nothing when the cell is not animating.
pub open spec fn animation_ops(m: RuntimeModel, anim_y: Seq<Seq<i32>>, dim: bool, ctx: &Context, c: int, r: int) -> Seq<DrawModel> {
    match m.animators[c][r] {
        Some(a) => disk_ops(
            a.disk,
            ctx.textures.char_x_positions@[a.col as int] as int,
            anim_y[c][r] as int,
            &ctx.textures,
            m.translate,
        ) + if dim {
            seq![DrawModel::Dim]
        } else {
            seq![]
        },
        None => seq![],
    }
}

/// The animations of the cells before (c, r) in column-major order.
pub open spec fn animations_ops(m: RuntimeModel, anim_y: Seq<Seq<i32>>, dim: bool, ctx: &Context, n: nat) -> Seq<DrawModel>
    decreases n,
{
    if n == 0 {
        seq![]
    } else {
        let k = n - 1;
        animations_ops(m, anim_y, dim, ctx, (n - 1) as nat) + animation_ops(
            m,
            anim_y,
            dim,
            ctx,
            k / (GRID_ROWS as int),
            k % (GRID_ROWS as int),
        )
    }
}

/// Everything `draw` produces for one board.
pub open spec fn draw_ops(
    rt: &Runtime,
    is_active: bool,
    dim: bool,
    term_size: (u16, u16),
    anim_y: Seq<Seq<i32>>,
    ctx: &Context,
) -> Seq<DrawModel> {
    let shown_active = is_active && !dim;
    (if dim { seq![DrawModel::Dim] } else { seq![] }) + rt.game.whitespace_ops(&ctx.textures) + rt.game.disks_ops(
        animating(rt@),
        shown_active,
        &ctx.textures,
        ctx.config.player_colors,
        GRID_COLS as nat,
    ) + animations_ops(rt@, anim_y, dim, ctx, (GRID_COLS * GRID_ROWS) as nat) + rt.game.board_ops(&ctx.textures)
        + status_ops(rt@, rt.score_strings@.map_values(|s: String| s@), shown_active, term_size, ctx) + if dim {
        seq![DrawModel::NormalIntensity]
    } else {
        seq![]
    }
}

/// Drawing the parts of a board one after the other draws the board.
proof fn lemma_draw_parts(
    rt: &Runtime,
    is_active: bool,
    dim: bool,
    term_size: (u16, u16),
    anim_y: Seq<Seq<i32>>,
    ctx: &Context,
    start: Seq<DrawModel>,
    s1: Seq<DrawModel>,
    s2: Seq<DrawModel>,
    s3: Seq<DrawModel>,
    s4: Seq<DrawModel>,
    s5: Seq<DrawModel>,
    s6: Seq<DrawModel>,
    end: Seq<DrawModel>,
)
    requires
        s1 == start + if dim { seq![DrawModel::Dim] } else { seq![] },
        s2 == s1 + rt.game.whitespace_ops(&ctx.textures),
        s3 == s2 + rt.game.disks_ops(animating(rt@), is_active && !dim, &ctx.textures, ctx.config.player_colors, GRID_COLS as nat),
        s4 == s3 + animations_ops(rt@, anim_y, dim, ctx, (GRID_COLS * GRID_ROWS) as nat),
        s5 == s4 + rt.game.board_ops(&ctx.textures),
        s6 == s5 + status_ops(rt@, rt.score_strings@.map_values(|s: String| s@), is_active && !dim, term_size, ctx),
        end == s6 + if dim { seq![DrawModel::NormalIntensity] } else { seq![] },
    ensures
        end == start + draw_ops(rt, is_active, dim, term_size, anim_y, ctx),
{
    assert(end =~= start + draw_ops(rt, is_active, dim, term_size, anim_y, ctx));
}

/// Drawing the parts of the status one after the other draws the status.
proof fn lemma_status_parts(
    m: RuntimeModel,
    lines: Seq<Seq<char>>,
    is_active: bool,
    term_size: (u16, u16),
    ctx: &Context,
    start: Seq<DrawModel>,
    a: Seq<DrawModel>,
    b: Seq<DrawModel>,
    c: Seq<DrawModel>,
    d: Seq<DrawModel>,
)
    requires
        a == start + cursor_ops(m, is_active, ctx),
        b == a + banner_ops(m, is_active, ctx),
        m.state == GameState::Playing && m.confirm_reset && !is_active ==> c == b,
        !(m.state == GameState::Playing && m.confirm_reset && !is_active) ==> c == b + state_ops(m, is_active, ctx),
        d == c + score_ops(m, lines, is_active, term_size, ctx),
    ensures
        d == start + status_ops(m, lines, is_active, term_size, ctx),
{
    if m.state == GameState::Playing && m.confirm_reset && !is_active {
        assert(d =~= start + status_ops(m, lines, is_active, term_size, ctx));
    } else {
        assert(d =~= start + status_ops(m, lines, is_active, term_size, ctx));
    }
}

/// Padding adds two bytes.
proof fn lemma_padded_len(t: Seq<char>)
    ensures
        utf8_len(padded(t)) == utf8_len(t) + 2,
{
    crate::text::lemma_utf8_concat(seq![' '] + t, seq![' ']);
    crate::text::lemma_utf8_concat(seq![' '], t);
    crate::text::lemma_utf8_len_push(Seq::<char>::empty(), ' ');
    assert(Seq::<char>::empty().push(' ') =~= seq![' ']);
    assert(vstd::utf8::encode_utf8(Seq::<char>::empty()) =~= Seq::<u8>::empty());
}

/// `color_print!`: coloured text, reset, and dim again on an inactive board.
fn color_print(out: &mut Vec<DrawOp>, color: (u8, u8, u8), msg: String, is_active: bool)
    ensures
        ops_view(final(out)@) == ops_view(old(out)@) + color_print_ops(color, msg@, is_active),
{
    let ghost start = ops_view(out@);
    let (r, g, b) = color;
    out.push(DrawOp::SetForeground(r, g, b));
    out.push(DrawOp::Print(msg));
    out.push(DrawOp::ResetColor);
    if !is_active {
        out.push(DrawOp::Dim);
    }
    proof {
        assert(ops_view(out@) =~= start + color_print_ops(color, msg@, is_active));
    }
}

/// The column where text `width` bytes wide starts when centred on `center`.
fn center_text(center: i32, width: usize) -> (x: u16)
    requires
        0 <= center <= 0x20_0000,
        width <= i32::MAX,
    ensures
        x == centered(center as int, width as nat),
{
    clamp_coord(center - (width as i32) / 2)
}

/// `msg` with a space on each side.
fn pad(msg: String) -> (r: String)
    ensures
        r@ == padded(msg@),
{
    let mut r = String::from_str(" ");
    r.append(msg.as_str());
    r.append(" ");
    proof {
        reveal_strlit(" ");
        assert(r@ =~= padded(msg@));
    }
    r
}

/// The byte width of a text.
fn byte_width(s: &String) -> (n: usize)
    requires
        utf8_len(s@) <= usize::MAX,
    ensures
        n == utf8_len(s@),
{
    s.as_str().len()
}

/// The bytes of a prefix of the texts are at most those of all of them.
proof fn lemma_total_utf8_len_prefix(texts: Seq<Seq<char>>, i: int)
    requires
        0 <= i <= texts.len(),
    ensures
        total_utf8_len(texts.take(i)) <= total_utf8_len(texts),
    decreases texts.len() - i,
{
    if i < texts.len() {
        lemma_total_utf8_len_prefix(texts, i + 1);
        assert(texts.take(i + 1).drop_last() =~= texts.take(i));
    } else {
        assert(texts.take(i) =~= texts);
    }
}

/// The bytes of the text after a prefix are at most those of the whole text.
proof fn lemma_utf8_len_skip(s: Seq<char>, k: int)
    requires
        0 <= k <= s.len(),
    ensures
        utf8_len(s.skip(k)) == utf8_len(s) - utf8_len(s.take(k)),
{
    crate::text::lemma_utf8_concat(s.take(k), s.skip(k));
    assert(s.take(k) + s.skip(k) =~= s);
}

impl Runtime {
    /// Draws the column cursor.
    fn show_cursor(&self, out: &mut Vec<DrawOp>, is_active: bool, ctx: &Context)
        requires
            self.wf(&ctx.strings),
            ctx.textures.wf(),
            on_screen(self.game.translate),
            status_fits(self@, self.score_strings@.map_values(|s: String| s@), ctx),
        ensures
            ops_view(final(out)@) == ops_view(old(out)@) + cursor_ops(self@, is_active, ctx),
    {
        let ghost m = self@;
        let ghost lines = self.score_strings@.map_values(|s: String| s@);
        let ghost start = ops_view(out@);
        let textures = &ctx.textures;
        let strings = &ctx.strings;
        let colors = &ctx.config.player_colors;
        let translate = &self.game.translate;
        let board_center_x = translate.x + (textures.board_width as i32) / 2;
        let turn_y = clamp_coord(translate.y - 5);
        let undo_y = clamp_coord(translate.y - 3);
        let status_y = clamp_coord(translate.y - 1);
        // Column cursor.
        if is_active && self.show_cursor && self.game.state == GameState::Playing && !self.confirm_reset
            && self.selected_col < textures.char_x_positions.len() {
            let cursor_x = clamp_coord(translate.x + textures.char_x_positions[self.selected_col]);
            out.push(DrawOp::MoveTo(cursor_x, status_y));
            color_print(out, colors[self.current_player], textures.col_cursor.clone(), is_active);
        }
        proof {
            assert(ops_view(out@) =~= start + cursor_ops(m, is_active, ctx));
        }

    }

    /// Draws the undo/redo banner.
    fn show_banner(&self, out: &mut Vec<DrawOp>, is_active: bool, ctx: &Context)
        requires
            self.wf(&ctx.strings),
            ctx.textures.wf(),
            on_screen(self.game.translate),
            status_fits(self@, self.score_strings@.map_values(|s: String| s@), ctx),
        ensures
            ops_view(final(out)@) == ops_view(old(out)@) + banner_ops(self@, is_active, ctx),
    {
        let ghost m = self@;
        let ghost lines = self.score_strings@.map_values(|s: String| s@);
        let ghost start = ops_view(out@);
        let textures = &ctx.textures;
        let strings = &ctx.strings;
        let colors = &ctx.config.player_colors;
        let translate = &self.game.translate;
        let board_center_x = translate.x + (textures.board_width as i32) / 2;
        let turn_y = clamp_coord(translate.y - 5);
        let undo_y = clamp_coord(translate.y - 3);
        let status_y = clamp_coord(translate.y - 1);
        // Undo / redo banner.
        match &self.action_banner {
            Some(ActionBanner::Placement { player, col, is_redo }) => {
                let player = *player;
                let col = *col;
                let key = if *is_redo {
                    "action.placement.redo"
                } else {
                    "action.placement.undo"
                };
                let player_number = usize_to_string(player + 1);
                let col_number = usize_to_string(col + 1);
                let args: Vec<&str> = vec![player_number.as_str(), col_number.as_str()];
                let full = strings.fmt(key, args.as_slice());
                let mut prefix = String::from_str(" Player ");
                prefix.append(player_number.as_str());
                proof {
                    reveal_strlit("action.placement.redo");
                    reveal_strlit("action.placement.undo");
                    assert(args@.map_values(|a: &str| a@) =~= seq![decimal((player + 1) as nat), decimal((col + 1) as nat)]);
                    assert(key@ == placement_key(*is_redo));
                    assert(full@ == placement_text(strings, player, col, *is_redo));
                    assert(prefix@ == player_prefix(player));
                    reveal_strlit(" Player ");
                    assert(decimal((player + 1) as nat).len() == 1);
                    assert(prefix@.len() == 9);
                    crate::text::lemma_utf8_len_at_most_4x(prefix@);
                }
                let prefix_width = byte_width(&prefix);
                proof {
                    reveal_strlit(" Player ");
                    assert(prefix@[0] == ' ');
                    assert(prefix@ =~= seq![' '] + prefix@.drop_first());
                    crate::text::lemma_utf8_concat(seq![' '], prefix@.drop_first());
                    assert(utf8_len(seq![' ']) == 1) by {
                        crate::text::lemma_utf8_len_push(Seq::<char>::empty(), ' ');
                        assert(Seq::<char>::empty().push(' ') =~= seq![' ']);
                    }
                }
                let rest = skip_bytes(full.as_str(), prefix_width - 1);
                let mut suffix = String::from_str(rest);
                suffix.append(" ");
                proof {
                    reveal_strlit(" ");
                    assert(suffix@ == placement_suffix(strings, player, col, *is_redo));
                    let k = chars_in_bytes(full@, utf8_len(player_prefix(player)) - 1)->0;
                    assert(utf8_len(full@.take(k)) == prefix_width - 1);
                    lemma_utf8_len_skip(full@, k);
                    crate::text::lemma_utf8_len_push(rest@, ' ');
                    assert(suffix@ =~= rest@.push(' '));
                    assert(utf8_len(suffix@) + prefix_width == utf8_len(full@) + 2);
                }
                let suffix_width = byte_width(&suffix);
                let x = center_text(board_center_x, prefix_width + suffix_width);
                let ghost sv = suffix@;
                let ghost pv = prefix@;
                let ghost before = ops_view(out@);
                out.push(DrawOp::MoveTo(x, undo_y));
                let ghost b1 = ops_view(out@);
                color_print(out, colors[player], prefix, is_active);
                let ghost b2 = ops_view(out@);
                out.push(DrawOp::Print(suffix));
                proof {
                    assert(b1 =~= before + seq![DrawModel::MoveTo(x, undo_y)]);
                    assert(ops_view(out@) =~= b2.push(DrawModel::Print(sv)));
                    assert(ops_view(out@) =~= before + seq![DrawModel::MoveTo(x, undo_y)] + color_print_ops(
                        colors@[player as int],
                        pv,
                        is_active,
                    ) + seq![DrawModel::Print(sv)]);
                    assert(ops_view(out@) =~= start + banner_ops(m, is_active, ctx));
                }
            },
            Some(ActionBanner::Reset { is_redo }) => {
                let key = if *is_redo {
                    "action.reset.redo"
                } else {
                    "action.reset.undo"
                };
                let no_args: Vec<&str> = Vec::new();
                let msg = pad(strings.fmt(key, no_args.as_slice()));
                proof {
                    reveal_strlit("action.reset.redo");
                    reveal_strlit("action.reset.undo");
                    assert(no_args@.map_values(|a: &str| a@) =~= Seq::<Seq<char>>::empty());
                    assert(key@ == reset_key(*is_redo));
                    lemma_padded_len(strings.fmt_spec(reset_key(*is_redo), seq![]));
                }
                let x = center_text(board_center_x, byte_width(&msg));
                let ghost mv = msg@;
                out.push(DrawOp::MoveTo(x, undo_y));
                out.push(DrawOp::Print(msg));
                proof {
                    assert(ops_view(out@) =~= start + seq![DrawModel::MoveTo(x, undo_y), DrawModel::Print(mv)]);
                    assert(ops_view(out@) =~= start + banner_ops(m, is_active, ctx));
                }
            },
            None => {
                proof {
                    assert(ops_view(out@) =~= start + banner_ops(m, is_active, ctx));
                }
            },
        }

    }

    /// Draws the turn indicator, the reset prompt or the outcome.
    fn show_state(&self, out: &mut Vec<DrawOp>, is_active: bool, ctx: &Context)
        requires
            self.wf(&ctx.strings),
            ctx.textures.wf(),
            on_screen(self.game.translate),
            status_fits(self@, self.score_strings@.map_values(|s: String| s@), ctx),
            !(self@.state == GameState::Playing && self@.confirm_reset && !is_active),
        ensures
            ops_view(final(out)@) == ops_view(old(out)@) + state_ops(self@, is_active, ctx),
    {
        let ghost m = self@;
        let ghost lines = self.score_strings@.map_values(|s: String| s@);
        let ghost start = ops_view(out@);
        let textures = &ctx.textures;
        let strings = &ctx.strings;
        let colors = &ctx.config.player_colors;
        let translate = &self.game.translate;
        let board_center_x = translate.x + (textures.board_width as i32) / 2;
        let turn_y = clamp_coord(translate.y - 5);
        let undo_y = clamp_coord(translate.y - 3);
        let status_y = clamp_coord(translate.y - 1);
        // Turn indicator, reset prompt or outcome.
        let no_args: Vec<&str> = Vec::new();
        proof {
            assert(no_args@.map_values(|a: &str| a@) =~= Seq::<Seq<char>>::empty());
        }
        match self.game.state {
            GameState::Playing => {
                if self.confirm_reset {
                    let msg = pad(strings.fmt("confirm.reset", no_args.as_slice()));
                    proof {
                        lemma_padded_len(strings.fmt_spec("confirm.reset"@, seq![]));
                    }
                    let x = center_text(board_center_x, byte_width(&msg));
                    out.push(DrawOp::MoveTo(x, turn_y));
                    out.push(DrawOp::Print(msg));
                } else {
                    let number = usize_to_string(self.current_player + 1);
                    let args: Vec<&str> = vec![number.as_str()];
                    let msg = pad(strings.fmt("player.turn", args.as_slice()));
                    proof {
                        assert(args@.map_values(|a: &str| a@) =~= seq![decimal((m.current_player + 1) as nat)]);
                        lemma_padded_len(strings.fmt_spec("player.turn"@, seq![decimal((m.current_player + 1) as nat)]));
                    }
                    let x = center_text(board_center_x, byte_width(&msg));
                    out.push(DrawOp::MoveTo(x, turn_y));
                    color_print(out, colors[self.current_player], msg, is_active);
                }
            },
            GameState::Won(p) => {
                let number = usize_to_string(p + 1);
                let args: Vec<&str> = vec![number.as_str()];
                let msg = pad(strings.fmt("player.wins", args.as_slice()));
                proof {
                    assert(args@.map_values(|a: &str| a@) =~= seq![decimal((p + 1) as nat)]);
                    lemma_padded_len(strings.fmt_spec("player.wins"@, seq![decimal((p + 1) as nat)]));
                }
                let x = center_text(board_center_x, byte_width(&msg));
                out.push(DrawOp::MoveTo(x, status_y));
                color_print(out, colors[p], msg, is_active);
            },
            GameState::Tie => {
                let msg = pad(strings.fmt("player.tie", no_args.as_slice()));
                proof {
                    lemma_padded_len(strings.fmt_spec("player.tie"@, seq![]));
                }
                let x = center_text(board_center_x, byte_width(&msg));
                out.push(DrawOp::MoveTo(x, status_y));
                out.push(DrawOp::Print(msg));
            },
        }
        proof {
            assert(ops_view(out@) =~= start + state_ops(m, is_active, ctx));
        }

    }

    /// Draws the scoreboard.
    fn show_scores(&self, out: &mut Vec<DrawOp>, is_active: bool, term_size: (u16, u16), ctx: &Context)
        requires
            self.wf(&ctx.strings),
            ctx.textures.wf(),
            on_screen(self.game.translate),
            status_fits(self@, self.score_strings@.map_values(|s: String| s@), ctx),
        ensures
            ops_view(final(out)@) == ops_view(old(out)@) + score_ops(
                self@,
                self.score_strings@.map_values(|s: String| s@),
                is_active,
                term_size,
                ctx,
            ),
    {
        let ghost m = self@;
        let ghost lines = self.score_strings@.map_values(|s: String| s@);
        let ghost start = ops_view(out@);
        let textures = &ctx.textures;
        let strings = &ctx.strings;
        let colors = &ctx.config.player_colors;
        let (_, term_height) = term_size;
        let translate = &self.game.translate;
        let board_center_x = translate.x + (textures.board_width as i32) / 2;
        let turn_y = clamp_coord(translate.y - 5);
        let undo_y = clamp_coord(translate.y - 3);
        let status_y = clamp_coord(translate.y - 1);
        // Scoreboard, always shown.
        let separator = strings.raw("score.separator");
        let n = self.score_strings.len();
        let mut total: usize = 0;
        let mut i: usize = 0;
        while i < n
            invariant
                n == self.score_strings@.len(),
                n == lines.len(),
                lines == self.score_strings@.map_values(|s: String| s@),
                i <= n,
                total == total_utf8_len(lines.take(i as int)),
                total_utf8_len(lines) <= i32::MAX,
            decreases n - i,
        {
            proof {
                lemma_total_utf8_len_prefix(lines, i + 1);
                assert(lines.take(i + 1).drop_last() =~= lines.take(i as int));
                assert(lines.take(i + 1).last() == self.score_strings@[i as int]@);
            }
            total = total + byte_width(&self.score_strings[i]);
            i += 1;
        }
        proof {
            assert(lines.take(n as int) =~= lines);
            assert(n == 2);
        }
        let sep_width = separator.len();
        proof {
            let k = (if lines.len() > 0 { lines.len() - 1 } else { 0 }) as nat;
            assert(k == 1);
            let sl = utf8_len(separator@);
            assert(sl * k == sl) by (nonlinear_arith)
                requires
                    k == 1,
            ;
            assert(utf8_len(separator@) <= i32::MAX);
            assert(sep_width == utf8_len(separator@));
            assert(sep_width * (n - 1) == sep_width);
        }
        let total_len = total + sep_width * (n - 1) + 2;
        let x = center_text(board_center_x, total_len);
        let score_y = if term_height > 0 {
            term_height - 1
        } else {
            0
        };
        let ghost before_move = ops_view(out@);
        out.push(DrawOp::MoveTo(x, score_y));
        let space = String::from_str(" ");
        proof {
            reveal_strlit(" ");
            assert(space@ =~= seq![' ']);
        }
        out.push(DrawOp::Print(space));
        let ghost parts_start = ops_view(out@);
        proof {
            assert(board_center_x as int == status_layout(m, textures).center);
            assert(x == centered(status_layout(m, textures).center, total_len as nat));
            assert(score_y == (if term_size.1 > 0 { (term_size.1 - 1) as u16 } else { 0 }));
            assert(before_move == start);
            assert(parts_start =~= start + seq![DrawModel::MoveTo(x, score_y), DrawModel::Print(seq![' '])]);
            assert(total_len == scoreboard_width(lines, strings.raw_spec("score.separator"@)));
            assert(parts_start =~= start + seq![
                DrawModel::MoveTo(
                    centered(status_layout(m, textures).center, scoreboard_width(lines, strings.raw_spec("score.separator"@))),
                    if term_size.1 > 0 { (term_size.1 - 1) as u16 } else { 0 },
                ),
                DrawModel::Print(seq![' ']),
            ]);
        }
        let mut j: usize = 0;
        while j < n
            invariant
                n == 2,
                n == self.score_strings@.len(),
                lines == self.score_strings@.map_values(|s: String| s@),
                j <= n,
                separator@ == strings.raw_spec("score.separator"@),
                ops_view(out@) == parts_start + score_parts(lines, separator@, *colors, is_active, j as nat),
            decreases n - j,
        {
            let ghost before = ops_view(out@);
            color_print(out, colors[j], self.score_strings[j].clone(), is_active);
            if j < n - 1 {
                out.push(DrawOp::Print(String::from_str(separator)));
            }
            proof {
                assert(ops_view(out@) =~= before + color_print_ops(colors@[j as int], lines[j as int], is_active)
                    + if j < n - 1 { seq![DrawModel::Print(separator@)] } else { seq![] });
            }
            j += 1;
        }
        let ghost before_end = ops_view(out@);
        let space = String::from_str(" ");
        out.push(DrawOp::Print(space));
        proof {
            reveal_strlit(" ");
            assert(space@ =~= seq![' ']);
            assert(ops_view(out@) =~= before_end.push(DrawModel::Print(seq![' '])));
            assert(ops_view(out@) =~= start + score_ops(m, lines, is_active, term_size, ctx));
        }
    }

    /// Which cells have a running animation.
    fn animating_mask(&self) -> (skip: [[bool; GRID_ROWS]; GRID_COLS])
        requires
            self@.wf(),
        ensures
            skip@.map_values(|row: [bool; GRID_ROWS]| row@) == animating(self@),
    {
        let ghost m = self@;
        let mut skip = [[false; GRID_ROWS]; GRID_COLS];
        let mut c: usize = 0;
        while c < GRID_COLS
            invariant
                c <= GRID_COLS,
                m == self@,
                self@.wf(),
                forall|i: int, j: int| 0 <= i < c && 0 <= j < GRID_ROWS ==> #[trigger] skip[i][j] == (m.animators[i][j] is Some),
            decreases GRID_COLS - c,
        {
            let mut r: usize = 0;
            while r < GRID_ROWS
                invariant
                    c < GRID_COLS,
                    r <= GRID_ROWS,
                    m == self@,
                    self@.wf(),
                    forall|i: int, j: int| 0 <= i < c && 0 <= j < GRID_ROWS ==> #[trigger] skip[i][j] == (m.animators[i][j] is Some),
                    forall|j: int| 0 <= j < r ==> #[trigger] skip[c as int][j] == (m.animators[c as int][j] is Some),
                decreases GRID_ROWS - r,
            {
                proof {
                    assert(m.animators[c as int][r as int] == self.animators[c as int][r as int]);
                }
                skip[c][r] = self.animators[c][r].is_some();
                r += 1;
            }
            c += 1;
        }
        proof {
            let sk = skip@.map_values(|row: [bool; GRID_ROWS]| row@);
            assert(sk =~= animating(m)) by {
                assert forall|i: int| 0 <= i < GRID_COLS implies #[trigger] sk[i] =~= animating(m)[i] by {
                    assert forall|j: int| 0 <= j < GRID_ROWS implies sk[i][j] == animating(m)[i][j] by {
                        assert(skip[i][j] == (m.animators[i][j] is Some));
                    }
                }
            }
        }

        skip
    }

    /// Draws the falling disks.
    fn display_animations(&self, out: &mut Vec<DrawOp>, dim: bool, anim_y: &[[i32; GRID_ROWS]; GRID_COLS], ctx: &Context)
        requires
            self.wf(&ctx.strings),
            ctx.textures.wf(),
            ctx.textures.char_x_positions@.len() >= GRID_COLS,
            on_screen(self.game.translate),
            forall|c: int, r: int| 0 <= c < GRID_COLS && 0 <= r < GRID_ROWS ==> -0x4000_0000 <= #[trigger] anim_y[c][r] <= 0x4000_0000,
        ensures
            ops_view(final(out)@) == ops_view(old(out)@) + animations_ops(
                self@,
                anim_y@.map_values(|row: [i32; GRID_ROWS]| row@),
                dim,
                ctx,
                (GRID_COLS * GRID_ROWS) as nat,
            ),
    {
        let ghost m = self@;
        let ghost ay = anim_y@.map_values(|row: [i32; GRID_ROWS]| row@);
        let ghost s3 = ops_view(out@);
        let textures = &ctx.textures;
        let mut k: usize = 0;
        while k < GRID_COLS * GRID_ROWS
            invariant
                k <= GRID_COLS * GRID_ROWS,
                m == self@,
                self.wf(&ctx.strings),
                ctx.textures.wf(),
                ctx.textures.char_x_positions@.len() >= GRID_COLS,
                on_screen(self.game.translate),
                ay == anim_y@.map_values(|row: [i32; GRID_ROWS]| row@),
                forall|c: int, r: int| 0 <= c < GRID_COLS && 0 <= r < GRID_ROWS ==> -0x4000_0000 <= #[trigger] anim_y[c][r] <= 0x4000_0000,
                ops_view(out@) == s3 + animations_ops(m, ay, dim, ctx, k as nat),
                textures == &ctx.textures,
            decreases GRID_COLS * GRID_ROWS - k,
        {
            let col = k / GRID_ROWS;
            let row = k % GRID_ROWS;
            assert(col < GRID_COLS && row < GRID_ROWS) by (nonlinear_arith)
                requires
                    k < GRID_COLS * GRID_ROWS,
                    col == k / GRID_ROWS,
                    row == k % GRID_ROWS,
            ;
            let ghost before = ops_view(out@);
            proof {
                assert(m.animators[col as int][row as int] == self.animators[col as int][row as int]);
                assert(ay[col as int][row as int] == anim_y[col as int][row as int]);
            }
            if let Some(animation) = &self.animators[col][row] {
                proof {
                    assert(m.animators[col as int][row as int] == Some(*animation));
                    assert(m.wf());
                    assert(m.animators[col as int][row as int] is Some);
                    assert(animation.col == col);
                    assert(0 <= textures.char_x_positions@[col as int] <= u16::MAX);
                }
                let x = textures.char_x_positions[animation.col];
                animation.disk.display(out, x, anim_y[col][row], textures, &self.game.translate);
                let ghost mid2 = ops_view(out@);
                if dim {
                    out.push(DrawOp::Dim);
                }
                proof {
                    assert(m.translate == self.game.translate);
                    assert(mid2 == before + disk_ops(animation.disk, x as int, ay[col as int][row as int] as int, textures, m.translate));
                    assert(ops_view(out@) =~= mid2 + if dim { seq![DrawModel::Dim] } else { seq![] });
                    assert(ops_view(out@) =~= before + animation_ops(m, ay, dim, ctx, col as int, row as int));
                }
            } else {
                proof {
                    assert(ops_view(out@) =~= before + animation_ops(m, ay, dim, ctx, col as int, row as int));
                }
            }
            k += 1;
        }
    }

    /// Draws the whole board: the backdrop, the resting disks, the falling ones (each at
    /// the row `anim_y` gives for its cell), the board texture and the texts; everything
    /// dimmed when `dim`.
    pub fn draw(
        &self,
        out: &mut Vec<DrawOp>,
        is_active: bool,
        dim: bool,
        term_size: (u16, u16),
        anim_y: &[[i32; GRID_ROWS]; GRID_COLS],
        ctx: &Context,
    )
        requires
            self.wf(&ctx.strings),
            ctx.textures.wf(),
            ctx.textures.char_x_positions@.len() >= GRID_COLS,
            on_screen(self.game.translate),
            status_fits(self@, self.score_strings@.map_values(|s: String| s@), ctx),
            forall|c: int, r: int| 0 <= c < GRID_COLS && 0 <= r < GRID_ROWS ==> -0x4000_0000 <= #[trigger] anim_y[c][r] <= 0x4000_0000,
        ensures
            ops_view(final(out)@) == ops_view(old(out)@) + draw_ops(
                self,
                is_active,
                dim,
                term_size,
                anim_y@.map_values(|row: [i32; GRID_ROWS]| row@),
                ctx,
            ),
    {
        let ghost start = ops_view(out@);
        let ghost ay = anim_y@.map_values(|row: [i32; GRID_ROWS]| row@);
        let ghost m = self@;
        let textures = &ctx.textures;
        let skip = self.animating_mask();
        if dim {
            out.push(DrawOp::Dim);
        }
        let ghost s1 = ops_view(out@);
        self.game.display_whitespace(out, textures);
        let ghost s2 = ops_view(out@);
        proof {
            assert(self.game.grid.height * textures.disk_height <= 0x4000_0000);
        }
        self.game.display_disks(out, &skip, is_active && !dim, textures, &ctx.config.player_colors);
        let ghost s3 = ops_view(out@);

        self.display_animations(out, dim, anim_y, ctx);
        let ghost s4 = ops_view(out@);
        self.game.display_board(out, textures);
        let ghost s5 = ops_view(out@);
        self.display_status(out, is_active && !dim, term_size, ctx);
        let ghost s6 = ops_view(out@);
        if dim {
            out.push(DrawOp::NormalIntensity);
        }
        proof {
            assert(s1 =~= start + if dim { seq![DrawModel::Dim] } else { seq![] });
            assert(ops_view(out@) =~= s6 + if dim { seq![DrawModel::NormalIntensity] } else { seq![] });
            lemma_draw_parts(self, is_active, dim, term_size, ay, ctx, start, s1, s2, s3, s4, s5, s6, ops_view(out@));
        }
    }

    /// Draws the texts around the board: the column cursor, the undo/redo banner, the
    /// turn indicator or prompt or outcome, and the scoreboard.
    pub fn display_status(&self, out: &mut Vec<DrawOp>, is_active: bool, term_size: (u16, u16), ctx: &Context)
        requires
            self.wf(&ctx.strings),
            ctx.textures.wf(),
            on_screen(self.game.translate),
            status_fits(self@, self.score_strings@.map_values(|s: String| s@), ctx),
        ensures
            ops_view(final(out)@) == ops_view(old(out)@) + status_ops(
                self@,
                self.score_strings@.map_values(|s: String| s@),
                is_active,
                term_size,
                ctx,
            ),
    {
        let ghost start = ops_view(out@);
        let ghost lines = self.score_strings@.map_values(|s: String| s@);
        self.show_cursor(out, is_active, ctx);
        let ghost a = ops_view(out@);
        self.show_banner(out, is_active, ctx);
        let ghost b = ops_view(out@);
        if !(self.game.state == GameState::Playing && self.confirm_reset && !is_active) {
            self.show_state(out, is_active, ctx);
        }
        let ghost c = ops_view(out@);
        self.show_scores(out, is_active, term_size, ctx);
        proof {
            lemma_status_parts(self@, lines, is_active, term_size, ctx, start, a, b, c, ops_view(out@));
        }
    }

    /// Whether the texts around this board can be placed: see `status_fits`.
    pub fn status_fits_check(&self, ctx: &Context) -> (b: bool)
        requires
            self.wf(&ctx.strings),
        ensures
            b == status_fits(self@, self.score_strings@.map_values(|s: String| s@), ctx),
    {
        let ghost m = self@;
        let ghost lines = self.score_strings@.map_values(|s: String| s@);
        let strings = &ctx.strings;
        let limit: usize = 0x7fff_fffd;
        let no_args: Vec<&str> = Vec::new();
        proof {
            assert(no_args@.map_values(|a: &str| a@) =~= Seq::<Seq<char>>::empty());
        }
        let banner_ok = match &self.action_banner {
            Some(ActionBanner::Placement { player, col, is_redo }) => {
                let player = *player;
                let col = *col;
                let key = if *is_redo {
                    "action.placement.redo"
                } else {
                    "action.placement.undo"
                };
                let player_number = usize_to_string(player + 1);
                let col_number = usize_to_string(col + 1);
                let args: Vec<&str> = vec![player_number.as_str(), col_number.as_str()];
                let full = strings.fmt(key, args.as_slice());
                let mut prefix = String::from_str(" Player ");
                prefix.append(player_number.as_str());
                proof {
                    reveal_strlit("action.placement.redo");
                    reveal_strlit("action.placement.undo");
                    assert(args@.map_values(|a: &str| a@) =~= seq![decimal((player + 1) as nat), decimal((col + 1) as nat)]);
                    assert(key@ == placement_key(*is_redo));
                    assert(full@ == placement_text(strings, player, col, *is_redo));
                    assert(prefix@ == player_prefix(player));
                    reveal_strlit(" Player ");
                    assert(decimal((player + 1) as nat).len() == 1);
                    assert(prefix@.len() == 9);
                    crate::text::lemma_utf8_len_at_most_4x(prefix@);
                }
                let prefix_width = byte_width(&prefix);
                proof {
                    reveal_strlit(" Player ");
                    assert(prefix@[0] == ' ');
                    assert(prefix@ =~= seq![' '] + prefix@.drop_first());
                    crate::text::lemma_utf8_concat(seq![' '], prefix@.drop_first());
                    assert(utf8_len(seq![' ']) == 1) by {
                        crate::text::lemma_utf8_len_push(Seq::<char>::empty(), ' ');
                        assert(Seq::<char>::empty().push(' ') =~= seq![' ']);
                    }
                }
                utf8_len_at_most(full.as_str(), limit) && ends_on_char(full.as_str(), prefix_width - 1)
            },
            Some(ActionBanner::Reset { is_redo }) => {
                let key = if *is_redo {
                    "action.reset.redo"
                } else {
                    "action.reset.undo"
                };
                let msg = strings.fmt(key, no_args.as_slice());
                proof {
                    reveal_strlit("action.reset.redo");
                    reveal_strlit("action.reset.undo");
                    assert(key@ == reset_key(*is_redo));
                }
                utf8_len_at_most(msg.as_str(), limit)
            },
            None => true,
        };
        let reset_msg = strings.fmt("confirm.reset", no_args.as_slice());
        let number = usize_to_string(self.current_player + 1);
        let turn_args: Vec<&str> = vec![number.as_str()];
        let turn_msg = strings.fmt("player.turn", turn_args.as_slice());
        let tie_msg = strings.fmt("player.tie", no_args.as_slice());
        proof {
            assert(turn_args@.map_values(|a: &str| a@) =~= seq![decimal((m.current_player + 1) as nat)]);
        }
        let wins_ok = match self.game.state {
            GameState::Won(p) => {
                let winner = usize_to_string(p + 1);
                let win_args: Vec<&str> = vec![winner.as_str()];
                let win_msg = strings.fmt("player.wins", win_args.as_slice());
                proof {
                    assert(win_args@.map_values(|a: &str| a@) =~= seq![decimal((p + 1) as nat)]);
                }
                utf8_len_at_most(win_msg.as_str(), limit)
            },
            _ => true,
        };
        let texts_ok = banner_ok && utf8_len_at_most(reset_msg.as_str(), limit) && utf8_len_at_most(
            turn_msg.as_str(),
            limit,
        ) && wins_ok && utf8_len_at_most(tie_msg.as_str(), limit);
        // The scoreboard: two score lines and one separator between them.
        let separator = strings.raw("score.separator");
        proof {
            assert(lines.len() == 2);
            assert(lines[0] == self.score_strings@[0]@);
            assert(lines[1] == self.score_strings@[1]@);
            assert(lines.drop_last().drop_last() =~= Seq::<Seq<char>>::empty());
            assert(lines.drop_last().last() == lines[0]);
            assert(total_utf8_len(lines.drop_last().drop_last()) == 0);
            assert(total_utf8_len(lines.drop_last()) == utf8_len(lines[0]));
            assert(total_utf8_len(lines) == utf8_len(lines[0]) + utf8_len(lines[1]));
            let sl = utf8_len(separator@);
            assert(sl * (1 as nat) == sl);
            assert(scoreboard_width(lines, strings.raw_spec("score.separator"@)) == utf8_len(lines[0]) + utf8_len(
                lines[1],
            ) + sl + 2);
        }
        let piece_limit: usize = 0x7fff_ffff;
        if !(utf8_len_at_most(self.score_strings[0].as_str(), piece_limit) && utf8_len_at_most(
            self.score_strings[1].as_str(),
            piece_limit,
        ) && utf8_len_at_most(separator, piece_limit)) {
            return false;
        }
        let total = byte_width(&self.score_strings[0]) as u64 + byte_width(&self.score_strings[1]) as u64
            + separator.len() as u64 + 2;
        texts_ok && total <= 0x7fff_ffff
    }
}

} // verus!
