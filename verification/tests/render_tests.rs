use connectfour::app::AppState;
use connectfour::config::{Config, Context};
use connectfour::disk::Disk;
use connectfour::draw::DrawOp;
use connectfour::grid::{GRID_COLS, GRID_ROWS};
use connectfour::input::do_drop;
use connectfour::render::{
    begin_sync, can_add_instance, display_remove_confirm, end_sync, frame_fits_check, redraw, update_all_translates,
};
use connectfour::types::ActionBanner;
use connectfour::runtime::Runtime;
use connectfour::strings::Strings;
use connectfour::textures::Textures;
use connectfour::translate::{clamp_coord, Translate};

const STRINGS: &str = "\
score.entry = Player {0}: {1}
score.separator =  - 
player.turn = Player {0}'s turn
player.wins = Player {0} wins!
confirm.remove = Remove board {0}? (Y/N)
ui.col_cursor.char = v
";

fn board_source() -> String {
    let mut s = String::from(" 1    2    3    4    5    6    7\n");
    for _ in 0..12 {
        s.push_str("|    |    |    |    |    |    |    |\n");
    }
    s.push('+');
    s.push_str(&"-".repeat(34));
    s.push_str("+\n");
    s
}

fn ctx_with(strings: &str) -> Context {
    let strings = Strings::get(strings);
    let textures = Textures::get(&board_source(), "(##)\n(##)\n", &strings);
    Context { config: Config::default(), strings, textures }
}

fn ctx() -> Context {
    ctx_with(STRINGS)
}

fn print(s: &str) -> DrawOp {
    DrawOp::Print(s.to_string())
}

fn still() -> [[i32; GRID_ROWS]; GRID_COLS] {
    [[0; GRID_ROWS]; GRID_COLS]
}

#[test]
fn synchronized_update_markers() {
    let mut out = Vec::new();
    begin_sync(&mut out);
    end_sync(&mut out);
    assert_eq!(out, vec![DrawOp::Raw(b"\x1b[?2026h".to_vec()), DrawOp::Raw(b"\x1b[?2026l".to_vec())]);
}

#[test]
fn coordinates_clamp_at_zero() {
    let t = Translate::new(-5, 3);
    assert_eq!(t.move_to(2, 1), DrawOp::MoveTo(0, 4));
    assert_eq!(t.move_to_column(9), DrawOp::MoveToColumn(4));
    assert_eq!(clamp_coord(-1), 0);
    assert_eq!(clamp_coord(70000), 70000u32 as u16);
}

#[test]
fn a_disk_is_drawn_in_its_colour() {
    let ctx = ctx();
    let mut out = Vec::new();
    let d = Disk { player: 1, color: (1, 2, 3) };
    d.display(&mut out, 6, 4, &ctx.textures, &Translate::new(10, 20));
    assert_eq!(
        out,
        vec![
            DrawOp::SetForeground(1, 2, 3),
            DrawOp::MoveTo(16, 24),
            print("(##)"),
            DrawOp::MoveToColumn(16),
            DrawOp::MoveDown(1),
            print("(##)"),
            DrawOp::MoveToColumn(16),
            DrawOp::MoveDown(1),
            DrawOp::ResetColor,
        ]
    );
}

#[test]
fn removal_dialog_is_a_centred_box() {
    let ctx = ctx();
    let mut out = Vec::new();
    display_remove_confirm(&mut out, 0, (80, 24), &ctx.strings);
    let bar = "─".repeat(21);
    assert_eq!(
        out,
        vec![
            DrawOp::MoveTo(28, 10),
            print(&format!("┌{bar}┐")),
            DrawOp::MoveTo(28, 11),
            print("│Remove board 1? (Y/N)│"),
            DrawOp::MoveTo(28, 12),
            print(&format!("└{bar}┘")),
        ]
    );
}

#[test]
fn removal_dialog_of_an_empty_message() {
    let ctx = ctx_with("confirm.remove =\nscore.entry = {0}\n");
    let mut out = Vec::new();
    display_remove_confirm(&mut out, 4, (80, 24), &ctx.strings);
    assert_eq!(
        out,
        vec![
            DrawOp::MoveTo(39, 10),
            print("┌┐"),
            DrawOp::MoveTo(39, 11),
            print(""),
            DrawOp::MoveTo(39, 12),
            print("└┘"),
        ]
    );
}

#[test]
fn removal_dialog_on_a_tiny_terminal_starts_at_the_corner() {
    let ctx = ctx();
    let mut out = Vec::new();
    display_remove_confirm(&mut out, 8, (10, 2), &ctx.strings);
    assert_eq!(out[0], DrawOp::MoveTo(0, 0));
    assert_eq!(out[3], print("│Remove board 9? (Y/N)│"));
    assert_eq!(out[4], DrawOp::MoveTo(0, 2));
}

#[test]
fn room_for_boards() {
    let ctx = ctx();
    let one = vec![Runtime::new(&ctx, (80, 24))];
    assert!(can_add_instance(&one, 80, &ctx.textures));
    assert!(can_add_instance(&one, 74, &ctx.textures));
    assert!(!can_add_instance(&one, 73, &ctx.textures));
}

#[test]
fn boards_are_laid_out_in_a_centred_row() {
    let ctx = ctx();
    let mut boards = vec![Runtime::new(&ctx, (80, 24)), Runtime::new(&ctx, (80, 24)), Runtime::new(&ctx, (80, 24))];
    for b in boards.iter_mut() {
        b.dirty = false;
    }
    update_all_translates(&mut boards, (120, 20), &ctx.textures, &ctx.strings);
    // Three boards take 3 * 36 + 2 * 2 = 112 columns: (120 - 112) / 2 = 4.
    let xs: Vec<i32> = boards.iter().map(|b| b.game.translate.x).collect();
    assert_eq!(xs, vec![4, 42, 80]);
    assert!(boards.iter().all(|b| b.game.translate.y == 7 && b.dirty));
    // Too narrow: flush left; too low: at the top.
    update_all_translates(&mut boards, (50, 5), &ctx.textures, &ctx.strings);
    let xs: Vec<i32> = boards.iter().map(|b| b.game.translate.x).collect();
    assert_eq!(xs, vec![0, 38, 76]);
    assert!(boards.iter().all(|b| b.game.translate.y == 0));
}

#[test]
fn the_status_shows_whose_turn_it_is() {
    let ctx = ctx();
    let rt = Runtime::new(&ctx, (80, 24));
    let mut out = Vec::new();
    rt.display_status(&mut out, true, (80, 24), &ctx);
    // Centre column 22 + 36 / 2 = 40; the message is 17 bytes wide.
    let turn = out.iter().position(|op| *op == print(" Player 1's turn ")).expect("turn shown");
    assert_eq!(out[turn - 2], DrawOp::MoveTo(32, 6));
    assert_eq!(out[turn - 1], DrawOp::SetForeground(220, 40, 40));
    // The cursor comes first, above column 1.
    assert_eq!(out[0], DrawOp::MoveTo(23, 10));
    assert_eq!(out[2], print("vvvv"));
    // The scoreboard is last, on the bottom row.
    let n = out.len();
    assert_eq!(out[n - 1], print(" "));
    assert!(out.contains(&print("Player 1: 0")));
    assert!(out.contains(&print(" - ")));
    assert!(out.contains(&DrawOp::MoveTo(27, 23)));
}

#[test]
fn an_inactive_board_is_drawn_dimmed() {
    let ctx = ctx();
    let rt = Runtime::new(&ctx, (80, 24));
    let mut out = Vec::new();
    rt.draw(&mut out, false, true, (80, 24), &still(), &ctx);
    assert_eq!(out[0], DrawOp::Dim);
    assert_eq!(out[out.len() - 1], DrawOp::NormalIntensity);
    // No cursor on an inactive board.
    assert!(!out.contains(&print("vvvv")));
}

#[test]
fn a_falling_disk_is_drawn_where_its_animation_is() {
    let ctx = ctx();
    let mut rt = Runtime::new(&ctx, (80, 24));
    do_drop(&mut rt, 2, &ctx);
    let mut anim = still();
    anim[2][0] = 3;
    let mut out = Vec::new();
    rt.draw(&mut out, true, false, (80, 24), &anim, &ctx);
    // Column 3 starts at 11; the board's corner is at (22, 11).
    let at = out.iter().position(|op| *op == DrawOp::MoveTo(33, 14)).expect("falling disk drawn");
    assert_eq!(out[at - 1], DrawOp::SetForeground(220, 40, 40));
}

#[test]
fn redraw_draws_changed_boards_and_clears_their_flags() {
    let ctx = ctx();
    let mut app = AppState::new(&ctx, (80, 24));
    let mut out = Vec::new();
    redraw(&mut out, &mut app, (80, 24), &vec![still()], &ctx);
    assert_eq!(out[0], DrawOp::Raw(b"\x1b[?2026h".to_vec()));
    assert_eq!(out[out.len() - 1], DrawOp::Raw(b"\x1b[?2026l".to_vec()));
    assert!(out.len() > 2);
    assert!(!app.instances[0].dirty);
    // Nothing changed since: an empty frame.
    let mut again = Vec::new();
    redraw(&mut again, &mut app, (80, 24), &vec![still()], &ctx);
    assert_eq!(again, vec![DrawOp::Raw(b"\x1b[?2026h".to_vec()), DrawOp::Raw(b"\x1b[?2026l".to_vec())]);
}

#[test]
fn redraw_with_the_removal_dialog_draws_everything_and_the_box() {
    let ctx = ctx();
    let mut app = AppState::new(&ctx, (120, 30));
    app.instances.push(Runtime::new(&ctx, (120, 30)));
    update_all_translates(&mut app.instances, (120, 30), &ctx.textures, &ctx.strings);
    app.active = 1;
    app.confirm_remove = true;
    for b in app.instances.iter_mut() {
        b.dirty = false;
    }
    let mut out = Vec::new();
    redraw(&mut out, &mut app, (120, 30), &vec![still(), still()], &ctx);
    assert_eq!(out.iter().filter(|op| **op == DrawOp::Dim).count() >= 2, true);
    assert!(out.contains(&print("│Remove board 2? (Y/N)│")));
    assert!(app.instances.iter().all(|b| !b.dirty));
}

#[test]
fn frames_that_can_be_drawn() {
    let ctx = ctx();
    let app = AppState::new(&ctx, (80, 24));
    assert!(frame_fits_check(&app, &vec![still()], &ctx));
    // One row of animation heights per board.
    assert!(!frame_fits_check(&app, &vec![], &ctx));
    let mut far = still();
    far[6][5] = 0x4000_0001;
    assert!(!frame_fits_check(&app, &vec![far], &ctx));
}

#[test]
fn a_banner_must_start_with_the_player() {
    let ctx = ctx_with("action.placement.undo = P{0} in {1}\nscore.entry = {0}\n");
    let mut rt = Runtime::new(&ctx, (80, 24));
    assert!(rt.status_fits_check(&ctx));
    rt.action_banner = Some(ActionBanner::Placement { player: 0, col: 0, is_redo: false });
    // "P1 in 1" is shorter than "Player 1": the banner cannot be split.
    assert!(!rt.status_fits_check(&ctx));
    let ok = ctx_with("action.placement.undo = Player {0} took back column {1}\nscore.entry = {0}\n");
    let mut rt = Runtime::new(&ok, (80, 24));
    rt.action_banner = Some(ActionBanner::Placement { player: 1, col: 3, is_redo: false });
    assert!(rt.status_fits_check(&ok));
    let mut out = Vec::new();
    rt.display_status(&mut out, true, (80, 24), &ok);
    assert!(out.contains(&print(" Player 2")));
    assert!(out.contains(&print(" took back column 4 ")));
}

#[test]
fn the_scoreboard_is_always_shown() {
    let ctx = ctx();
    let mut rt = Runtime::new(&ctx, (80, 24));
    rt.confirm_reset = true;
    let mut out = Vec::new();
    rt.display_status(&mut out, false, (80, 24), &ctx);
    assert!(out.contains(&DrawOp::MoveTo(27, 23)));
    assert!(out.contains(&print("Player 1: 0")));
    assert!(out.contains(&print("Player 2: 0")));
    // The turn line is left out on this inactive board.
    assert!(!out.contains(&print(" Player 1's turn ")));
}
