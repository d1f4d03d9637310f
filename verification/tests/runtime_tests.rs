use connectfour::config::{Config, Context};
use connectfour::constants::PLAYER_COLORS;
use connectfour::input::do_drop;
use connectfour::runtime::Runtime;
use connectfour::strings::Strings;
use connectfour::textures::Textures;
use connectfour::types::{ActionBanner, GameState, HistoryEntry, MoveRecord};

const STRINGS: &str = "\
score.entry = Player {0}: {1}
score.separator =  | 
player.turn = Player {0}'s turn
ui.col_cursor.char = v
";

fn board_source() -> String {
    let mut s = String::from(" 1    2    3    4    5    6    7\n");
    for _ in 0..12 {
        s.push_str("|    |    |    |    |    |    |    |\n");
    }
    s.push('+');
    s.push_str(&"-".repeat(34));
    s.push_str("+\n");
    s
}

fn ctx() -> Context {
    let strings = Strings::get(STRINGS);
    let textures = Textures::get(&board_source(), "(##)\n(##)\n", &strings);
    Context { config: Config::default(), strings, textures }
}

fn cells(rt: &Runtime) -> Vec<Vec<u8>> {
    rt.game.grid.cells.clone()
}

#[test]
fn a_new_board_is_empty_and_placed_on_the_terminal() {
    let ctx = ctx();
    let rt = Runtime::new(&ctx, (80, 24));
    assert_eq!(rt.scores, vec![0, 0]);
    assert_eq!(rt.score_strings, vec!["Player 1: 0".to_string(), "Player 2: 0".to_string()]);
    assert_eq!(rt.current_player, 0);
    assert_eq!(rt.game.state, GameState::Playing);
    assert_eq!((rt.game.translate.x, rt.game.translate.y), (22, 11));
    assert!(rt.history.is_empty() && rt.redo_stack.is_empty());
    assert!(rt.dirty && rt.show_cursor);
}

#[test]
fn dropping_places_a_disk_and_passes_the_turn() {
    let ctx = ctx();
    let mut rt = Runtime::new(&ctx, (80, 24));
    assert!(do_drop(&mut rt, 3, &ctx));
    assert_eq!(rt.game.grid.get_cell(3, 0), 1);
    assert_eq!(rt.current_player, 1);
    assert_eq!(rt.selected_col, 3);
    assert_eq!(rt.history.len(), 1);
    assert!(matches!(rt.history[0], HistoryEntry::Move(MoveRecord { col: 3, row: 0, player: 0 })));
    let anim = rt.animators[3][0].expect("the disk falls");
    assert_eq!(anim.disk.color, PLAYER_COLORS[0]);
    assert!(!rt.show_cursor);
    assert!(do_drop(&mut rt, 3, &ctx));
    assert_eq!(rt.game.grid.get_cell(3, 1), 2);
    assert_eq!(rt.current_player, 0);
}

#[test]
fn dropping_into_a_full_or_missing_column_places_nothing() {
    let ctx = ctx();
    let mut rt = Runtime::new(&ctx, (80, 24));
    for _ in 0..6 {
        assert!(do_drop(&mut rt, 0, &ctx));
    }
    let before = cells(&rt);
    let player = rt.current_player;
    assert!(!do_drop(&mut rt, 0, &ctx));
    assert!(!do_drop(&mut rt, 7, &ctx));
    assert_eq!(cells(&rt), before);
    assert_eq!(rt.current_player, player);
    assert_eq!(rt.history.len(), 6);
}

#[test]
fn four_in_a_column_wins_and_scores() {
    let ctx = ctx();
    let mut rt = Runtime::new(&ctx, (80, 24));
    for _ in 0..3 {
        do_drop(&mut rt, 0, &ctx);
        do_drop(&mut rt, 1, &ctx);
    }
    assert_eq!(rt.game.state, GameState::Playing);
    do_drop(&mut rt, 0, &ctx);
    assert_eq!(rt.game.state, GameState::Won(0));
    assert_eq!(rt.scores, vec![1, 0]);
    assert_eq!(rt.score_strings[0], "Player 1: 1");
    // The winner keeps the turn.
    assert_eq!(rt.current_player, 0);
}

#[test]
fn undo_after_drop_restores_the_position() {
    let ctx = ctx();
    let mut rt = Runtime::new(&ctx, (80, 24));
    do_drop(&mut rt, 2, &ctx);
    let before = cells(&rt);
    do_drop(&mut rt, 4, &ctx);
    rt.undo(&ctx);
    assert_eq!(cells(&rt), before);
    assert_eq!(rt.current_player, 1);
    assert_eq!(rt.history.len(), 1);
    assert_eq!(rt.redo_stack.len(), 1);
    assert!(rt.animators[4][0].is_none());
    assert_eq!(rt.action_banner, Some(ActionBanner::Placement { player: 1, col: 4, is_redo: false }));
}

#[test]
fn redo_after_undo_replays_the_move() {
    let ctx = ctx();
    let mut rt = Runtime::new(&ctx, (80, 24));
    do_drop(&mut rt, 2, &ctx);
    do_drop(&mut rt, 4, &ctx);
    let after = cells(&rt);
    rt.undo(&ctx);
    rt.redo(&ctx);
    assert_eq!(cells(&rt), after);
    assert_eq!(rt.current_player, 0);
    assert_eq!(rt.history.len(), 2);
    assert!(rt.redo_stack.is_empty());
    assert_eq!(rt.action_banner, Some(ActionBanner::Placement { player: 1, col: 4, is_redo: true }));
}

#[test]
fn undoing_a_win_takes_the_point_back() {
    let ctx = ctx();
    let mut rt = Runtime::new(&ctx, (80, 24));
    for _ in 0..3 {
        do_drop(&mut rt, 0, &ctx);
        do_drop(&mut rt, 1, &ctx);
    }
    do_drop(&mut rt, 0, &ctx);
    assert_eq!(rt.scores, vec![1, 0]);
    rt.undo(&ctx);
    assert_eq!(rt.scores, vec![0, 0]);
    assert_eq!(rt.score_strings[0], "Player 1: 0");
    assert_eq!(rt.game.state, GameState::Playing);
    rt.redo(&ctx);
    assert_eq!(rt.scores, vec![1, 0]);
    assert_eq!(rt.game.state, GameState::Won(0));
}

#[test]
fn a_different_move_discards_the_redo_stack() {
    let ctx = ctx();
    let mut rt = Runtime::new(&ctx, (80, 24));
    do_drop(&mut rt, 2, &ctx);
    do_drop(&mut rt, 4, &ctx);
    rt.undo(&ctx);
    rt.undo(&ctx);
    assert_eq!(rt.redo_stack.len(), 2);
    // Replaying the next undone move keeps the rest of the stack.
    do_drop(&mut rt, 2, &ctx);
    assert_eq!(rt.redo_stack.len(), 1);
    // Another move discards it.
    do_drop(&mut rt, 5, &ctx);
    assert!(rt.redo_stack.is_empty());
}

#[test]
fn soft_reset_keeps_scores_and_can_be_undone() {
    let ctx = ctx();
    let mut rt = Runtime::new(&ctx, (80, 24));
    for _ in 0..3 {
        do_drop(&mut rt, 0, &ctx);
        do_drop(&mut rt, 1, &ctx);
    }
    do_drop(&mut rt, 0, &ctx);
    let before = cells(&rt);
    rt.reset_game();
    assert!(rt.game.grid.cells.iter().all(|c| c.iter().all(|&v| v == 0)));
    assert_eq!(rt.scores, vec![1, 0]);
    assert_eq!(rt.game.state, GameState::Playing);
    assert_eq!(rt.current_player, 0);
    assert_eq!(rt.history.len(), 8);
    rt.undo(&ctx);
    assert_eq!(cells(&rt), before);
    assert_eq!(rt.game.state, GameState::Won(0));
    assert_eq!(rt.scores, vec![1, 0]);
    assert_eq!(rt.history.len(), 7);
    assert_eq!(rt.action_banner, Some(ActionBanner::Reset { is_redo: false }));
    rt.redo(&ctx);
    assert!(rt.game.grid.cells.iter().all(|c| c.iter().all(|&v| v == 0)));
    assert_eq!(rt.history.len(), 8);
    assert!(rt.redo_stack.is_empty());
    assert_eq!(rt.action_banner, Some(ActionBanner::Reset { is_redo: true }));
}

#[test]
fn hard_reset_clears_everything() {
    let ctx = ctx();
    let mut rt = Runtime::new(&ctx, (80, 24));
    for _ in 0..3 {
        do_drop(&mut rt, 0, &ctx);
        do_drop(&mut rt, 1, &ctx);
    }
    do_drop(&mut rt, 0, &ctx);
    rt.hard_reset(&ctx);
    assert_eq!(rt.scores, vec![0, 0]);
    assert_eq!(rt.score_strings[0], "Player 1: 0");
    assert!(rt.history.is_empty() && rt.redo_stack.is_empty());
    assert!(rt.game.grid.cells.iter().all(|c| c.iter().all(|&v| v == 0)));
    assert!(rt.animators.iter().all(|c| c.iter().all(|a| a.is_none())));
}

#[test]
fn undo_and_redo_with_empty_stacks_change_nothing() {
    let ctx = ctx();
    let mut rt = Runtime::new(&ctx, (80, 24));
    rt.confirm_reset = true;
    rt.undo(&ctx);
    assert!(!rt.confirm_reset);
    assert!(rt.history.is_empty());
    rt.redo(&ctx);
    assert!(rt.redo_stack.is_empty());
    assert_eq!(rt.current_player, 0);
}

#[test]
fn score_lines_follow_the_scores() {
    let ctx = ctx();
    let mut rt = Runtime::new(&ctx, (80, 24));
    rt.scores = vec![12, 3];
    rt.update_score_strings(&ctx);
    assert_eq!(rt.score_strings, vec!["Player 1: 12".to_string(), "Player 2: 3".to_string()]);
}

#[test]
fn a_full_score_matters_only_when_a_win_is_possible() {
    let ctx = ctx();
    let mut rt = Runtime::new(&ctx, (80, 24));
    rt.scores = vec![u32::MAX, 0];
    rt.update_score_strings(&ctx);
    // No line of four can be completed yet.
    assert!(rt.score_room_check());
    for _ in 0..3 {
        do_drop(&mut rt, 0, &ctx);
        do_drop(&mut rt, 1, &ctx);
    }
    // Player 1 could now complete column 1 with a score that cannot grow.
    assert!(!rt.score_room_check());
    rt.scores = vec![7, 0];
    assert!(rt.score_room_check());
}
