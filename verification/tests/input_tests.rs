use connectfour::app::AppState;
use connectfour::config::{Config, Context};
use connectfour::input::{
    handle_event, handle_key, key_matches, Event, InputResult, KeyCode, KeyEvent, KeyEventKind, KeyModifiers,
};
use connectfour::strings::Strings;
use connectfour::textures::Textures;
use connectfour::types::GameState;

const STRINGS: &str = "\
score.entry = Player {0}: {1}
ui.col_cursor.char = v
";

const TERM: (u16, u16) = (200, 40);

fn board_source() -> String {
    let mut s = String::from(" 1    2    3    4    5    6    7\n");
    for _ in 0..12 {
        s.push_str("|    |    |    |    |    |    |    |\n");
    }
    s.push('+');
    s.push_str(&"-".repeat(34));
    s.push_str("+\n");
    s
}

fn ctx() -> Context {
    let strings = Strings::get(STRINGS);
    let textures = Textures::get(&board_source(), "(##)\n(##)\n", &strings);
    Context { config: Config::default(), strings, textures }
}

fn mods(shift: bool, control: bool) -> KeyModifiers {
    KeyModifiers { shift, control, alt: false, super_key: false, hyper: false, meta: false }
}

fn press(code: KeyCode) -> KeyEvent {
    KeyEvent { code, modifiers: mods(false, false), kind: KeyEventKind::Press }
}

fn ctrl(code: KeyCode) -> KeyEvent {
    KeyEvent { code, modifiers: mods(false, true), kind: KeyEventKind::Press }
}

fn key(app: &mut AppState, ctx: &Context, k: KeyEvent) -> InputResult {
    handle_key(k, app, ctx, TERM)
}

#[test]
fn key_matching() {
    let binds = vec![KeyCode::Left, KeyCode::Char('a')];
    assert!(key_matches(KeyCode::Char('a'), &binds));
    assert!(!key_matches(KeyCode::Char('A'), &binds));
    assert!(!key_matches(KeyCode::Left, &vec![]));
}

#[test]
fn quit_key_quits_even_in_a_dialog() {
    let ctx = ctx();
    let mut app = AppState::new(&ctx, TERM);
    assert_eq!(key(&mut app, &ctx, press(KeyCode::Char('q'))), InputResult::Quit);
    app.instances[0].confirm_reset = true;
    assert_eq!(key(&mut app, &ctx, press(KeyCode::Char('q'))), InputResult::Quit);
    // With a modifier held it is not the quit key.
    let shifted = KeyEvent { code: KeyCode::Char('q'), modifiers: mods(true, false), kind: KeyEventKind::Press };
    assert_eq!(key(&mut app, &ctx, shifted), InputResult::Continue);
}

#[test]
fn only_presses_count() {
    let ctx = ctx();
    let mut app = AppState::new(&ctx, TERM);
    let release = KeyEvent { code: KeyCode::Char('4'), modifiers: mods(false, false), kind: KeyEventKind::Release };
    assert_eq!(key(&mut app, &ctx, release), InputResult::Continue);
    assert_eq!(app.instances[0].history.len(), 0);
}

#[test]
fn moving_the_column_wraps_around() {
    let ctx = ctx();
    let mut app = AppState::new(&ctx, TERM);
    assert_eq!(key(&mut app, &ctx, press(KeyCode::Left)), InputResult::Redraw);
    assert_eq!(app.instances[0].selected_col, 6);
    assert_eq!(key(&mut app, &ctx, press(KeyCode::Char('d'))), InputResult::Redraw);
    assert_eq!(app.instances[0].selected_col, 0);
    assert!(app.instances[0].show_cursor);
}

#[test]
fn drop_and_number_keys() {
    let ctx = ctx();
    let mut app = AppState::new(&ctx, TERM);
    key(&mut app, &ctx, press(KeyCode::Right));
    assert_eq!(key(&mut app, &ctx, press(KeyCode::Enter)), InputResult::Redraw);
    assert_eq!(app.instances[0].game.grid.get_cell(1, 0), 1);
    assert_eq!(key(&mut app, &ctx, press(KeyCode::Char('7'))), InputResult::Redraw);
    assert_eq!(app.instances[0].game.grid.get_cell(6, 0), 2);
    assert_eq!(key(&mut app, &ctx, press(KeyCode::Char('8'))), InputResult::Continue);
}

#[test]
fn undo_and_redo_keys() {
    let ctx = ctx();
    let mut app = AppState::new(&ctx, TERM);
    key(&mut app, &ctx, press(KeyCode::Char('3')));
    assert_eq!(key(&mut app, &ctx, press(KeyCode::Char('u'))), InputResult::Redraw);
    assert_eq!(app.instances[0].game.grid.get_cell(2, 0), 0);
    // Nothing left to undo: the key falls through.
    assert_eq!(key(&mut app, &ctx, press(KeyCode::Char('u'))), InputResult::Continue);
    assert_eq!(key(&mut app, &ctx, press(KeyCode::Char('U'))), InputResult::Redraw);
    assert_eq!(app.instances[0].game.grid.get_cell(2, 0), 1);
}

#[test]
fn reset_asks_only_when_a_game_is_under_way() {
    let ctx = ctx();
    let mut app = AppState::new(&ctx, TERM);
    // An empty board resets at once.
    assert_eq!(key(&mut app, &ctx, press(KeyCode::Char('r'))), InputResult::Clear);
    assert_eq!(app.instances[0].history.len(), 1);
    key(&mut app, &ctx, press(KeyCode::Char('1')));
    assert_eq!(key(&mut app, &ctx, press(KeyCode::Char('r'))), InputResult::Redraw);
    assert!(app.instances[0].confirm_reset);
    // The dialog swallows other keys.
    assert_eq!(key(&mut app, &ctx, press(KeyCode::Char('5'))), InputResult::Continue);
    assert_eq!(app.instances[0].game.grid.get_cell(4, 0), 0);
    assert_eq!(key(&mut app, &ctx, press(KeyCode::Char('N'))), InputResult::Clear);
    assert!(!app.instances[0].confirm_reset);
    assert_eq!(app.instances[0].game.grid.get_cell(0, 0), 1);
    key(&mut app, &ctx, press(KeyCode::Char('r')));
    assert_eq!(key(&mut app, &ctx, press(KeyCode::Char('Y'))), InputResult::Clear);
    assert_eq!(app.instances[0].game.grid.get_cell(0, 0), 0);
}

#[test]
fn hard_reset_chord() {
    let ctx = ctx();
    let mut app = AppState::new(&ctx, TERM);
    key(&mut app, &ctx, press(KeyCode::Char('1')));
    let chord = KeyEvent { code: KeyCode::Char('R'), modifiers: mods(true, true), kind: KeyEventKind::Press };
    assert_eq!(key(&mut app, &ctx, chord), InputResult::Clear);
    assert!(app.instances[0].history.is_empty());
    assert_eq!(app.instances[0].game.grid.get_cell(0, 0), 0);
}

#[test]
fn adding_switching_and_removing_boards() {
    let ctx = ctx();
    let mut app = AppState::new(&ctx, TERM);
    assert_eq!(key(&mut app, &ctx, press(KeyCode::Char('+'))), InputResult::Clear);
    assert_eq!(app.instances.len(), 2);
    assert_eq!(app.active, 1);
    // The row of two boards is centred: (200 - (2 * 36 + 2)) / 2 = 63.
    assert_eq!(app.instances[0].game.translate.x, 63);
    assert_eq!(app.instances[1].game.translate.x, 63 + 38);
    assert_eq!(app.instances[1].game.translate.y, 40 - 13);
    assert_eq!(key(&mut app, &ctx, ctrl(KeyCode::Char('1'))), InputResult::RedrawAll);
    assert_eq!(app.active, 0);
    assert_eq!(key(&mut app, &ctx, ctrl(KeyCode::Char('9'))), InputResult::Continue);
    assert_eq!(key(&mut app, &ctx, ctrl(KeyCode::Left)), InputResult::RedrawAll);
    assert_eq!(app.active, 1);
    assert_eq!(key(&mut app, &ctx, ctrl(KeyCode::Char('d'))), InputResult::RedrawAll);
    assert_eq!(app.active, 0);
    assert_eq!(key(&mut app, &ctx, press(KeyCode::Char('-'))), InputResult::RedrawAll);
    assert!(app.confirm_remove);
    // The dialog swallows other keys.
    assert_eq!(key(&mut app, &ctx, press(KeyCode::Char('4'))), InputResult::Continue);
    assert_eq!(key(&mut app, &ctx, press(KeyCode::Char('Y'))), InputResult::Clear);
    assert!(!app.confirm_remove);
    assert_eq!(app.instances.len(), 1);
    assert_eq!(app.active, 0);
    // The last board cannot be removed.
    assert_eq!(key(&mut app, &ctx, press(KeyCode::Char('-'))), InputResult::Continue);
}

#[test]
fn no_more_boards_than_fit() {
    let ctx = ctx();
    let mut app = AppState::new(&ctx, (80, 24));
    // Two boards need 74 columns, three need 112.
    assert_eq!(handle_key(press(KeyCode::Char('+')), &mut app, &ctx, (80, 24)), InputResult::Clear);
    assert_eq!(handle_key(press(KeyCode::Char('+')), &mut app, &ctx, (80, 24)), InputResult::Continue);
    assert_eq!(app.instances.len(), 2);
}

#[test]
fn keys_change_only_the_active_board() {
    let ctx = ctx();
    let mut app = AppState::new(&ctx, TERM);
    key(&mut app, &ctx, press(KeyCode::Char('+')));
    key(&mut app, &ctx, press(KeyCode::Char('4')));
    key(&mut app, &ctx, press(KeyCode::Char('r')));
    assert!(app.instances[1].confirm_reset);
    assert!(app.instances[0].history.is_empty());
    assert!(!app.instances[0].confirm_reset);
    assert_eq!(app.instances[0].game.grid.get_cell(3, 0), 0);
}

#[test]
fn resize_lays_the_boards_out_again() {
    let ctx = ctx();
    let mut app = AppState::new(&ctx, TERM);
    assert_eq!(handle_event(Event::Resize(100, 30), &mut app, &ctx, (100, 30)), InputResult::Clear);
    assert_eq!(app.instances[0].game.translate.x, 32);
    assert_eq!(app.instances[0].game.translate.y, 17);
    assert!(app.instances[0].dirty);
    assert_eq!(handle_event(Event::Other, &mut app, &ctx, (100, 30)), InputResult::Continue);
    assert_eq!(handle_event(Event::Key(press(KeyCode::Char('q'))), &mut app, &ctx, (100, 30)), InputResult::Quit);
}

#[test]
fn starting_instances_follow_the_configuration() {
    let mut ctx = ctx();
    ctx.config.starting_instances = 3;
    let app = AppState::with_starting_instances(&ctx, TERM);
    assert_eq!(app.instances.len(), 3);
    assert_eq!(app.active, 0);
    ctx.config.starting_instances = 0;
    assert_eq!(AppState::with_starting_instances(&ctx, TERM).instances.len(), 1);
}

#[test]
fn a_won_game_ignores_drops() {
    let ctx = ctx();
    let mut app = AppState::new(&ctx, TERM);
    for _ in 0..3 {
        key(&mut app, &ctx, press(KeyCode::Char('1')));
        key(&mut app, &ctx, press(KeyCode::Char('2')));
    }
    key(&mut app, &ctx, press(KeyCode::Char('1')));
    assert_eq!(app.instances[0].game.state, GameState::Won(0));
    assert_eq!(key(&mut app, &ctx, press(KeyCode::Char('3'))), InputResult::Continue);
    assert_eq!(key(&mut app, &ctx, press(KeyCode::Left)), InputResult::Continue);
    // A finished game resets without asking.
    assert_eq!(key(&mut app, &ctx, press(KeyCode::Char('r'))), InputResult::Clear);
    assert_eq!(app.instances[0].scores, vec![1, 0]);
}

#[test]
fn number_keys_drop_whatever_the_bindings() {
    let mut ctx = ctx();
    ctx.config.keybinds.move_left = vec![KeyCode::Char('1')];
    ctx.config.keybinds.reset = vec![KeyCode::Char('2')];
    let mut app = AppState::new(&ctx, TERM);
    assert_eq!(key(&mut app, &ctx, press(KeyCode::Char('1'))), InputResult::Redraw);
    assert_eq!(app.instances[0].game.grid.get_cell(0, 0), 1);
    assert_eq!(app.instances[0].selected_col, 0);
    assert_eq!(key(&mut app, &ctx, press(KeyCode::Char('2'))), InputResult::Redraw);
    assert_eq!(app.instances[0].game.grid.get_cell(1, 0), 2);
    assert!(!app.instances[0].confirm_reset);
}
