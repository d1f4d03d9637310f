//! Keyboard and terminal events, and what each key does to the boards.
use vstd::prelude::*;

use crate::app::{AppModel, AppState};
use crate::config::Context;
use crate::disk::Disk;
use crate::game::board_translate;
use crate::grid::GRID_COLS;
use crate::render::{
    can_add_instance, instances_view, relayout, room_for_another, total_width, update_all_translates,
};
use crate::runtime::{lemma_drop_wf, Runtime, RuntimeModel};
use crate::text::is_digit;
use crate::types::{history_view, GameState, HistoryEntry, HistoryModel, MoveRecord};

verus! {

/// A key, as the terminal reports it.
#[derive(Clone, Copy, PartialEq, Eq, Structural, Debug)]
pub enum KeyCode {
    Backspace,
    Enter,
    Left,
    Right,
    Up,
    Down,
    Home,
    End,
    PageUp,
    PageDown,
    Tab,
    BackTab,
    Delete,
    Insert,
    F(u8),
    Char(char),
    Null,
    Esc,
    /// Any other key (media keys, lone modifier keys, lock keys, ...).
    Other,
}

/// The modifier keys held with a key.
#[derive(Clone, Copy, PartialEq, Eq, Structural, Debug)]
pub struct KeyModifiers {
    pub shift: bool,
    pub control: bool,
    pub alt: bool,
    pub super_key: bool,
    pub hyper: bool,
    pub meta: bool,
}

impl KeyModifiers {
    pub open spec fn none_held(self) -> bool {
        !self.shift && !self.control && !self.alt && !self.super_key && !self.hyper && !self.meta
    }

    /// Control and nothing else.
    pub open spec fn control_only(self) -> bool {
        self.control && !self.shift && !self.alt && !self.super_key && !self.hyper && !self.meta
    }

    pub fn is_empty(&self) -> (b: bool)
        ensures
            b == self.none_held(),
    {
        !self.shift && !self.control && !self.alt && !self.super_key && !self.hyper && !self.meta
    }

    pub fn is_control_only(&self) -> (b: bool)
        ensures
            b == self.control_only(),
    {
        self.control && !self.shift && !self.alt && !self.super_key && !self.hyper && !self.meta
    }
}

/// Whether a key went down, repeated or went up.
#[derive(Clone, Copy, PartialEq, Eq, Structural, Debug)]
pub enum KeyEventKind {
    Press,
    Repeat,
    Release,
}

#[derive(Clone, Copy, PartialEq, Eq, Structural, Debug)]
pub struct KeyEvent {
    pub code: KeyCode,
    pub modifiers: KeyModifiers,
    pub kind: KeyEventKind,
}

/// A terminal event.
#[derive(Clone, Copy, PartialEq, Eq, Structural, Debug)]
pub enum Event {
    Key(KeyEvent),
    /// The terminal was resized to (columns, rows).
    Resize(u16, u16),
    /// Focus, mouse and paste events.
    Other,
}

/// What kind of redraw, if any, an input calls for.
#[derive(Clone, Copy, PartialEq, Eq, Structural, Debug)]
pub enum InputResult {
    /// Nothing changed.
    Continue,
    /// Exit the program.
    Quit,
    /// Only the active instance changed.
    Redraw,
    /// All instances are affected (dim state, layout, active switch).
    RedrawAll,
    /// Clear the whole screen and redraw everything.
    Clear,
}


/// The column a number key `1`..`7` drops into.
pub open spec fn number_key_column(code: KeyCode) -> Option<usize> {
    match code {
        KeyCode::Char(c) => if '1' <= c <= '7' {
            Some((c as u32 - '1' as u32) as usize)
        } else {
            None
        },
        _ => None,
    }
}

impl AppModel {
    pub open spec fn active_rt(self) -> RuntimeModel {
        self.instances[self.active as int]
    }

    pub open spec fn with_active(self, r: RuntimeModel) -> AppModel {
        AppModel { instances: self.instances.update(self.active as int, r), ..self }
    }

    /// Control held alone: Ctrl+N switches to board N, Ctrl+A / Ctrl+Left and
    /// Ctrl+D / Ctrl+Right cycle through the boards.
    pub open spec fn control_key(self, code: KeyCode) -> (AppModel, InputResult) {
        let n = self.instances.len() as int;
        let prev = (AppModel { active: ((self.active + n - 1) % n) as usize, ..self }, InputResult::RedrawAll);
        let next = (AppModel { active: ((self.active + 1) % n) as usize, ..self }, InputResult::RedrawAll);
        match code {
            KeyCode::Char(c) => if is_digit(c) {
                let d = c as u32 - '0' as u32;
                if 1 <= d && d - 1 < n {
                    (AppModel { active: (d - 1) as usize, ..self }, InputResult::RedrawAll)
                } else {
                    (self, InputResult::Continue)
                }
            } else if c == 'a' {
                prev
            } else if c == 'd' {
                next
            } else {
                (self, InputResult::Continue)
            },
            KeyCode::Left => prev,
            KeyCode::Right => next,
            _ => (self, InputResult::Continue),
        }
    }

    /// The remove-board dialog: `Y` removes the active board (unless it is the last one),
    /// `N` or Esc cancels, other keys are swallowed.
    pub open spec fn remove_dialog_key(self, code: KeyCode, term_size: (u16, u16), board_width: u16, board_height: u16) -> (AppModel, InputResult) {
        let n = self.instances.len() as int;
        match code {
            KeyCode::Char('Y') => if n > 1 {
                (
                    AppModel {
                        instances: relayout(self.instances.remove(self.active as int), term_size, board_width, board_height),
                        active: if self.active <= n - 2 {
                            self.active
                        } else {
                            (n - 2) as usize
                        },
                        confirm_remove: false,
                    },
                    InputResult::Clear,
                )
            } else {
                (AppModel { confirm_remove: false, ..self }, InputResult::Clear)
            },
            KeyCode::Char('N') | KeyCode::Esc => (AppModel { confirm_remove: false, ..self }, InputResult::Clear),
            _ => (self, InputResult::Continue),
        }
    }

    /// The reset dialog: `Y` resets the active board, `N` or Esc cancels, other keys are
    /// swallowed.
    pub open spec fn reset_dialog_key(self, code: KeyCode) -> (AppModel, InputResult) {
        let rt = self.active_rt();
        match code {
            KeyCode::Char('Y') => (self.with_active(rt.reset()), InputResult::Clear),
            KeyCode::Char('N') | KeyCode::Esc => (
                self.with_active(RuntimeModel { confirm_reset: false, ..rt }),
                InputResult::Clear,
            ),
            _ => (self, InputResult::Continue),
        }
    }

    /// Column moves, drops, undo and redo on the active board; a key whose action does not
    /// apply is tried as the next action.
    pub open spec fn game_key(self, code: KeyCode, ctx: &Context) -> (AppModel, InputResult) {
        let binds = &ctx.config.keybinds;
        let rt = self.active_rt();
        let w = rt.grid.width as int;
        let playing = rt.state == GameState::Playing;
        let colors = ctx.config.player_colors;
        let dh = ctx.textures.disk_height;
        if binds.move_left@.contains(code) && playing {
            (
                self.with_active(RuntimeModel {
                    selected_col: ((rt.selected_col + w - 1) % w) as usize,
                    show_cursor: true,
                    dirty: true,
                    ..rt
                }),
                InputResult::Redraw,
            )
        } else if binds.move_right@.contains(code) && playing {
            (
                self.with_active(RuntimeModel {
                    selected_col: ((rt.selected_col + 1) % w) as usize,
                    show_cursor: true,
                    dirty: true,
                    ..rt
                }),
                InputResult::Redraw,
            )
        } else if binds.drop@.contains(code) && playing {
            (self.with_active(rt.dropped(rt.selected_col, colors, dh).0), InputResult::Redraw)
        } else if binds.undo@.contains(code) && rt.history.len() > 0 {
            (self.with_active(rt.undone()), InputResult::Redraw)
        } else if binds.redo@.contains(code) && rt.redo.len() > 0 {
            (self.with_active(rt.redone(colors, dh)), InputResult::Redraw)
        } else {
            (self, InputResult::Continue)
        }
    }

    /// Keys outside any dialog: the number keys `1`..`7` drop into their column while the
    /// game goes on, whatever the key bindings; `+` adds a board when there is room, `-`
    /// asks to remove the active one, the reset key resets at once when the game is over or the board
    /// is empty and asks first otherwise; the rest go to `game_key`.
    pub open spec fn play_key(self, code: KeyCode, ctx: &Context, term_size: (u16, u16)) -> (AppModel, InputResult) {
        let n = self.instances.len() as int;
        let rt = self.active_rt();
        let bw = ctx.textures.board_width;
        let bh = ctx.textures.board_height;
        if number_key_column(code) is Some && rt.state == GameState::Playing {
            (
                self.with_active(rt.dropped(number_key_column(code)->0, ctx.config.player_colors, ctx.textures.disk_height).0),
                InputResult::Redraw,
            )
        } else if code == KeyCode::Char('+') && room_for_another(n, term_size.0, bw) {
            (
                AppModel {
                    instances: relayout(
                        self.instances.push(RuntimeModel::fresh(board_translate(term_size, bw, bh))),
                        term_size,
                        bw,
                        bh,
                    ),
                    active: n as usize,
                    ..self
                },
                InputResult::Clear,
            )
        } else if code == KeyCode::Char('-') && n > 1 {
            (AppModel { confirm_remove: true, ..self }, InputResult::RedrawAll)
        } else if ctx.config.keybinds.reset@.contains(code) {
            if rt.state != GameState::Playing || !rt.has_pieces() {
                (self.with_active(rt.reset()), InputResult::Clear)
            } else {
                (self.with_active(RuntimeModel { confirm_reset: true, ..rt }), InputResult::Redraw)
            }
        } else {
            self.game_key(code, ctx)
        }
    }

    /// What a key does. Only presses count; the quit key (with no modifier) always quits;
    /// Ctrl+Shift+R hard-resets the active board; Control alone switches boards; an open
    /// dialog takes the key; otherwise `play_key`.
    pub open spec fn handled(self, key: KeyEvent, ctx: &Context, term_size: (u16, u16)) -> (AppModel, InputResult) {
        let rt = self.active_rt();
        if key.kind != KeyEventKind::Press {
            (self, InputResult::Continue)
        } else if ctx.config.keybinds.quit@.contains(key.code) && key.modifiers.none_held() {
            (self, InputResult::Quit)
        } else if key.modifiers.control && key.modifiers.shift && key.code == KeyCode::Char('R') {
            (self.with_active(rt.hard_reset()), InputResult::Clear)
        } else if key.modifiers.control_only() {
            self.control_key(key.code)
        } else if self.confirm_remove {
            self.remove_dialog_key(key.code, term_size, ctx.textures.board_width, ctx.textures.board_height)
        } else if rt.confirm_reset {
            self.reset_dialog_key(key.code)
        } else {
            self.play_key(key.code, ctx, term_size)
        }
    }

    /// Whether a key gets as far as the `+` check.
    pub open spec fn reaches_add(self, key: KeyEvent, ctx: &Context) -> bool {
        &&& key.kind == KeyEventKind::Press
        &&& !(ctx.config.keybinds.quit@.contains(key.code) && key.modifiers.none_held())
        &&& !(key.modifiers.control && key.modifiers.shift && key.code == KeyCode::Char('R'))
        &&& !key.modifiers.control_only()
        &&& !self.confirm_remove
        &&& !self.active_rt().confirm_reset
        &&& key.code == KeyCode::Char('+')
    }
}

/// Whether `key` is one of `binds`.
pub fn key_matches(key: KeyCode, binds: &Vec<KeyCode>) -> (b: bool)
    ensures
        b == binds@.contains(key),
{
    let mut i: usize = 0;
    while i < binds.len()
        invariant
            i <= binds@.len(),
            forall|j: int| 0 <= j < i ==> binds@[j] != key,
        decreases binds@.len() - i,
    {
        if binds[i] == key {
            return true;
        }
        i += 1;
    }
    false
}

/// Whether any column of the board holds a disk.
fn has_pieces(rt: &Runtime) -> (b: bool)
    requires
        rt.ok(),
    ensures
        b == rt@.has_pieces(),
{
    let mut c: usize = 0;
    while c < GRID_COLS
        invariant
            c <= GRID_COLS,
            forall|i: int| 0 <= i < c ==> rt@.grid.col_fill[i] == 0,
        decreases GRID_COLS - c,
    {
        if rt.game.grid.col_fill[c] > 0 {
            assert(rt@.grid.col_fill[c as int] > 0);
            return true;
        }
        c += 1;
    }
    false
}

/// Handles one key (see `AppModel::handled`).
pub fn handle_key(key: KeyEvent, app: &mut AppState, ctx: &Context, term_size: (u16, u16)) -> (r: InputResult)
    requires
        old(app).wf(&ctx.strings),
        old(app)@.active_rt().score_room(),
        old(app)@.reaches_add(key, ctx) && old(app)@.instances.len() < 9 ==> total_width(
            old(app)@.instances.len() + 1int,
            ctx.textures.board_width as int,
        ) <= u16::MAX,
    ensures
        final(app).wf(&ctx.strings),
        (final(app)@, r) == old(app)@.handled(key, ctx, term_size),
{
    let ghost m = app@;
    if key.kind != KeyEventKind::Press {
        return InputResult::Continue;
    }
    let binds = &ctx.config.keybinds;

    // The quit key works whatever dialog is open.
    if key_matches(key.code, &binds.quit) && key.modifiers.is_empty() {
        return InputResult::Quit;
    }

    let a = app.active;
    assert(app.instances@[a as int].wf(&ctx.strings));

    // Ctrl+Shift+R: hard reset.
    if key.modifiers.control && key.modifiers.shift && key.code == KeyCode::Char('R') {
        app.instances[a].hard_reset(ctx);
        proof {
            assert(app@ =~= m.with_active(m.active_rt().hard_reset()));
        }
        return InputResult::Clear;
    }

    // Control alone: switch boards.
    if key.modifiers.is_control_only() {
        let count = app.instances.len();
        match key.code {
            KeyCode::Char(c) => {
                if '0' <= c && c <= '9' {
                    let d = (c as u32 - '0' as u32) as usize;
                    if d >= 1 && d - 1 < count {
                        app.active = d - 1;
                        proof {
                            assert(app@ =~= m.control_key(key.code).0);
                        }
                        return InputResult::RedrawAll;
                    }
                    return InputResult::Continue;
                }
                if c == 'a' {
                    app.active = (app.active + count - 1) % count;
                    proof {
                        assert(app@ =~= m.control_key(key.code).0);
                    }
                    return InputResult::RedrawAll;
                }
                if c == 'd' {
                    app.active = (app.active + 1) % count;
                    proof {
                        assert(app@ =~= m.control_key(key.code).0);
                    }
                    return InputResult::RedrawAll;
                }
                return InputResult::Continue;
            },
            KeyCode::Left => {
                app.active = (app.active + count - 1) % count;
                proof {
                    assert(app@ =~= m.control_key(key.code).0);
                }
                return InputResult::RedrawAll;
            },
            KeyCode::Right => {
                app.active = (app.active + 1) % count;
                proof {
                    assert(app@ =~= m.control_key(key.code).0);
                }
                return InputResult::RedrawAll;
            },
            _ => {
                return InputResult::Continue;
            },
        }
    }

    // The remove-board dialog swallows every key but Y, N and Esc.
    if app.confirm_remove {
        match key.code {
            KeyCode::Char('Y') => {
                if app.instances.len() > 1 {
                    let ghost before = app.instances@;
                    let _removed = app.instances.remove(app.active);
                    proof {
                        assert(instances_view(app.instances@) =~= m.instances.remove(a as int));
                        assert forall|i: int| 0 <= i < app.instances@.len() implies #[trigger] app.instances@[i].wf(&ctx.strings) by {
                            if i < a {
                                assert(app.instances@[i] == before[i]);
                            } else {
                                assert(app.instances@[i] == before[i + 1]);
                            }
                        }
                        crate::app::lemma_nine_boards_fit(ctx.textures.board_width, app.instances@.len() as int);
                    }
                    let last = app.instances.len() - 1;
                    app.active = if app.active <= last {
                        app.active
                    } else {
                        last
                    };
                    let ghost kept = instances_view(app.instances@);
                    update_all_translates(&mut app.instances, term_size, &ctx.textures, &ctx.strings);
                    proof {
                        crate::app::lemma_relayout_on_screen(kept, term_size, ctx.textures.board_width, ctx.textures.board_height);
                    }
                    assert(app.instances@.len() == instances_view(app.instances@).len());
                }
                app.confirm_remove = false;
                proof {
                    assert(app@ =~= m.remove_dialog_key(key.code, term_size, ctx.textures.board_width, ctx.textures.board_height).0);
                }
                return InputResult::Clear;
            },
            KeyCode::Char('N') | KeyCode::Esc => {
                app.confirm_remove = false;
                proof {
                    assert(app@ =~= m.remove_dialog_key(key.code, term_size, ctx.textures.board_width, ctx.textures.board_height).0);
                }
                return InputResult::Clear;
            },
            _ => {
                return InputResult::Continue;
            },
        }
    }

    // The reset dialog swallows every key but Y, N and Esc.
    if app.instances[a].confirm_reset {
        match key.code {
            KeyCode::Char('Y') => {
                app.instances[a].reset_game();
                proof {
                    assert(app@ =~= m.reset_dialog_key(key.code).0);
                }
                return InputResult::Clear;
            },
            KeyCode::Char('N') | KeyCode::Esc => {
                app.instances[a].confirm_reset = false;
                proof {
                    assert(app@ =~= m.reset_dialog_key(key.code).0);
                }
                return InputResult::Clear;
            },
            _ => {
                return InputResult::Continue;
            },
        }
    }

    // Number keys 1-7 drop directly, whatever the key bindings.
    if let KeyCode::Char(c) = key.code {
        if '1' <= c && c <= '7' && app.instances[a].game.state == GameState::Playing {
            let col = (c as u32 - '1' as u32) as usize;
            do_drop(&mut app.instances[a], col, ctx);
            proof {
                assert(app@ =~= m.play_key(key.code, ctx, term_size).0);
            }
            return InputResult::Redraw;
        }
    }

    // Adding and removing boards.
    if key.code == KeyCode::Char('+') && can_add_instance(app.instances.as_slice(), term_size.0, &ctx.textures) {
        let fresh = Runtime::new(ctx, term_size);
        app.instances.push(fresh);
        proof {
            assert(instances_view(app.instances@) =~= m.instances.push(fresh@));
            crate::app::lemma_nine_boards_fit(ctx.textures.board_width, app.instances@.len() as int);
        }
        let ghost grown = instances_view(app.instances@);
        update_all_translates(&mut app.instances, term_size, &ctx.textures, &ctx.strings);
        proof {
            crate::app::lemma_relayout_on_screen(grown, term_size, ctx.textures.board_width, ctx.textures.board_height);
        }
        assert(app.instances@.len() == instances_view(app.instances@).len());
        app.active = app.instances.len() - 1;
        proof {
            assert(app@ =~= m.play_key(key.code, ctx, term_size).0);
        }
        return InputResult::Clear;
    }
    if key.code == KeyCode::Char('-') && app.instances.len() > 1 {
        app.confirm_remove = true;
        proof {
            assert(app@ =~= m.play_key(key.code, ctx, term_size).0);
        }
        return InputResult::RedrawAll;
    }

    // Reset.
    if key_matches(key.code, &binds.reset) {
        let pieces = has_pieces(&app.instances[a]);
        let game_over = app.instances[a].game.state != GameState::Playing;
        if game_over || !pieces {
            app.instances[a].reset_game();
            proof {
                assert(app@ =~= m.play_key(key.code, ctx, term_size).0);
            }
            return InputResult::Clear;
        }
        app.instances[a].confirm_reset = true;
        proof {
            assert(app@ =~= m.play_key(key.code, ctx, term_size).0);
        }
        return InputResult::Redraw;
    }

    let playing = app.instances[a].game.state == GameState::Playing;

    // Column selection.
    if key_matches(key.code, &binds.move_left) && playing {
        let w = app.instances[a].game.grid.width;
        let sel = app.instances[a].selected_col;
        app.instances[a].selected_col = (sel + w - 1) % w;
        app.instances[a].show_cursor = true;
        app.instances[a].dirty = true;
        proof {
            assert(app@ =~= m.game_key(key.code, ctx).0);
        }
        return InputResult::Redraw;
    }
    if key_matches(key.code, &binds.move_right) && playing {
        let w = app.instances[a].game.grid.width;
        let sel = app.instances[a].selected_col;
        app.instances[a].selected_col = (sel + 1) % w;
        app.instances[a].show_cursor = true;
        app.instances[a].dirty = true;
        proof {
            assert(app@ =~= m.game_key(key.code, ctx).0);
        }
        return InputResult::Redraw;
    }

    // Dropping a disk.
    if key_matches(key.code, &binds.drop) && playing {
        let col = app.instances[a].selected_col;
        do_drop(&mut app.instances[a], col, ctx);
        proof {
            assert(app@ =~= m.game_key(key.code, ctx).0);
        }
        return InputResult::Redraw;
    }

    // Undo and redo.
    if key_matches(key.code, &binds.undo) && app.instances[a].history.len() > 0 {
        app.instances[a].undo(ctx);
        proof {
            assert(app@ =~= m.game_key(key.code, ctx).0);
        }
        return InputResult::Redraw;
    }
    if key_matches(key.code, &binds.redo) && app.instances[a].redo_stack.len() > 0 {
        proof {
            let rt = m.active_rt();
            assert(crate::runtime::entry_wf(rt.redo[rt.redo.len() - 1]));
        }
        app.instances[a].redo(ctx);
        proof {
            assert(app@ =~= m.game_key(key.code, ctx).0);
        }
        return InputResult::Redraw;
    }

    InputResult::Continue
}

/// Handles one terminal event; `term_size` is the terminal size after it.
pub fn handle_event(event: Event, app: &mut AppState, ctx: &Context, term_size: (u16, u16)) -> (r: InputResult)
    requires
        old(app).wf(&ctx.strings),
        old(app)@.active_rt().score_room(),
        event matches Event::Key(key) ==> (old(app)@.reaches_add(key, ctx) && old(app)@.instances.len() < 9
            ==> total_width(old(app)@.instances.len() + 1int, ctx.textures.board_width as int) <= u16::MAX),
    ensures
        final(app).wf(&ctx.strings),
        match event {
            Event::Key(key) => (final(app)@, r) == old(app)@.handled(key, ctx, term_size),
            Event::Resize(_, _) => {
                &&& final(app)@ == (AppModel {
                    instances: relayout(
                        old(app)@.instances,
                        term_size,
                        ctx.textures.board_width,
                        ctx.textures.board_height,
                    ),
                    ..old(app)@
                })
                &&& r == InputResult::Clear
            },
            Event::Other => final(app)@ == old(app)@ && r == InputResult::Continue,
        },
{
    match event {
        Event::Key(key) => handle_key(key, app, ctx, term_size),
        Event::Resize(_, _) => {
            let ghost m = app@;
            proof {
                crate::app::lemma_nine_boards_fit(ctx.textures.board_width, app.instances@.len() as int);
            }
            update_all_translates(&mut app.instances, term_size, &ctx.textures, &ctx.strings);
            assert(app.instances@.len() == instances_view(app.instances@).len());
            proof {
                crate::app::lemma_relayout_on_screen(m.instances, term_size, ctx.textures.board_width, ctx.textures.board_height);
                assert(app@ =~= AppModel {
                    instances: relayout(m.instances, term_size, ctx.textures.board_width, ctx.textures.board_height),
                    ..m
                });
            }
            InputResult::Clear
        },
        Event::Other => InputResult::Continue,
    }
}

/// Drops a disk of the current player in `col` (see `RuntimeModel::dropped`) and says
/// whether it was placed.
pub fn do_drop(rt: &mut Runtime, col: usize, ctx: &Context) -> (placed: bool)
    requires
        old(rt).wf(&ctx.strings),
        old(rt)@.drop_wins(col) ==> old(rt)@.scores[old(rt)@.current_player as int] < u32::MAX,
    ensures
        final(rt).wf(&ctx.strings),
        (final(rt)@, placed) == old(rt)@.dropped(col, ctx.config.player_colors, ctx.textures.disk_height),
{
    let ghost old_m = rt@;
    proof {
        lemma_drop_wf(old_m, col, ctx.config.player_colors, ctx.textures.disk_height);
    }
    rt.confirm_reset = false;
    rt.action_banner = None;

    let n = rt.redo_stack.len();
    let matches_redo = n > 0 && match &rt.redo_stack[n - 1] {
        HistoryEntry::Move(r) => r.col == col && r.player == rt.current_player,
        _ => false,
    };
    proof {
        if n > 0 {
            assert(rt.redo_stack@[n - 1]@ == old_m.redo.last());
        }
    }
    if matches_redo {
        rt.redo_stack.pop();
        proof {
            assert(history_view(rt.redo_stack@) =~= old_m.redo.drop_last());
        }
    } else {
        rt.redo_stack.clear();
        proof {
            assert(history_view(rt.redo_stack@) =~= Seq::<HistoryModel>::empty());
        }
    }

    let (r, g, b) = ctx.config.player_colors[rt.current_player];
    let disk = Disk { player: rt.current_player as u8, color: (r, g, b) };

    let animator = match rt.game.drop_animated(disk, col, &ctx.textures) {
        Ok(a) => a,
        Err(_) => {
            proof {
                assert(rt@ =~= old_m.dropped(col, ctx.config.player_colors, ctx.textures.disk_height).0);
            }
            return false;
        },
    };

    let row = animator.row;
    rt.selected_col = col;
    rt.animators[col][row] = Some(animator);
    let ghost before = history_view(rt.history@);
    rt.history.push(HistoryEntry::Move(MoveRecord { col, row, player: rt.current_player }));
    proof {
        assert(history_view(rt.history@) =~= before.push(
            HistoryModel::Move(MoveRecord { col, row, player: old_m.current_player }),
        ));
    }

    match rt.game.state {
        GameState::Won(p) => {
            rt.scores[p] += 1;
            rt.update_score_strings(ctx);
        },
        GameState::Playing => {
            rt.current_player = 1 - rt.current_player;
        },
        GameState::Tie => {},
    }
    rt.show_cursor = false;
    rt.dirty = true;
    proof {
        let new_m = old_m.dropped(col, ctx.config.player_colors, ctx.textures.disk_height).0;
        assert(rt@.animators =~= new_m.animators);
        assert(rt@.scores =~= new_m.scores);
        assert(rt@ =~= new_m);
    }
    true
}

/// The quit key, pressed without modifiers, quits whatever board or dialog is showing,
/// and changes nothing.
pub proof fn lemma_quit_key_quits(m: AppModel, key: KeyEvent, ctx: &Context, term_size: (u16, u16))
    requires
        key.kind == KeyEventKind::Press,
        ctx.config.keybinds.quit@.contains(key.code),
        key.modifiers.none_held(),
    ensures
        m.handled(key, ctx, term_size) == (m, InputResult::Quit),
{
}

/// While the removal dialog is open, a key other than Y, N, Esc, the quit key, the
/// hard-reset chord and Control combinations changes nothing.
pub proof fn lemma_remove_dialog_swallows_keys(m: AppModel, key: KeyEvent, ctx: &Context, term_size: (u16, u16))
    requires
        m.confirm_remove,
        !(ctx.config.keybinds.quit@.contains(key.code) && key.modifiers.none_held()),
        !(key.modifiers.control && key.modifiers.shift && key.code == KeyCode::Char('R')),
        !key.modifiers.control_only(),
        key.code != KeyCode::Char('Y'),
        key.code != KeyCode::Char('N'),
        key.code != KeyCode::Esc,
    ensures
        m.handled(key, ctx, term_size) == (m, InputResult::Continue),
{
}

/// While the active board asks to confirm a reset (and no removal dialog is open), a
/// key other than Y, N, Esc, the quit key, the hard-reset chord and Control
/// combinations changes nothing.
pub proof fn lemma_reset_dialog_swallows_keys(m: AppModel, key: KeyEvent, ctx: &Context, term_size: (u16, u16))
    requires
        !m.confirm_remove,
        m.active_rt().confirm_reset,
        !(ctx.config.keybinds.quit@.contains(key.code) && key.modifiers.none_held()),
        !(key.modifiers.control && key.modifiers.shift && key.code == KeyCode::Char('R')),
        !key.modifiers.control_only(),
        key.code != KeyCode::Char('Y'),
        key.code != KeyCode::Char('N'),
        key.code != KeyCode::Esc,
    ensures
        m.handled(key, ctx, term_size) == (m, InputResult::Continue),
{
}

/// The games are independent: a key that neither adds nor removes a board leaves every
/// board but the active one as it was.
pub proof fn lemma_keys_touch_only_active(m: AppModel, key: KeyEvent, ctx: &Context, term_size: (u16, u16))
    requires
        m.active < m.instances.len(),
        m.handled(key, ctx, term_size).0.instances.len() == m.instances.len(),
    ensures
        forall|i: int|
            0 <= i < m.instances.len() && i != m.active ==> #[trigger] m.handled(key, ctx, term_size).0.instances[i]
                == m.instances[i],
{
    let r = m.handled(key, ctx, term_size).0;
    assert forall|i: int| 0 <= i < m.instances.len() && i != m.active implies #[trigger] r.instances[i]
        == m.instances[i] by {
        if key.kind == KeyEventKind::Press && !(ctx.config.keybinds.quit@.contains(key.code)
            && key.modifiers.none_held()) && !(key.modifiers.control && key.modifiers.shift && key.code
            == KeyCode::Char('R')) && !key.modifiers.control_only() && m.confirm_remove {
            let n = m.instances.len() as int;
            if key.code == KeyCode::Char('Y') && n > 1 {
                assert(r.instances.len() == n - 1);
            }
        }
        if key.kind == KeyEventKind::Press && !(ctx.config.keybinds.quit@.contains(key.code)
            && key.modifiers.none_held()) && !(key.modifiers.control && key.modifiers.shift && key.code
            == KeyCode::Char('R')) && !key.modifiers.control_only() && !m.confirm_remove
            && !m.active_rt().confirm_reset && key.code == KeyCode::Char('+') && room_for_another(
            m.instances.len() as int,
            term_size.0,
            ctx.textures.board_width,
        ) {
            assert(r.instances.len() == m.instances.len() + 1);
        }
    }
}

/// Whatever the key, there stay one to nine boards and the active one is one of them.
pub proof fn lemma_board_count_in_range(m: AppModel, key: KeyEvent, ctx: &Context, term_size: (u16, u16))
    requires
        1 <= m.instances.len() <= 9,
        m.active < m.instances.len(),
    ensures
        1 <= m.handled(key, ctx, term_size).0.instances.len() <= 9,
        m.handled(key, ctx, term_size).0.active < m.handled(key, ctx, term_size).0.instances.len(),
{
    let n = m.instances.len() as int;
    assert((m.active + n - 1) % n < n);
    assert((m.active + 1) % n < n);
}

/// Confirming the removal dialog with `Y` removes exactly the active board when there are
/// several: every other board stays, in order, with its game (board, turn, scores,
/// history) untouched; only the row is laid out again. The board that follows the removed
/// one becomes active (the one before it, when the last was removed), and the dialog
/// closes.
pub proof fn lemma_remove_takes_the_active_board(m: AppModel, key: KeyEvent, ctx: &Context, term_size: (u16, u16))
    requires
        1 < m.instances.len(),
        m.active < m.instances.len(),
        m.confirm_remove,
        key.kind == KeyEventKind::Press,
        key.code == KeyCode::Char('Y'),
        key.modifiers.none_held(),
        !ctx.config.keybinds.quit@.contains(KeyCode::Char('Y')),
    ensures
        ({
            let (r, res) = m.handled(key, ctx, term_size);
            let n = m.instances.len() as int;
            &&& res == InputResult::Clear
            &&& !r.confirm_remove
            &&& r.instances.len() == n - 1
            &&& forall|i: int|
                0 <= i < n - 1 ==> {
                    let old_i = if i < m.active {
                        i
                    } else {
                        i + 1
                    };
                    (RuntimeModel {
                        translate: m.instances[old_i].translate,
                        dirty: m.instances[old_i].dirty,
                        ..#[trigger] r.instances[i]
                    }) == m.instances[old_i]
                }
            &&& r.active == if m.active < n - 1 {
                m.active
            } else {
                (n - 2) as usize
            }
        }),
{
}

} // verus!
