//! Settings chosen on the command line, and the resources every board reads.
use vstd::prelude::*;

use crate::constants::PLAYER_COLORS;
use crate::input::KeyCode;
use crate::strings::Strings;
use crate::text::{
    lowercase, parse_u64, parse_u8, parse_unsigned, parse_usize, split, split_once, split_once_spec, split_spec,
    to_lowercase, trim, trim_spec,
};
use crate::textures::Textures;

verus! {

/// The keys bound to each action; an action may have several keys.
pub struct KeyBinds {
    pub move_left: Vec<KeyCode>,
    pub move_right: Vec<KeyCode>,
    pub drop: Vec<KeyCode>,
    pub undo: Vec<KeyCode>,
    pub redo: Vec<KeyCode>,
    pub reset: Vec<KeyCode>,
    pub quit: Vec<KeyCode>,
}

/// The settings that the game logic reads (the disk physics lives with the animation).
pub struct Config {
    pub keybinds: KeyBinds,
    pub fps: u64,
    pub starting_instances: usize,
    pub player_colors: [(u8, u8, u8); 2],
    pub vfr: bool,
}

/// Everything the boards read but never change.
pub struct Context {
    pub config: Config,
    pub strings: Strings,
    pub textures: Textures,
}

impl Default for KeyBinds {
    fn default() -> (k: Self)
        ensures
            k.move_left@ == seq![KeyCode::Left, KeyCode::Char('a')],
            k.move_right@ == seq![KeyCode::Right, KeyCode::Char('d')],
            k.drop@ == seq![KeyCode::Enter, KeyCode::Char(' ')],
            k.undo@ == seq![KeyCode::Char('u')],
            k.redo@ == seq![KeyCode::Char('U')],
            k.reset@ == seq![KeyCode::Char('r')],
            k.quit@ == seq![KeyCode::Char('q')],
    {
        Self {
            move_left: vec![KeyCode::Left, KeyCode::Char('a')],
            move_right: vec![KeyCode::Right, KeyCode::Char('d')],
            drop: vec![KeyCode::Enter, KeyCode::Char(' ')],
            undo: vec![KeyCode::Char('u')],
            redo: vec![KeyCode::Char('U')],
            reset: vec![KeyCode::Char('r')],
            quit: vec![KeyCode::Char('q')],
        }
    }
}

impl Default for Config {
    fn default() -> (c: Self)
        ensures
            c.keybinds.quit@ == seq![KeyCode::Char('q')],
            c.keybinds.move_left@ == seq![KeyCode::Left, KeyCode::Char('a')],
            c.keybinds.move_right@ == seq![KeyCode::Right, KeyCode::Char('d')],
            c.keybinds.drop@ == seq![KeyCode::Enter, KeyCode::Char(' ')],
            c.keybinds.undo@ == seq![KeyCode::Char('u')],
            c.keybinds.redo@ == seq![KeyCode::Char('U')],
            c.keybinds.reset@ == seq![KeyCode::Char('r')],
            c.fps == 60,
            c.starting_instances == 1,
            c.player_colors == PLAYER_COLORS,
            !c.vfr,
    {
        Self {
            keybinds: KeyBinds::default(),
            fps: 60,
            starting_instances: 1,
            player_colors: PLAYER_COLORS,
            vfr: false,
        }
    }
}


/// The settings in mathematical form.
#[verifier::ext_equal]
pub struct ConfigModel {
    pub move_left: Seq<KeyCode>,
    pub move_right: Seq<KeyCode>,
    pub drop: Seq<KeyCode>,
    pub undo: Seq<KeyCode>,
    pub redo: Seq<KeyCode>,
    pub reset: Seq<KeyCode>,
    pub quit: Seq<KeyCode>,
    pub fps: u64,
    pub starting_instances: usize,
    pub player_colors: Seq<(u8, u8, u8)>,
    pub vfr: bool,
}

impl View for Config {
    type V = ConfigModel;

    open spec fn view(&self) -> ConfigModel {
        ConfigModel {
            move_left: self.keybinds.move_left@,
            move_right: self.keybinds.move_right@,
            drop: self.keybinds.drop@,
            undo: self.keybinds.undo@,
            redo: self.keybinds.redo@,
            reset: self.keybinds.reset@,
            quit: self.keybinds.quit@,
            fps: self.fps,
            starting_instances: self.starting_instances,
            player_colors: self.player_colors@,
            vfr: self.vfr,
        }
    }
}

/// The settings of the disks' fall, whose values are floating-point numbers.
#[derive(Clone, Copy, PartialEq, Eq, Structural, Debug)]
pub enum PhysicsParam {
    Gravity,
    Restitution,
    Settle,
}

/// What reading the arguments has to report, in order.
#[derive(Debug, PartialEq, Eq)]
pub enum ArgNote {
    /// A line for standard error.
    Message(String),
    /// The value given for a fall setting; reading it as a number is left to the caller,
    /// who reports `Invalid value for --<name>: <value>` when it is not one.
    Physics(PhysicsParam, String),
}

pub enum NoteModel {
    Message(Seq<char>),
    Physics(PhysicsParam, Seq<char>),
}

impl View for ArgNote {
    type V = NoteModel;

    open spec fn view(&self) -> NoteModel {
        match self {
            ArgNote::Message(s) => NoteModel::Message(s@),
            ArgNote::Physics(p, s) => NoteModel::Physics(*p, s@),
        }
    }
}

/// The outcome of reading the command line: the settings, the reports, and whether help
/// was asked for (reading stops there).
pub struct ParsedArgs {
    pub config: Config,
    pub notes: Vec<ArgNote>,
    pub help: bool,
}

#[verifier::ext_equal]
pub struct ArgsModel {
    pub config: ConfigModel,
    pub notes: Seq<NoteModel>,
    pub help: bool,
}

impl View for ParsedArgs {
    type V = ArgsModel;

    open spec fn view(&self) -> ArgsModel {
        ArgsModel { config: self.config@, notes: self.notes@.map_values(|n: ArgNote| n@), help: self.help }
    }
}

/// The key a (lower-case) key name stands for.
pub open spec fn key_named(name: Seq<char>) -> Option<KeyCode> {
    if name == "enter"@ {
        Some(KeyCode::Enter)
    } else if name == "space"@ {
        Some(KeyCode::Char(' '))
    } else if name == "left"@ {
        Some(KeyCode::Left)
    } else if name == "right"@ {
        Some(KeyCode::Right)
    } else if name == "up"@ {
        Some(KeyCode::Up)
    } else if name == "down"@ {
        Some(KeyCode::Down)
    } else if name == "esc"@ || name == "escape"@ {
        Some(KeyCode::Esc)
    } else if name == "backspace"@ {
        Some(KeyCode::Backspace)
    } else if name == "tab"@ {
        Some(KeyCode::Tab)
    } else {
        None
    }
}

/// A text of exactly one one-byte character.
pub open spec fn single_byte_char(t: Seq<char>) -> bool {
    t.len() == 1 && (t[0] as u32) < 0x80
}

/// The key written `s` on the command line, read without surrounding whitespace: a key
/// name in any case; else a single one-byte character as written (so `U` and `u` are
/// different keys); else a text whose lower case is a single one-byte character (such as
/// the Kelvin sign), as that character.
pub open spec fn parse_key_spec(s: Seq<char>) -> Option<KeyCode> {
    let t = trim_spec(s);
    let l = lowercase(t);
    match key_named(l) {
        Some(k) => Some(k),
        None => if single_byte_char(t) {
            Some(KeyCode::Char(t[0]))
        } else if single_byte_char(l) {
            Some(KeyCode::Char(l[0]))
        } else {
            None
        },
    }
}

/// The colour written `r,g,b`, each part a `u8` with optional whitespace around it.
pub open spec fn parse_color_spec(s: Seq<char>) -> Option<(u8, u8, u8)> {
    let parts = split_spec(s, ',');
    if parts.len() != 3 {
        None
    } else {
        match (
            parse_unsigned(trim_spec(parts[0]), 255),
            parse_unsigned(trim_spec(parts[1]), 255),
            parse_unsigned(trim_spec(parts[2]), 255),
        ) {
            (Some(r), Some(g), Some(b)) => Some((r as u8, g as u8, b as u8)),
            _ => None,
        }
    }
}

/// The keys read from the comma-separated names `parts`, unknown names skipped.
pub open spec fn bind_keys(parts: Seq<Seq<char>>) -> Seq<KeyCode>
    decreases parts.len(),
{
    if parts.len() == 0 {
        seq![]
    } else {
        let rest = bind_keys(parts.drop_last());
        match parse_key_spec(parts.last()) {
            Some(k) => rest.push(k),
            None => rest,
        }
    }
}

/// One report for each unknown key name in `parts`, in order.
pub open spec fn bind_notes(parts: Seq<Seq<char>>) -> Seq<NoteModel>
    decreases parts.len(),
{
    if parts.len() == 0 {
        seq![]
    } else {
        let rest = bind_notes(parts.drop_last());
        match parse_key_spec(parts.last()) {
            Some(_) => rest,
            None => rest.push(NoteModel::Message("Unknown key name: "@ + parts.last())),
        }
    }
}

impl ArgsModel {
    pub open spec fn note(self, s: Seq<char>) -> ArgsModel {
        ArgsModel { notes: self.notes.push(NoteModel::Message(s)), ..self }
    }

    pub open spec fn with_config(self, c: ConfigModel) -> ArgsModel {
        ArgsModel { config: c, ..self }
    }

    /// `--fps <n>`: at least one frame per second.
    pub open spec fn fps_step(self, val: Seq<char>) -> ArgsModel {
        match parse_unsigned(val, u64::MAX as nat) {
            Some(n) => self.with_config(ConfigModel { fps: if n < 1 { 1 } else { n as u64 }, ..self.config }),
            None => self.note("Invalid value for --fps: "@ + val),
        }
    }

    /// `--instances <n>`: clamped to one to nine.
    pub open spec fn instances_step(self, val: Seq<char>) -> ArgsModel {
        match parse_unsigned(val, usize::MAX as nat) {
            Some(n) => self.with_config(
                ConfigModel {
                    starting_instances: if n < 1 {
                        1
                    } else if n > 9 {
                        9
                    } else {
                        n as usize
                    },
                    ..self.config
                },
            ),
            None => self.note("Invalid value for --instances: "@ + val),
        }
    }

    /// `--player-color <n>=<r,g,b>`; a value without `=` is ignored.
    pub open spec fn color_step(self, val: Seq<char>) -> ArgsModel {
        match split_once_spec(val, '=') {
            Some((idx, rgb)) => match (parse_unsigned(idx, usize::MAX as nat), parse_color_spec(rgb)) {
                (Some(n), Some(c)) => if 1 <= n <= 2 {
                    self.with_config(
                        ConfigModel { player_colors: self.config.player_colors.update(n - 1, c), ..self.config },
                    )
                } else {
                    self.note("Player index must be 1 or 2"@)
                },
                _ => self.note("Invalid value for --player-color: "@ + val).note(
                    "Expected format: --player-color 1=255,0,0"@,
                ),
            },
            None => self,
        }
    }

    /// The keys of `action` replaced by `keys`.
    pub open spec fn bind_action(self, action: Seq<char>, keys: Seq<KeyCode>) -> ArgsModel {
        let c = self.config;
        if action == "move-left"@ {
            self.with_config(ConfigModel { move_left: keys, ..c })
        } else if action == "move-right"@ {
            self.with_config(ConfigModel { move_right: keys, ..c })
        } else if action == "drop"@ {
            self.with_config(ConfigModel { drop: keys, ..c })
        } else if action == "undo"@ {
            self.with_config(ConfigModel { undo: keys, ..c })
        } else if action == "redo"@ {
            self.with_config(ConfigModel { redo: keys, ..c })
        } else if action == "reset"@ {
            self.with_config(ConfigModel { reset: keys, ..c })
        } else if action == "quit"@ {
            self.with_config(ConfigModel { quit: keys, ..c })
        } else {
            self.note("Unknown action for --bind: "@ + action)
        }
    }

    /// `--bind <action>=<key>,<key>,...`.
    pub open spec fn bind_step(self, val: Seq<char>) -> ArgsModel {
        match split_once_spec(val, '=') {
            Some((action, key_str)) => {
                let parts = split_spec(key_str, ',');
                let keys = bind_keys(parts);
                let st = ArgsModel { notes: self.notes + bind_notes(parts), ..self };
                if keys.len() == 0 {
                    st.note("No valid keys for --bind "@ + action + ": "@ + key_str)
                } else {
                    st.bind_action(action, keys)
                }
            },
            None => self.note("Invalid --bind format: "@ + val).note("Expected format: --bind move-left=h,left"@),
        }
    }
}

/// Reading the argument at `i`: the new state and where reading goes on. An option
/// that takes a value and comes last is ignored.
pub open spec fn arg_step(args: Seq<Seq<char>>, i: int, st: ArgsModel) -> (ArgsModel, int) {
    let arg = args[i];
    let more = i + 1 < args.len();
    let val = args[i + 1];
    let next = if more {
        i + 2
    } else {
        i + 1
    };
    if arg == "--help"@ || arg == "-h"@ {
        (ArgsModel { help: true, ..st }, i + 1)
    } else if arg == "--vfr"@ {
        (st.with_config(ConfigModel { vfr: true, ..st.config }), i + 1)
    } else if arg == "--fps"@ {
        (if more { st.fps_step(val) } else { st }, next)
    } else if arg == "--gravity"@ || arg == "--restitution"@ || arg == "--settle"@ {
        let p = if arg == "--gravity"@ {
            PhysicsParam::Gravity
        } else if arg == "--restitution"@ {
            PhysicsParam::Restitution
        } else {
            PhysicsParam::Settle
        };
        (if more { ArgsModel { notes: st.notes.push(NoteModel::Physics(p, val)), ..st } } else { st }, next)
    } else if arg == "--instances"@ {
        (if more { st.instances_step(val) } else { st }, next)
    } else if arg == "--player-color"@ {
        (if more { st.color_step(val) } else { st }, next)
    } else if arg == "--bind"@ {
        (if more { st.bind_step(val) } else { st }, next)
    } else {
        (st.note("Unknown argument: "@ + arg).note("Run with --help for usage."@), i + 1)
    }
}

/// Reading the arguments from `i` on, starting in state `st`, until they run out or help
/// is asked for.
pub open spec fn parse_args_from(args: Seq<Seq<char>>, i: int, st: ArgsModel) -> ArgsModel
    decreases args.len() - i,
{
    if i < 0 || i >= args.len() || st.help {
        st
    } else {
        let (next, j) = arg_step(args, i, st);
        if j <= i {
            next
        } else {
            parse_args_from(args, j, next)
        }
    }
}

/// The settings before any argument is read.
pub open spec fn default_config() -> ConfigModel {
    ConfigModel {
        move_left: seq![KeyCode::Left, KeyCode::Char('a')],
        move_right: seq![KeyCode::Right, KeyCode::Char('d')],
        drop: seq![KeyCode::Enter, KeyCode::Char(' ')],
        undo: seq![KeyCode::Char('u')],
        redo: seq![KeyCode::Char('U')],
        reset: seq![KeyCode::Char('r')],
        quit: seq![KeyCode::Char('q')],
        fps: 60,
        starting_instances: 1,
        player_colors: PLAYER_COLORS@,
        vfr: false,
    }
}

/// What the command line `args` (without the program's name) sets and reports.
pub open spec fn parse_args(args: Seq<Seq<char>>) -> ArgsModel {
    parse_args_from(args, 0, ArgsModel { config: default_config(), notes: seq![], help: false })
}

/// Whether two texts are the same.
fn same_text(a: &str, b: &str) -> (r: bool)
    ensures
        r == (a@ == b@),
{
    String::from_str(a) == String::from_str(b)
}

/// `a` followed by `b`.
fn joined(a: &str, b: &str) -> (r: String)
    ensures
        r@ == a@ + b@,
{
    let mut s = String::from_str(a);
    s.append(b);
    s
}

/// The key a lower-case key name stands for (see `key_named`).
pub fn key_from_name(name: &str) -> (r: Option<KeyCode>)
    ensures
        r == key_named(name@),
{
    if same_text(name, "enter") {
        Some(KeyCode::Enter)
    } else if same_text(name, "space") {
        Some(KeyCode::Char(' '))
    } else if same_text(name, "left") {
        Some(KeyCode::Left)
    } else if same_text(name, "right") {
        Some(KeyCode::Right)
    } else if same_text(name, "up") {
        Some(KeyCode::Up)
    } else if same_text(name, "down") {
        Some(KeyCode::Down)
    } else if same_text(name, "esc") || same_text(name, "escape") {
        Some(KeyCode::Esc)
    } else if same_text(name, "backspace") {
        Some(KeyCode::Backspace)
    } else if same_text(name, "tab") {
        Some(KeyCode::Tab)
    } else {
        None
    }
}

/// Reads one key (see `parse_key_spec`); an unknown one gives the report
/// `Unknown key name: <s>`.
pub fn parse_key(s: &str) -> (r: Result<KeyCode, String>)
    ensures
        match r {
            Ok(k) => parse_key_spec(s@) == Some(k),
            Err(m) => parse_key_spec(s@) is None && m@ == "Unknown key name: "@ + s@,
        },
{
    let t = trim(s);
    let lower = to_lowercase(t);
    match key_from_name(lower.as_str()) {
        Some(k) => Ok(k),
        None => {
            let name = lower.as_str();
            if t.unicode_len() == 1 && (t.get_char(0) as u32) < 0x80 {
                Ok(KeyCode::Char(t.get_char(0)))
            } else if name.unicode_len() == 1 && (name.get_char(0) as u32) < 0x80 {
                Ok(KeyCode::Char(name.get_char(0)))
            } else {
                Err(joined("Unknown key name: ", s))
            }
        },
    }
}

/// Reads a colour written `r,g,b`.
pub fn parse_color(s: &str) -> (r: Option<(u8, u8, u8)>)
    ensures
        r == parse_color_spec(s@),
{
    let parts = split(s, ',');
    proof {
        assert(parts@.map_values(|p: &str| p@).len() == parts@.len());
    }
    if parts.len() != 3 {
        return None;
    }
    proof {
        assert(parts@.map_values(|p: &str| p@)[0] == parts@[0]@);
        assert(parts@.map_values(|p: &str| p@)[1] == parts@[1]@);
        assert(parts@.map_values(|p: &str| p@)[2] == parts@[2]@);
    }
    let r = match parse_u8(trim(parts[0])) {
        Some(v) => v,
        None => return None,
    };
    let g = match parse_u8(trim(parts[1])) {
        Some(v) => v,
        None => return None,
    };
    let b = match parse_u8(trim(parts[2])) {
        Some(v) => v,
        None => return None,
    };
    Some((r, g, b))
}

impl ParsedArgs {
    /// Adds a line for standard error.
    fn note(&mut self, m: String)
        ensures
            final(self)@ == old(self)@.note(m@),
    {
        let ghost before = self.notes@;
        self.notes.push(ArgNote::Message(m));
        proof {
            assert(self.notes@.map_values(|n: ArgNote| n@) =~= before.map_values(|n: ArgNote| n@).push(
                NoteModel::Message(m@),
            ));
        }
    }

    fn fps_step(&mut self, val: &str)
        ensures
            final(self)@ == old(self)@.fps_step(val@),
    {
        match parse_u64(val) {
            Some(n) => {
                self.config.fps = if n < 1 {
                    1
                } else {
                    n
                };
                assert(self@ =~= old(self)@.fps_step(val@));
            },
            None => self.note(joined("Invalid value for --fps: ", val)),
        }
    }

    fn instances_step(&mut self, val: &str)
        ensures
            final(self)@ == old(self)@.instances_step(val@),
    {
        match parse_usize(val) {
            Some(n) => {
                self.config.starting_instances = if n < 1 {
                    1
                } else if n > 9 {
                    9
                } else {
                    n
                };
                assert(self@ =~= old(self)@.instances_step(val@));
            },
            None => self.note(joined("Invalid value for --instances: ", val)),
        }
    }

    fn color_step(&mut self, val: &str)
        ensures
            final(self)@ == old(self)@.color_step(val@),
    {
        if let Some((idx_str, rgb)) = split_once(val, '=') {
            let idx = parse_usize(idx_str);
            let color = parse_color(rgb);
            match (idx, color) {
                (Some(n), Some(c)) => {
                    if 1 <= n && n <= 2 {
                        self.config.player_colors[n - 1] = c;
                        assert(self@ =~= old(self)@.color_step(val@));
                    } else {
                        self.note(String::from_str("Player index must be 1 or 2"));
                    }
                },
                _ => {
                    self.note(joined("Invalid value for --player-color: ", val));
                    self.note(String::from_str("Expected format: --player-color 1=255,0,0"));
                },
            }
        }
    }

    /// Gives `action` the keys `keys`.
    fn bind_action(&mut self, action: &str, keys: Vec<KeyCode>)
        ensures
            final(self)@ == old(self)@.bind_action(action@, keys@),
    {
        if same_text(action, "move-left") {
            self.config.keybinds.move_left = keys;
        } else if same_text(action, "move-right") {
            self.config.keybinds.move_right = keys;
        } else if same_text(action, "drop") {
            self.config.keybinds.drop = keys;
        } else if same_text(action, "undo") {
            self.config.keybinds.undo = keys;
        } else if same_text(action, "redo") {
            self.config.keybinds.redo = keys;
        } else if same_text(action, "reset") {
            self.config.keybinds.reset = keys;
        } else if same_text(action, "quit") {
            self.config.keybinds.quit = keys;
        } else {
            self.note(joined("Unknown action for --bind: ", action));
            return;
        }
        assert(self@ =~= old(self)@.bind_action(action@, keys@));
    }

    fn bind_step(&mut self, val: &str)
        ensures
            final(self)@ == old(self)@.bind_step(val@),
    {
        match split_once(val, '=') {
            Some((action, key_str)) => {
                let parts = split(key_str, ',');
                let ghost pv = parts@.map_values(|p: &str| p@);
                let ghost start = self@;
                let mut keys: Vec<KeyCode> = Vec::new();
                let mut j: usize = 0;
                while j < parts.len()
                    invariant
                        j <= parts@.len(),
                        pv == parts@.map_values(|p: &str| p@),
                        keys@ == bind_keys(pv.take(j as int)),
                        self@ == (ArgsModel { notes: start.notes + bind_notes(pv.take(j as int)), ..start }),
                    decreases parts@.len() - j,
                {
                    proof {
                        assert(pv.take(j + 1).drop_last() =~= pv.take(j as int));
                        assert(pv.take(j + 1).last() == parts@[j as int]@);
                    }
                    let ghost before = self.notes@;
                    match parse_key(parts[j]) {
                        Ok(k) => {
                            keys.push(k);
                        },
                        Err(m) => {
                            self.notes.push(ArgNote::Message(m));
                            proof {
                                assert(self.notes@.map_values(|n: ArgNote| n@) =~= before.map_values(
                                    |n: ArgNote| n@,
                                ).push(NoteModel::Message(m@)));
                            }
                        },
                    }
                    proof {
                        assert(self@ =~= ArgsModel { notes: start.notes + bind_notes(pv.take(j + 1)), ..start });
                    }
                    j += 1;
                }
                proof {
                    assert(pv.take(j as int) =~= pv);
                }
                if keys.len() == 0 {
                    let mut m = joined("No valid keys for --bind ", action);
                    m.append(": ");
                    m.append(key_str);
                    self.note(m);
                } else {
                    self.bind_action(action, keys);
                }
            },
            None => {
                self.note(joined("Invalid --bind format: ", val));
                self.note(String::from_str("Expected format: --bind move-left=h,left"));
            },
        }
    }

    fn physics(&mut self, p: PhysicsParam, val: &str)
        ensures
            final(self)@ == (ArgsModel { notes: old(self)@.notes.push(NoteModel::Physics(p, val@)), ..old(self)@ }),
    {
        let ghost before = self.notes@;
        self.notes.push(ArgNote::Physics(p, String::from_str(val)));
        proof {
            assert(self.notes@.map_values(|n: ArgNote| n@) =~= before.map_values(|n: ArgNote| n@).push(
                NoteModel::Physics(p, val@),
            ));
        }
    }
}

impl Config {
    /// Reads the command line (without the program's name): each option changes the
    /// settings or adds a report, in order; reading stops at `--help`.
    pub fn from_args(args: &Vec<String>) -> (p: ParsedArgs)
        ensures
            p@ == parse_args(args@.map_values(|a: String| a@)),
    {
        let ghost av = args@.map_values(|a: String| a@);
        let mut st = ParsedArgs { config: Config::default(), notes: Vec::new(), help: false };
        proof {
            assert(st@ =~= ArgsModel { config: default_config(), notes: seq![], help: false });
        }
        let mut i: usize = 0;
        while i < args.len() && !st.help
            invariant
                i <= args@.len(),
                av == args@.map_values(|a: String| a@),
                parse_args_from(av, i as int, st@) == parse_args(av),
            decreases args@.len() - i,
        {
            let ghost i0 = i as int;
            let ghost st0 = st@;
            let arg = args[i].as_str();
            let more = i + 1 < args.len();
            proof {
                assert(av[i0] == arg@);
                if more {
                    assert(av[i0 + 1] == args@[i0 + 1]@);
                }
            }
            if same_text(arg, "--help") || same_text(arg, "-h") {
                st.help = true;
                i += 1;
            } else if same_text(arg, "--vfr") {
                st.config.vfr = true;
                i += 1;
            } else if same_text(arg, "--fps") {
                if more {
                    st.fps_step(args[i + 1].as_str());
                    i += 2;
                } else {
                    i += 1;
                }
            } else if same_text(arg, "--gravity") || same_text(arg, "--restitution") || same_text(arg, "--settle") {
                let p = if same_text(arg, "--gravity") {
                    PhysicsParam::Gravity
                } else if same_text(arg, "--restitution") {
                    PhysicsParam::Restitution
                } else {
                    PhysicsParam::Settle
                };
                if more {
                    st.physics(p, args[i + 1].as_str());
                    i += 2;
                } else {
                    i += 1;
                }
            } else if same_text(arg, "--instances") {
                if more {
                    st.instances_step(args[i + 1].as_str());
                    i += 2;
                } else {
                    i += 1;
                }
            } else if same_text(arg, "--player-color") {
                if more {
                    st.color_step(args[i + 1].as_str());
                    i += 2;
                } else {
                    i += 1;
                }
            } else if same_text(arg, "--bind") {
                if more {
                    st.bind_step(args[i + 1].as_str());
                    i += 2;
                } else {
                    i += 1;
                }
            } else {
                st.note(joined("Unknown argument: ", arg));
                st.note(String::from_str("Run with --help for usage."));
                i += 1;
            }
            proof {
                let (next, j) = arg_step(av, i0, st0);
                assert(st@ =~= next);
                assert(i as int == j);
            }
        }
        st
    }
}

/// Settings within their ranges: at least one frame per second, one to nine boards, a
/// colour for each of the two players.
pub open spec fn settings_in_range(c: ConfigModel) -> bool {
    &&& c.fps >= 1
    &&& 1 <= c.starting_instances <= 9
    &&& c.player_colors.len() == 2
}

proof fn lemma_parse_from_in_range(args: Seq<Seq<char>>, i: int, st: ArgsModel)
    requires
        settings_in_range(st.config),
    ensures
        settings_in_range(parse_args_from(args, i, st).config),
    decreases args.len() - i,
{
    if !(i < 0 || i >= args.len() || st.help) {
        let (next, j) = arg_step(args, i, st);
        assert(settings_in_range(next.config));
        if j > i {
            lemma_parse_from_in_range(args, j, next);
        }
    }
}

/// Whatever the command line, the settings it gives are within their ranges.
pub proof fn lemma_parsed_settings_in_range(args: Seq<Seq<char>>)
    ensures
        settings_in_range(parse_args(args).config),
{
    lemma_parse_from_in_range(args, 0, ArgsModel { config: default_config(), notes: seq![], help: false });
}

/// A command line that starts with `--help` asks for help and nothing else: the rest is
/// neither applied nor reported.
pub proof fn lemma_help_first(after: Seq<Seq<char>>)
    ensures
        parse_args(seq!["--help"@] + after) == (ArgsModel { config: default_config(), notes: seq![], help: true }),
{
    let a = seq!["--help"@] + after;
    let st0 = ArgsModel { config: default_config(), notes: seq![], help: false };
    assert(a[0] == "--help"@);
    let (next, j) = arg_step(a, 0, st0);
    assert(next == ArgsModel { help: true, ..st0 });
    assert(parse_args_from(a, 1, next) == next);
}

/// `--player-color n=r,g,b` with `n` 1 or 2 sets the colour of player `n`, and only that
/// one: the other player keeps the default colour, and nothing is reported.
pub proof fn lemma_player_color_sets_that_player(val: Seq<char>, idx: Seq<char>, rgb: Seq<char>, n: nat, c: (u8, u8, u8))
    requires
        split_once_spec(val, '=') == Some((idx, rgb)),
        parse_unsigned(idx, usize::MAX as nat) == Some(n),
        1 <= n <= 2,
        parse_color_spec(rgb) == Some(c),
    ensures
        ({
            let p = parse_args(seq!["--player-color"@, val]);
            &&& p.config.player_colors.len() == 2
            &&& p.config.player_colors[n - 1] == c
            &&& p.config.player_colors[2 - n] == PLAYER_COLORS[2 - n]
            &&& p.notes.len() == 0
            &&& !p.help
        }),
{
    let args = seq!["--player-color"@, val];
    let st0 = ArgsModel { config: default_config(), notes: seq![], help: false };
    reveal_strlit("--player-color");
    reveal_strlit("--help");
    reveal_strlit("-h");
    reveal_strlit("--vfr");
    reveal_strlit("--fps");
    reveal_strlit("--gravity");
    reveal_strlit("--restitution");
    reveal_strlit("--settle");
    reveal_strlit("--instances");
    assert(args[0] == "--player-color"@);
    let (next, j) = arg_step(args, 0, st0);
    assert(j == 2);
    assert(next == st0.color_step(val));
    assert(parse_args_from(args, 2, next) == next);
}

} // verus!
