use connectfour::config::{key_from_name, parse_color, parse_key, ArgNote, Config, ParsedArgs, PhysicsParam};
use connectfour::constants::PLAYER_COLORS;
use connectfour::input::KeyCode;

fn parse(args: &[&str]) -> ParsedArgs {
    let v: Vec<String> = args.iter().map(|a| a.to_string()).collect();
    Config::from_args(&v)
}

fn msg(s: &str) -> ArgNote {
    ArgNote::Message(s.to_string())
}

#[test]
fn key_names() {
    assert_eq!(parse_key("enter"), Ok(KeyCode::Enter));
    assert_eq!(parse_key(" SPACE "), Ok(KeyCode::Char(' ')));
    assert_eq!(parse_key("Left"), Ok(KeyCode::Left));
    assert_eq!(parse_key("right"), Ok(KeyCode::Right));
    assert_eq!(parse_key("up"), Ok(KeyCode::Up));
    assert_eq!(parse_key("down"), Ok(KeyCode::Down));
    assert_eq!(parse_key("esc"), Ok(KeyCode::Esc));
    assert_eq!(parse_key("Escape"), Ok(KeyCode::Esc));
    assert_eq!(parse_key("backspace"), Ok(KeyCode::Backspace));
    assert_eq!(parse_key("tab"), Ok(KeyCode::Tab));
}

#[test]
fn single_characters_are_read_as_written() {
    assert_eq!(parse_key("h"), Ok(KeyCode::Char('h')));
    assert_eq!(parse_key("H"), Ok(KeyCode::Char('H')));
    assert_eq!(parse_key("U"), Ok(KeyCode::Char('U')));
    assert_eq!(parse_key("A"), Ok(KeyCode::Char('A')));
    assert_eq!(parse_key(" 7 "), Ok(KeyCode::Char('7')));
}

#[test]
fn key_names_by_themselves() {
    assert_eq!(key_from_name("enter"), Some(KeyCode::Enter));
    assert_eq!(key_from_name("escape"), Some(KeyCode::Esc));
    assert_eq!(key_from_name("Enter"), None);
    assert_eq!(key_from_name("q"), None);
}

#[test]
fn upper_case_letters_can_be_bound() {
    let p = parse(&["--bind", "redo=U,R"]);
    assert!(p.notes.is_empty());
    assert_eq!(p.config.keybinds.redo, vec![KeyCode::Char('U'), KeyCode::Char('R')]);
}

#[test]
fn unknown_key_names_are_reported() {
    assert_eq!(parse_key("foo"), Err("Unknown key name: foo".to_string()));
    // Not a single byte.
    assert_eq!(parse_key("é"), Err("Unknown key name: é".to_string()));
    // The report quotes the name as given.
    assert_eq!(parse_key(" Zz "), Err("Unknown key name:  Zz ".to_string()));
}

#[test]
fn colours() {
    assert_eq!(parse_color("255,0,0"), Some((255, 0, 0)));
    assert_eq!(parse_color(" 1 , 2 ,3 "), Some((1, 2, 3)));
    assert_eq!(parse_color("1,2"), None);
    assert_eq!(parse_color("1,2,3,4"), None);
    assert_eq!(parse_color("1,2,256"), None);
    assert_eq!(parse_color("1,x,3"), None);
}

#[test]
fn no_arguments_give_the_defaults() {
    let p = parse(&[]);
    assert!(!p.help);
    assert!(p.notes.is_empty());
    assert_eq!(p.config.fps, 60);
    assert_eq!(p.config.starting_instances, 1);
    assert_eq!(p.config.player_colors, PLAYER_COLORS);
    assert!(!p.config.vfr);
    assert_eq!(p.config.keybinds.move_left, vec![KeyCode::Left, KeyCode::Char('a')]);
    assert_eq!(p.config.keybinds.redo, vec![KeyCode::Char('U')]);
    assert_eq!(p.config.keybinds.quit, vec![KeyCode::Char('q')]);
}

#[test]
fn vfr_and_fps() {
    let p = parse(&["--vfr", "--fps", "0"]);
    assert!(p.config.vfr);
    assert_eq!(p.config.fps, 1);
    let p = parse(&["--fps", "144"]);
    assert_eq!(p.config.fps, 144);
    let p = parse(&["--fps", "fast"]);
    assert_eq!(p.config.fps, 60);
    assert_eq!(p.notes, vec![msg("Invalid value for --fps: fast")]);
    // An option missing its value at the end is ignored.
    let p = parse(&["--fps"]);
    assert_eq!(p.config.fps, 60);
    assert!(p.notes.is_empty());
}

#[test]
fn instances_are_clamped() {
    assert_eq!(parse(&["--instances", "20"]).config.starting_instances, 9);
    assert_eq!(parse(&["--instances", "0"]).config.starting_instances, 1);
    assert_eq!(parse(&["--instances", "4"]).config.starting_instances, 4);
    let p = parse(&["--instances", "-3"]);
    assert_eq!(p.config.starting_instances, 1);
    assert_eq!(p.notes, vec![msg("Invalid value for --instances: -3")]);
}

#[test]
fn player_colours() {
    let p = parse(&["--player-color", "2=1,2,3"]);
    assert_eq!(p.config.player_colors, [PLAYER_COLORS[0], (1, 2, 3)]);
    let p = parse(&["--player-color", "3=1,2,3"]);
    assert_eq!(p.config.player_colors, PLAYER_COLORS);
    assert_eq!(p.notes, vec![msg("Player index must be 1 or 2")]);
    let p = parse(&["--player-color", "1=red"]);
    assert_eq!(
        p.notes,
        vec![msg("Invalid value for --player-color: 1=red"), msg("Expected format: --player-color 1=255,0,0")]
    );
    // Without `=` the value is dropped silently.
    let p = parse(&["--player-color", "1"]);
    assert!(p.notes.is_empty());
    assert_eq!(p.config.player_colors, PLAYER_COLORS);
}

#[test]
fn readme_binding_example() {
    let p = parse(&[
        "--bind",
        "move-left=h,left",
        "--bind",
        "move-right=l,right",
        "--bind",
        "undo=z",
        "--bind",
        "drop=enter,space",
    ]);
    assert!(p.notes.is_empty());
    assert_eq!(p.config.keybinds.move_left, vec![KeyCode::Char('h'), KeyCode::Left]);
    assert_eq!(p.config.keybinds.move_right, vec![KeyCode::Char('l'), KeyCode::Right]);
    assert_eq!(p.config.keybinds.undo, vec![KeyCode::Char('z')]);
    assert_eq!(p.config.keybinds.drop, vec![KeyCode::Enter, KeyCode::Char(' ')]);
}

#[test]
fn bindings_with_bad_keys() {
    let p = parse(&["--bind", "undo=zz,backspace"]);
    assert_eq!(p.notes, vec![msg("Unknown key name: zz")]);
    assert_eq!(p.config.keybinds.undo, vec![KeyCode::Backspace]);
    let p = parse(&["--bind", "redo=zz"]);
    assert_eq!(p.notes, vec![msg("Unknown key name: zz"), msg("No valid keys for --bind redo: zz")]);
    assert_eq!(p.config.keybinds.redo, vec![KeyCode::Char('U')]);
}

#[test]
fn bindings_with_bad_actions_or_format() {
    let p = parse(&["--bind", "jump=x"]);
    assert_eq!(p.notes, vec![msg("Unknown action for --bind: jump")]);
    let p = parse(&["--bind", "undo"]);
    assert_eq!(p.notes, vec![msg("Invalid --bind format: undo"), msg("Expected format: --bind move-left=h,left")]);
    let p = parse(&["--bind", "reset=x", "--bind", "quit=esc"]);
    assert_eq!(p.config.keybinds.reset, vec![KeyCode::Char('x')]);
    assert_eq!(p.config.keybinds.quit, vec![KeyCode::Esc]);
}

#[test]
fn physics_values_are_handed_on() {
    let p = parse(&["--gravity", "9.8", "--restitution", "2", "--settle", "x"]);
    assert_eq!(
        p.notes,
        vec![
            ArgNote::Physics(PhysicsParam::Gravity, "9.8".to_string()),
            ArgNote::Physics(PhysicsParam::Restitution, "2".to_string()),
            ArgNote::Physics(PhysicsParam::Settle, "x".to_string()),
        ]
    );
}

#[test]
fn unknown_arguments_are_reported() {
    let p = parse(&["--wat", "--vfr"]);
    assert_eq!(p.notes, vec![msg("Unknown argument: --wat"), msg("Run with --help for usage.")]);
    assert!(p.config.vfr);
}

#[test]
fn help_stops_reading() {
    let p = parse(&["--vfr", "-h", "--fps", "5", "--bogus"]);
    assert!(p.help);
    assert!(p.config.vfr);
    assert_eq!(p.config.fps, 60);
    assert!(p.notes.is_empty());
    let p = parse(&["--help", "--vfr"]);
    assert!(p.help);
    assert!(!p.config.vfr);
}

#[test]
fn settings_stay_in_range() {
    for args in [
        vec!["--fps", "0", "--instances", "100"],
        vec!["--instances", "0", "--fps", "1"],
        vec!["--player-color", "2=0,0,0", "--instances", "18446744073709551615"],
    ] {
        let p = parse(&args);
        assert!(p.config.fps >= 1);
        assert!((1..=9).contains(&p.config.starting_instances));
        assert_eq!(p.config.player_colors.len(), 2);
    }
}
