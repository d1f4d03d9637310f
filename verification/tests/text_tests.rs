use connectfour::draw::DrawOp;
use connectfour::sparse::{parse_sparse_line, render_sparse_line, SparseSegment};
use connectfour::strings::Strings;
use connectfour::config::{parse_color, parse_key, Config};
use connectfour::input::KeyCode;
use connectfour::text::{
    is_whitespace_char, lines, parse_u64, parse_u8, parse_unsigned_upto, parse_usize, repeat, split, split_once, trim,
    char_utf8_width, ends_on_char, skip_bytes, starts_with, strip_prefix, u32_to_string, u64_to_string, usize_to_string,
    utf8_len_at_most,
};
use connectfour::textures::Textures;

const STRINGS: &str = "\
# comment line
   # indented comment

player.turn = Player {0}'s turn
score.entry=Player {0}: {1}
score.separator =  | 
twice = {0} and {0}
dup = first
dup = second
ui.col_cursor.char = v
no equals sign here
";

fn board_source() -> String {
    let mut s = String::from(" 1    2    3    4    5    6    7\n");
    for _ in 0..12 {
        s.push_str("|    |    |    |    |    |    |    |\n");
    }
    s.push('+');
    s.push_str(&"-".repeat(34));
    s.push_str("+\n");
    s
}

const DISK: &str = "(##)\n(##)\n";

#[test]
fn strings_read_key_value_lines() {
    let s = Strings::get(STRINGS);
    assert_eq!(s.raw("player.turn"), "Player {0}'s turn");
    assert_eq!(s.raw("score.entry"), "Player {0}: {1}");
    // One space after `=` is dropped, the rest is kept.
    assert_eq!(s.raw("score.separator"), " | ");
}

#[test]
fn strings_later_entry_wins() {
    let s = Strings::get(STRINGS);
    assert_eq!(s.raw("dup"), "second");
}

#[test]
fn strings_missing_key_gives_the_key() {
    let s = Strings::get(STRINGS);
    assert_eq!(s.raw("no.such.key"), "no.such.key");
    assert_eq!(s.raw("# comment line"), "# comment line");
    assert_eq!(s.fmt("missing {0}", &["x"]), "missing x");
}

#[test]
fn strings_fmt_fills_every_placeholder() {
    let s = Strings::get(STRINGS);
    assert_eq!(s.fmt("player.turn", &["2"]), "Player 2's turn");
    assert_eq!(s.fmt("score.entry", &["1", "42"]), "Player 1: 42");
    assert_eq!(s.fmt("twice", &["a"]), "a and a");
    // An argument that is not given leaves its placeholder.
    assert_eq!(s.fmt("score.entry", &["1"]), "Player 1: {1}");
}

#[test]
fn sparse_line_splits_text_and_space_runs() {
    let segs = parse_sparse_line("ab  c ");
    assert_eq!(
        segs,
        vec![SparseSegment::Text("ab".to_string()), SparseSegment::Skip(2), SparseSegment::Text("c".to_string())]
    );
    let segs = parse_sparse_line("   x");
    assert_eq!(segs, vec![SparseSegment::Skip(3), SparseSegment::Text("x".to_string())]);
    assert_eq!(parse_sparse_line(""), vec![]);
    assert_eq!(parse_sparse_line("    "), vec![]);
    assert_eq!(parse_sparse_line("┌─┐"), vec![SparseSegment::Text("┌─┐".to_string())]);
}

#[test]
fn sparse_line_renders_as_prints_and_moves() {
    let segs = parse_sparse_line("|  |");
    let mut out = Vec::new();
    render_sparse_line(&mut out, &segs);
    assert_eq!(
        out,
        vec![DrawOp::Print("|".to_string()), DrawOp::MoveRight(2), DrawOp::Print("|".to_string())]
    );
}

#[test]
fn textures_are_measured_from_their_sources() {
    let strings = Strings::get(STRINGS);
    let board = board_source();
    let t = Textures::get(&board, DISK, &strings);
    assert_eq!(t.board_width, 36);
    assert_eq!(t.board_height, 13);
    assert_eq!(t.disk_width, 4);
    assert_eq!(t.disk_height, 2);
    assert_eq!(t.disk_height_i32, 2);
    assert_eq!(t.char_x_positions, vec![1, 6, 11, 16, 21, 26, 31]);
    assert_eq!(t.parsed_board_lines.len(), 13);
    assert_eq!(t.parsed_disk_lines.len(), 2);
    assert_eq!(t.whitespace, " ".repeat(36));
    assert_eq!(t.col_cursor, "vvvv");
}

fn args(v: &[&str]) -> Vec<String> {
    v.iter().map(|a| a.to_string()).collect()
}

#[test]
fn message_tables_trim_keys_and_split_at_the_first_equals() {
    // Lines end with `\n` or `\r\n`; keys are trimmed; the value keeps later `=` signs;
    // a comment is recognised after leading whitespace.
    let s = Strings::get("  a.b  = x=y\r\n\t# c = d\nk =v");
    assert_eq!(s.raw("a.b"), "x=y");
    assert_eq!(s.raw("# c"), "# c");
    assert_eq!(s.raw("k"), "v");
}

#[test]
fn placeholders_are_replaced_everywhere() {
    let s = Strings::get("t = {0}{1}{0}{10}");
    assert_eq!(s.fmt("t", &["a", "b"]), "aba{10}");
}

#[test]
fn colours_split_trim_and_parse_bytes() {
    assert_eq!(parse_color("+1, 02 ,255"), Some((1, 2, 255)));
    assert_eq!(parse_color("1,,2"), None);
    assert_eq!(parse_color("-1,2,3"), None);
}

#[test]
fn key_names_are_trimmed_and_lower_cased() {
    assert_eq!(parse_key("\tTAB\n"), Ok(KeyCode::Tab));
    assert_eq!(parse_key("ÉSC"), Err("Unknown key name: ÉSC".to_string()));
    assert_eq!(parse_key("Q"), Ok(KeyCode::Char('Q')));
}

#[test]
fn numbers_on_the_command_line() {
    let p = Config::from_args(&args(&["--fps", "18446744073709551615", "--instances", "+7"]));
    assert_eq!(p.config.fps, u64::MAX);
    assert_eq!(p.config.starting_instances, 7);
    let p = Config::from_args(&args(&["--fps", "18446744073709551616"]));
    assert_eq!(p.config.fps, 60);
    assert_eq!(p.notes.len(), 1);
}

#[test]
fn texture_texts_are_repeated_to_the_right_width() {
    let strings = Strings::get("ui.col_cursor.char = ab");
    let t = Textures::get("1 2\n", "xyz\n", &strings);
    assert_eq!(t.whitespace, "   ");
    assert_eq!(t.col_cursor, "ababab");
    assert_eq!(t.board_height, 0);
    assert_eq!(t.char_x_positions, vec![0, 2]);
}

#[test]
fn text_helpers() {
    assert_eq!(skip_bytes("héllo", 3), "llo");
    assert_eq!(char_utf8_width('a'), 1);
    assert_eq!(char_utf8_width('é'), 2);
    assert_eq!(char_utf8_width('─'), 3);
    assert_eq!(char_utf8_width('😀'), 4);
}

#[test]
fn byte_lengths_and_boundaries() {
    assert!(utf8_len_at_most("héllo", 6));
    assert!(!utf8_len_at_most("héllo", 5));
    assert!(utf8_len_at_most("", 0));
    assert!(ends_on_char("héllo", 0));
    assert!(!ends_on_char("héllo", 2));
    assert!(ends_on_char("héllo", 3));
    assert!(ends_on_char("héllo", 6));
    assert!(!ends_on_char("héllo", 7));
}

#[test]
fn decimal_digits_and_prefixes() {
    assert_eq!(u64_to_string(0), "0");
    assert_eq!(u64_to_string(1203), "1203");
    assert_eq!(u64_to_string(u64::MAX), "18446744073709551615");
    assert_eq!(usize_to_string(10), "10");
    assert_eq!(u32_to_string(4294967295), "4294967295");
    assert!(starts_with("éa", 'é'));
    assert!(!starts_with("", 'a'));
    assert_eq!(strip_prefix("éa", 'é'), Some("a"));
    assert_eq!(strip_prefix("ab", 'b'), None);
}

#[test]
fn arguments_are_inserted_as_they_are() {
    let s = Strings::get("");
    assert_eq!(s.fmt("zz {0}", &["{1}", "b"]), "zz {1}");
    assert_eq!(s.fmt("{1}{0}", &["{1}", "{0}"]), "{0}{1}");
    assert_eq!(s.fmt("{0", &["x"]), "{0");
}

#[test]
fn a_sign_whose_lower_case_is_a_letter_reads_as_that_letter() {
    // The Kelvin sign lower-cases to `k`.
    assert_eq!(parse_key("\u{212a}"), Ok(KeyCode::Char('k')));
    assert_eq!(parse_key("K"), Ok(KeyCode::Char('K')));
}

#[test]
fn text_operations() {
    assert_eq!(trim("  a b \t"), "a b");
    assert_eq!(trim("\u{3000}x\u{85}"), "x");
    assert_eq!(trim("   "), "");
    assert!(is_whitespace_char('\u{2028}'));
    assert!(!is_whitespace_char('x'));
    assert_eq!(lines("a\r\nb\n\nc"), vec!["a", "b", "", "c"]);
    assert_eq!(lines("a\n"), vec!["a"]);
    assert_eq!(lines(""), Vec::<&str>::new());
    assert_eq!(lines("x\r"), vec!["x\r"]);
    assert_eq!(split("1,,2", ','), vec!["1", "", "2"]);
    assert_eq!(split("", ','), vec![""]);
    assert_eq!(split_once("k=v=w", '='), Some(("k", "v=w")));
    assert_eq!(split_once("kv", '='), None);
    assert_eq!(repeat("ab", 3), "ababab");
    assert_eq!(repeat("ab", 0), "");
}

#[test]
fn unsigned_numbers() {
    assert_eq!(parse_u8("+7"), Some(7));
    assert_eq!(parse_u8("255"), Some(255));
    assert_eq!(parse_u8("256"), None);
    assert_eq!(parse_u8("2560x"), None);
    assert_eq!(parse_u8(" 1"), None);
    assert_eq!(parse_u8("+"), None);
    assert_eq!(parse_u64("18446744073709551615"), Some(u64::MAX));
    assert_eq!(parse_u64("18446744073709551616"), None);
    assert_eq!(parse_u64("-1"), None);
    assert_eq!(parse_usize("012"), Some(12));
    assert_eq!(parse_usize(""), None);
    assert_eq!(parse_unsigned_upto("10", 9), None);
    assert_eq!(parse_unsigned_upto("9", 9), Some(9));
}
