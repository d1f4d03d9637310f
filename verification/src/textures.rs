//! Board and disk textures, measured and pre-parsed once.
use vstd::prelude::*;
use vstd::string::StringSliceAdditionalSpecFns;

use crate::sparse::{
    parse_sparse_line, scan, segments_view, space_runs_fit, sparse_segments, SegmentModel,
    SparseSegment,
};
use crate::strings::Strings;
use crate::text::{is_digit, lines, lines_spec, repeat, repeat_spec};

verus! {

/// All texture data, computed from the texture sources and the strings.
pub struct Textures {
    pub board_width: u16,
    pub board_height: u16,
    pub disk_width: u16,
    pub disk_height: u16,
    /// `disk_height` as an `i32`, used in coordinate arithmetic.
    pub disk_height_i32: i32,
    /// `char_x_positions[col]` is the terminal column, relative to the board, where board
    /// column `col` starts.
    pub char_x_positions: Vec<i32>,
    pub parsed_board_lines: Vec<Vec<SparseSegment>>,
    pub parsed_disk_lines: Vec<Vec<SparseSegment>>,
    /// `board_width` spaces, used to blank the area above a board.
    pub whitespace: String,
    /// `disk_width` copies of the cursor text, used as the column indicator.
    pub col_cursor: String,
}

/// The length of the longest line (0 when there is none).
pub open spec fn max_line_len(lines: Seq<Seq<char>>) -> nat
    decreases lines.len(),
{
    if lines.len() == 0 {
        0
    } else {
        let rest = max_line_len(lines.drop_last());
        if lines.last().len() > rest {
            lines.last().len()
        } else {
            rest
        }
    }
}

/// The positions of the ASCII digits in a line, in order.
pub open spec fn digit_positions(line: Seq<char>) -> Seq<int>
    decreases line.len(),
{
    if line.len() == 0 {
        seq![]
    } else {
        let rest = digit_positions(line.drop_last());
        if is_digit(line.last()) {
            rest.push(line.len() - 1)
        } else {
            rest
        }
    }
}

/// The key of the text repeated to form the column cursor.
pub open spec fn cursor_key() -> Seq<char> {
    "ui.col_cursor.char"@
}

/// The segments of each line.
pub open spec fn parsed_lines(lines: Seq<Seq<char>>) -> Seq<Seq<SegmentModel>> {
    lines.map_values(|l: Seq<char>| sparse_segments(l))
}

proof fn lemma_scan_skip_bounded(line: Seq<char>)
    ensures
        scan(line).skip <= line.len(),
    decreases line.len(),
{
    if line.len() > 0 {
        lemma_scan_skip_bounded(line.drop_last());
    }
}

proof fn lemma_short_line_fits(line: Seq<char>)
    requires
        line.len() <= u16::MAX,
    ensures
        space_runs_fit(line),
{
    assert forall|i: int| 0 <= i <= line.len() implies #[trigger] scan(line.take(i)).skip <= u16::MAX by {
        lemma_scan_skip_bounded(line.take(i));
    }
}

proof fn lemma_max_line_len(lines: Seq<Seq<char>>, i: int)
    requires
        0 <= i < lines.len(),
    ensures
        lines[i].len() <= max_line_len(lines),
    decreases lines.len(),
{
    if i < lines.len() - 1 {
        lemma_max_line_len(lines.drop_last(), i);
    }
}

proof fn lemma_max_line_len_bounded(lines: Seq<Seq<char>>, m: nat)
    requires
        forall|i: int| 0 <= i < lines.len() ==> #[trigger] lines[i].len() <= m,
    ensures
        max_line_len(lines) <= m,
    decreases lines.len(),
{
    if lines.len() > 0 {
        lemma_max_line_len_bounded(lines.drop_last(), m);
    }
}

/// Length of the longest of the given lines, and the segments of each.
fn measure_and_parse(ls: &Vec<&str>, from: usize) -> (r: (usize, Vec<Vec<SparseSegment>>))
    requires
        from <= ls@.len(),
        max_line_len(ls@.map_values(|l: &str| l@).skip(from as int)) <= u16::MAX,
    ensures
        r.0 == max_line_len(ls@.map_values(|l: &str| l@).skip(from as int)),
        r.1@.map_values(|v: Vec<SparseSegment>| segments_view(v@)) == parsed_lines(
            ls@.map_values(|l: &str| l@).skip(from as int),
        ),
{
    let ghost all = ls@.map_values(|l: &str| l@).skip(from as int);
    let mut widest: usize = 0;
    let mut parsed: Vec<Vec<SparseSegment>> = Vec::new();
    let mut i = from;
    while i < ls.len()
        invariant
            from <= i <= ls@.len(),
            all == ls@.map_values(|l: &str| l@).skip(from as int),
            max_line_len(all) <= u16::MAX,
            widest == max_line_len(all.take(i - from)),
            parsed@.map_values(|v: Vec<SparseSegment>| segments_view(v@)) == parsed_lines(all.take(i - from)),
        decreases ls@.len() - i,
    {
        let line = ls[i];
        let ghost pre = all.take(i + 1 - from);
        proof {
            assert(pre.drop_last() =~= all.take(i - from));
            assert(pre.last() == line@);
            assert(all[i - from] == line@);
            lemma_max_line_len(all, i - from);
            lemma_short_line_fits(line@);
        }
        let len = line.unicode_len();
        if len > widest {
            widest = len;
        }
        let ghost before = parsed@.map_values(|v: Vec<SparseSegment>| segments_view(v@));
        parsed.push(parse_sparse_line(line));
        proof {
            assert(parsed@.map_values(|v: Vec<SparseSegment>| segments_view(v@)) =~= before.push(
                sparse_segments(line@),
            ));
            assert(parsed_lines(pre) =~= parsed_lines(all.take(i - from)).push(sparse_segments(line@)));
        }
        i += 1;
    }
    proof {
        assert(all.take(i - from) =~= all);
    }
    (widest, parsed)
}

proof fn lemma_digit_positions_bounded(line: Seq<char>)
    ensures
        forall|i: int| 0 <= i < digit_positions(line).len() ==> 0 <= #[trigger] digit_positions(line)[i] < line.len(),
    decreases line.len(),
{
    if line.len() > 0 {
        let rest = line.drop_last();
        lemma_digit_positions_bounded(rest);
        let d = digit_positions(line);
        assert forall|i: int| 0 <= i < d.len() implies 0 <= #[trigger] d[i] < line.len() by {
            if i < digit_positions(rest).len() {
                assert(d[i] == digit_positions(rest)[i]);
            }
        }
    }
}

impl Textures {
    /// Column positions are terminal columns and the two disk heights agree.
    pub open spec fn wf(&self) -> bool {
        &&& self.disk_height_i32 == self.disk_height as i32
        &&& forall|i: int| 0 <= i < self.char_x_positions@.len() ==> 0 <= #[trigger] self.char_x_positions@[i] <= u16::MAX
    }

    /// Measures and pre-parses the board texture (whose first line is a header marking
    /// each board column with a digit) and the disk texture.
    pub fn get(board_source: &str, disk_source: &str, strings: &Strings) -> (t: Self)
        requires
            lines_spec(board_source@).len() >= 1,
            lines_spec(disk_source@).len() >= 1,
            max_line_len(lines_spec(board_source@)) <= u16::MAX,
            lines_spec(board_source@).len() - 1 <= u16::MAX,
            max_line_len(lines_spec(disk_source@)) <= u16::MAX,
            lines_spec(disk_source@).len() <= u16::MAX,
            strings.raw_spec(cursor_key()).len() * 4 * max_line_len(lines_spec(disk_source@))
                <= usize::MAX,
        ensures
            t.wf(),
            t.board_width == max_line_len(lines_spec(board_source@)),
            t.board_height == lines_spec(board_source@).len() - 1,
            t.disk_width == max_line_len(lines_spec(disk_source@)),
            t.disk_height == lines_spec(disk_source@).len(),
            t.disk_height_i32 == t.disk_height,
            t.char_x_positions@ == digit_positions(lines_spec(board_source@)[0]).map_values(
                |p: int| p as i32,
            ),
            t.parsed_board_lines@.map_values(|v: Vec<SparseSegment>| segments_view(v@))
                == parsed_lines(lines_spec(board_source@).skip(1)),
            t.parsed_disk_lines@.map_values(|v: Vec<SparseSegment>| segments_view(v@))
                == parsed_lines(lines_spec(disk_source@)),
            t.whitespace@ == repeat_spec(seq![' '], t.board_width as nat),
            t.col_cursor@ == repeat_spec(strings.raw_spec(cursor_key()), t.disk_width as nat),
    {
        let board_lines = lines(board_source);
        let disk_lines = lines(disk_source);
        let ghost bl = board_lines@.map_values(|l: &str| l@);
        let ghost dl = disk_lines@.map_values(|l: &str| l@);

        // Column positions come from the digits of the header line.
        let header = board_lines[0];
        let header_len = header.unicode_len();
        let mut char_x_positions: Vec<i32> = Vec::new();
        let mut i: usize = 0;
        proof {
            lemma_max_line_len(bl, 0);
        }
        while i < header_len
            invariant
                header_len == header@.len(),
                header_len <= u16::MAX,
                i <= header_len,
                char_x_positions@ == digit_positions(header@.take(i as int)).map_values(|p: int| p as i32),
            decreases header_len - i,
        {
            let c = header.get_char(i);
            proof {
                assert(header@.take(i + 1).drop_last() =~= header@.take(i as int));
            }
            if '0' <= c && c <= '9' {
                char_x_positions.push(i as i32);
            }
            proof {
                assert(char_x_positions@ =~= digit_positions(header@.take(i + 1)).map_values(|p: int| p as i32));
            }
            i += 1;
        }
        proof {
            assert(header@.take(header_len as int) =~= header@);
            lemma_digit_positions_bounded(header@);
            assert(bl.skip(0) =~= bl);
            assert(bl[0] == header@);
        }

        let (board_width, _all_board) = measure_and_parse(&board_lines, 0);
        proof {
            assert forall|k: int| 0 <= k < bl.skip(1).len() implies #[trigger] bl.skip(1)[k].len()
                <= max_line_len(bl) by {
                lemma_max_line_len(bl, k + 1);
            }
            lemma_max_line_len_bounded(bl.skip(1), max_line_len(bl));
            assert(dl.skip(0) =~= dl);
        }
        let (_bw, parsed_board_lines) = measure_and_parse(&board_lines, 1);
        let (disk_width, parsed_disk_lines) = measure_and_parse(&disk_lines, 0);
        proof {
            assert(dl.skip(0) =~= dl);
            assert(bl.skip(1).len() == bl.len() - 1);
        }
        let board_width = board_width as u16;
        let board_height = (board_lines.len() - 1) as u16;
        let disk_width = disk_width as u16;
        let disk_height = disk_lines.len() as u16;

        proof {
            reveal_strlit(" ");
            assert(" "@ =~= seq![' ']);
            assert(" ".spec_bytes().len() <= 4) by {
                crate::text::lemma_utf8_len_at_most_4x(" "@);
            }
            let n = " ".spec_bytes().len();
            assert(n * board_width <= usize::MAX) by (nonlinear_arith)
                requires
                    n <= 4,
                    board_width <= u16::MAX,
            ;
        }
        let whitespace = repeat(" ", board_width as usize);
        let cursor_text = strings.raw("ui.col_cursor.char");
        proof {
            reveal_strlit(" ");
            reveal_strlit("ui.col_cursor.char");
            assert(cursor_text.spec_bytes().len() <= 4 * cursor_text@.len()) by {
                crate::text::lemma_utf8_len_at_most_4x(cursor_text@);
            }
            assert(cursor_text.spec_bytes().len() * disk_width <= cursor_text@.len() * 4 * disk_width)
                by (nonlinear_arith)
                requires
                    cursor_text.spec_bytes().len() <= 4 * cursor_text@.len(),
            ;
        }
        let col_cursor = repeat(cursor_text, disk_width as usize);
        Textures {
            board_width,
            board_height,
            disk_width,
            disk_height,
            disk_height_i32: disk_height as i32,
            char_x_positions,
            parsed_board_lines,
            parsed_disk_lines,
            whitespace,
            col_cursor,
        }
    }
}

} // verus!
