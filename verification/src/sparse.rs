//! Texture lines pre-parsed into runs of text and runs of spaces to skip over.
use vstd::prelude::*;
use vstd::string::StringExecFns;

use crate::draw::{ops_view, DrawModel, DrawOp};
use crate::text::push_char;
use crate::translate::{screen_coord, Translate};

verus! {

/// A pre-parsed piece of a sparse texture line.
#[derive(Debug, PartialEq, Eq)]
pub enum SparseSegment {
    Text(String),
    Skip(u16),
}

/// The mathematical content of a `SparseSegment`.
pub enum SegmentModel {
    Text(Seq<char>),
    Skip(u16),
}

impl View for SparseSegment {
    type V = SegmentModel;

    open spec fn view(&self) -> SegmentModel {
        match self {
            SparseSegment::Text(s) => SegmentModel::Text(s@),
            SparseSegment::Skip(n) => SegmentModel::Skip(*n),
        }
    }
}

pub open spec fn segments_view(segs: Seq<SparseSegment>) -> Seq<SegmentModel> {
    segs.map_values(|s: SparseSegment| s@)
}

/// Where a left-to-right scan of a line stands: the finished segments, the text run
/// being read and the length of the space run being read.
pub struct SparseScan {
    pub segments: Seq<SegmentModel>,
    pub text: Seq<char>,
    pub skip: nat,
}

/// The state of reading `line` from left to right, used to build its segments: a space
/// ends a text run, a non-space ends a space run. `lemma_scan` states what it holds.
pub open spec fn scan(line: Seq<char>) -> SparseScan
    decreases line.len(),
{
    if line.len() == 0 {
        SparseScan { segments: seq![], text: seq![], skip: 0 }
    } else {
        let st = scan(line.drop_last());
        if line.last() == ' ' {
            SparseScan {
                segments: if st.text.len() > 0 {
                    st.segments.push(SegmentModel::Text(st.text))
                } else {
                    st.segments
                },
                text: seq![],
                skip: st.skip + 1,
            }
        } else {
            SparseScan {
                segments: if st.skip > 0 {
                    st.segments.push(SegmentModel::Skip(st.skip as u16))
                } else {
                    st.segments
                },
                text: st.text.push(line.last()),
                skip: 0,
            }
        }
    }
}

/// The segments of a line: its text runs and the space runs between them, in order;
/// trailing spaces are dropped.
pub open spec fn sparse_segments(line: Seq<char>) -> Seq<SegmentModel> {
    let st = scan(line);
    if st.text.len() > 0 {
        st.segments.push(SegmentModel::Text(st.text))
    } else {
        st.segments
    }
}

/// `n` spaces.
pub open spec fn spaces(n: nat) -> Seq<char> {
    Seq::new(n, |i: int| ' ')
}

/// The characters a segment stands for.
pub open spec fn seg_chars(s: SegmentModel) -> Seq<char> {
    match s {
        SegmentModel::Text(t) => t,
        SegmentModel::Skip(n) => spaces(n as nat),
    }
}

/// The characters the segments stand for, one after the other.
pub open spec fn expand(segs: Seq<SegmentModel>) -> Seq<char>
    decreases segs.len(),
{
    if segs.len() == 0 {
        seq![]
    } else {
        expand(segs.drop_last()) + seg_chars(segs.last())
    }
}

/// Maximal runs: every text run is non-empty and holds no space, every skip is at least
/// one, and text runs and skips alternate.
pub open spec fn runs_ok(segs: Seq<SegmentModel>) -> bool {
    &&& forall|i: int|
        0 <= i < segs.len() ==> match #[trigger] segs[i] {
            SegmentModel::Text(t) => t.len() > 0 && forall|j: int| 0 <= j < t.len() ==> t[j] != ' ',
            SegmentModel::Skip(n) => n >= 1,
        }
    &&& forall|i: int| 0 <= i < segs.len() - 1 ==> (#[trigger] segs[i] is Text) != (segs[i + 1] is Text)
}

/// `line` without its trailing spaces.
pub open spec fn trim_trailing_spaces(line: Seq<char>) -> Seq<char>
    decreases line.len(),
{
    if line.len() > 0 && line.last() == ' ' {
        trim_trailing_spaces(line.drop_last())
    } else {
        line
    }
}

proof fn lemma_trim_spaces(x: Seq<char>, k: nat)
    requires
        x.len() == 0 || x.last() != ' ',
    ensures
        trim_trailing_spaces(x + spaces(k)) == x,
    decreases k,
{
    if k == 0 {
        assert(x + spaces(0) =~= x);
    } else {
        assert((x + spaces(k)).drop_last() =~= x + spaces((k - 1) as nat));
        lemma_trim_spaces(x, (k - 1) as nat);
    }
}

/// What a scan has read so far: the finished segments, then the open text run, then the
/// open space run, make up the line; the finished segments are maximal runs, and an open
/// run continues the other kind of run than the last finished one.
proof fn lemma_scan(line: Seq<char>)
    requires
        space_runs_fit(line),
    ensures
        ({
            let st = scan(line);
            &&& expand(st.segments) + st.text + spaces(st.skip) == line
            &&& runs_ok(st.segments)
            &&& forall|j: int| 0 <= j < st.text.len() ==> st.text[j] != ' '
            &&& st.text.len() > 0 ==> st.skip == 0 && (st.segments.len() == 0 || st.segments.last() is Skip)
            &&& st.skip > 0 ==> st.text.len() == 0 && (st.segments.len() == 0 || st.segments.last() is Text)
            &&& line.len() > 0 ==> st.text.len() > 0 || st.skip > 0
        }),
    decreases line.len(),
{
    if line.len() > 0 {
        let pre = line.drop_last();
        assert forall|i: int| 0 <= i <= pre.len() implies #[trigger] scan(pre.take(i)).skip <= u16::MAX by {
            assert(pre.take(i) =~= line.take(i));
        }
        lemma_scan(pre);
        assert(line.take(line.len() as int) =~= line);
        let st = scan(pre);
        let nt = scan(line);
        let c = line.last();
        assert(line =~= pre.push(c));
        if c == ' ' {
            if st.text.len() > 0 {
                let segs = st.segments.push(SegmentModel::Text(st.text));
                assert(segs.drop_last() =~= st.segments);
                assert(expand(segs) == expand(st.segments) + st.text);
                assert(spaces(1) =~= seq![' ']);
                assert(expand(nt.segments) + nt.text + spaces(nt.skip) =~= pre.push(c));
            } else {
                assert(spaces(st.skip + 1) =~= spaces(st.skip).push(' '));
                assert(expand(nt.segments) + nt.text + spaces(nt.skip) =~= pre.push(c));
            }
        } else {
            if st.skip > 0 {
                let segs = st.segments.push(SegmentModel::Skip(st.skip as u16));
                assert(segs.drop_last() =~= st.segments);
                assert(expand(segs) == expand(st.segments) + spaces(st.skip));
                assert(expand(nt.segments) + nt.text + spaces(nt.skip) =~= pre.push(c));
            } else {
                assert(expand(nt.segments) + nt.text + spaces(nt.skip) =~= pre.push(c));
            }
        }
    }
}

/// The segments of a line are its maximal runs, standing for the line without its
/// trailing spaces, and the last of them (if any) is a text run.
pub proof fn lemma_sparse_segments(line: Seq<char>)
    requires
        space_runs_fit(line),
    ensures
        expand(sparse_segments(line)) == trim_trailing_spaces(line),
        runs_ok(sparse_segments(line)),
        sparse_segments(line).len() > 0 ==> sparse_segments(line).last() is Text,
{
    lemma_scan(line);
    let st = scan(line);
    let segs = sparse_segments(line);
    if st.text.len() > 0 {
        assert(segs.drop_last() =~= st.segments);
        assert(st.text + spaces(0) =~= st.text);
        assert(expand(st.segments) + st.text + spaces(st.skip) =~= expand(segs));
        lemma_trim_spaces(expand(segs), 0);
        assert(expand(segs) + spaces(0) =~= expand(segs));
    } else {
        assert(expand(st.segments) + st.text =~= expand(st.segments));
        if st.segments.len() > 0 {
            let l = st.segments.last();
            assert(st.segments.drop_last() + seq![l] =~= st.segments);
            assert(expand(st.segments) == expand(st.segments.drop_last()) + seg_chars(l));
            if let SegmentModel::Skip(n) = l {
                if st.segments.len() >= 2 {
                    assert(st.segments[st.segments.len() - 2] is Text);
                }
            }
        }
        lemma_trim_spaces(expand(st.segments), st.skip);
    }
}

/// No run of spaces in `line` is longer than a `u16` can count.
pub open spec fn space_runs_fit(line: Seq<char>) -> bool {
    forall|i: int| 0 <= i <= line.len() ==> #[trigger] scan(line.take(i)).skip <= u16::MAX
}

/// The command that draws a segment: print its text, or move right over its spaces.
pub open spec fn segment_op(seg: SegmentModel) -> DrawModel {
    match seg {
        SegmentModel::Text(s) => DrawModel::Print(s),
        SegmentModel::Skip(n) => DrawModel::MoveRight(n),
    }
}

/// The commands that draw texture lines whose left edge is terminal column `col`: each
/// line's segments, then back to that column one row down.
pub open spec fn texture_ops(lines: Seq<Seq<SegmentModel>>, col: u16) -> Seq<DrawModel>
    decreases lines.len(),
{
    if lines.len() == 0 {
        seq![]
    } else {
        texture_ops(lines.drop_last(), col) + lines.last().map_values(|s: SegmentModel| segment_op(s)) + seq![
            DrawModel::MoveToColumn(col),
            DrawModel::MoveDown(1),
        ]
    }
}

pub open spec fn lines_view(lines: Seq<Vec<SparseSegment>>) -> Seq<Seq<SegmentModel>> {
    lines.map_values(|v: Vec<SparseSegment>| segments_view(v@))
}

/// Appends the commands that draw pre-parsed texture lines whose left edge is board
/// column `x`, starting at the cursor.
pub fn render_texture(out: &mut Vec<DrawOp>, lines: &Vec<Vec<SparseSegment>>, translate: &Translate, x: i32)
    requires
        i32::MIN <= x + translate.x <= i32::MAX,
    ensures
        ops_view(final(out)@) == ops_view(old(out)@) + texture_ops(lines_view(lines@), screen_coord(x + translate.x)),
{
    let ghost col = screen_coord(x + translate.x);
    let ghost start = ops_view(out@);
    let mut i: usize = 0;
    while i < lines.len()
        invariant
            i <= lines@.len(),
            i32::MIN <= x + translate.x <= i32::MAX,
            col == screen_coord(x + translate.x),
            ops_view(out@) == start + texture_ops(lines_view(lines@).take(i as int), col),
        decreases lines@.len() - i,
    {
        render_sparse_line(out, lines[i].as_slice());
        let ghost mid = ops_view(out@);
        out.push(translate.move_to_column(x));
        out.push(DrawOp::MoveDown(1));
        proof {
            let lv = lines_view(lines@);
            assert(lv.take(i + 1).drop_last() =~= lv.take(i as int));
            assert(lv.take(i + 1).last() == segments_view(lines@[i as int]@));
            assert(ops_view(out@) =~= mid + seq![DrawModel::MoveToColumn(col), DrawModel::MoveDown(1)]);
            assert(ops_view(out@) =~= start + texture_ops(lv.take(i + 1), col));
        }
        i += 1;
    }
    proof {
        assert(lines_view(lines@).take(i as int) =~= lines_view(lines@));
    }
}

/// Parses a line into text runs and space skips; trailing spaces are dropped. The
/// segments are the line's maximal runs of non-spaces and of spaces, standing for the line
/// without its trailing spaces.
pub fn parse_sparse_line(line: &str) -> (segs: Vec<SparseSegment>)
    requires
        space_runs_fit(line@),
    ensures
        segments_view(segs@) == sparse_segments(line@),
        expand(segments_view(segs@)) == trim_trailing_spaces(line@),
        runs_ok(segments_view(segs@)),
        segs@.len() > 0 ==> segments_view(segs@).last() is Text,
{
    let n = line.unicode_len();
    let mut segments: Vec<SparseSegment> = Vec::new();
    let mut text_buf = String::new();
    let mut skip_len: u16 = 0;
    let mut i: usize = 0;
    while i < n
        invariant
            n == line@.len(),
            i <= n,
            space_runs_fit(line@),
            segments_view(segments@) == scan(line@.take(i as int)).segments,
            text_buf@ == scan(line@.take(i as int)).text,
            skip_len as nat == scan(line@.take(i as int)).skip,
        decreases n - i,
    {
        let ch = line.get_char(i);
        let ghost prefix = line@.take(i + 1);
        proof {
            assert(prefix.drop_last() =~= line@.take(i as int));
            assert(prefix.last() == ch);
            assert(scan(line@.take(i + 1)).skip <= u16::MAX);
        }
        if ch == ' ' {
            if text_buf.unicode_len() > 0 {
                let t = text_buf;
                text_buf = String::new();
                segments.push(SparseSegment::Text(t));
            }
            skip_len += 1;
        } else {
            if skip_len > 0 {
                segments.push(SparseSegment::Skip(skip_len));
                skip_len = 0;
            }
            push_char(&mut text_buf, ch);
        }
        proof {
            assert(segments_view(segments@) =~= scan(prefix).segments);
        }
        i += 1;
    }
    proof {
        assert(line@.take(n as int) =~= line@);
    }
    if text_buf.unicode_len() > 0 {
        segments.push(SparseSegment::Text(text_buf));
    }
    proof {
        assert(segments_view(segments@) =~= sparse_segments(line@));
        lemma_sparse_segments(line@);
    }
    segments
}

/// Appends the commands that draw a pre-parsed line at the cursor.
pub fn render_sparse_line(out: &mut Vec<DrawOp>, segments: &[SparseSegment])
    ensures
        ops_view(final(out)@) == ops_view(old(out)@) + segments_view(segments@).map_values(
            |s: SegmentModel| segment_op(s),
        ),
{
    let ghost start = ops_view(out@);
    let mut i: usize = 0;
    while i < segments.len()
        invariant
            i <= segments@.len(),
            ops_view(out@) == start + segments_view(segments@.take(i as int)).map_values(
                |s: SegmentModel| segment_op(s),
            ),
        decreases segments@.len() - i,
    {
        let ghost before = ops_view(out@);
        match &segments[i] {
            SparseSegment::Text(s) => out.push(DrawOp::Print(s.clone())),
            SparseSegment::Skip(n) => out.push(DrawOp::MoveRight(*n)),
        }
        proof {
            assert(segments@.take(i + 1) =~= segments@.take(i as int).push(segments@[i as int]));
            assert(ops_view(out@) =~= before.push(segment_op(segments@[i as int]@)));
            assert(segments_view(segments@.take(i + 1)).map_values(|s: SegmentModel| segment_op(s))
                =~= segments_view(segments@.take(i as int)).map_values(|s: SegmentModel| segment_op(s)).push(
                segment_op(segments@[i as int]@),
            ));
        }
        i += 1;
    }
    proof {
        assert(segments@.take(i as int) =~= segments@);
    }
}

} // verus!
