use vstd::prelude::*;

use crate::border::{
    closing_fragments, joined, lemma_add_after_length, opening_fragments, lemma_rendered_len, total_length, Border, Orientation,
};
use crate::text::{blank_line, chars_of, display_width, spaces, string_from_chars, string_views};
use crate::width::Width;

verus! {

/// The four borders of a rectangle of `height` rows and `width` columns,
/// corners included.
#[derive(Debug)]
pub struct CellBorder {
    pub left: Border,
    pub right: Border,
    pub top: Border,
    pub bottom: Border,
    pub height: usize,
    pub width: usize,
}

/// The lines of a framed text: the top border, each text line between the
/// characters of the left and right borders below their first one, and the
/// bottom border. Text lines beyond the side borders are left out.
pub open spec fn framed(
    top: Seq<char>,
    left: Seq<char>,
    right: Seq<char>,
    bottom: Seq<char>,
    text: Seq<Seq<char>>,
) -> Seq<Seq<char>> {
    let n = if text.len() + 1 <= left.len() {
        text.len() as int
    } else {
        left.len() - 1
    };
    seq![top] + Seq::new(n as nat, |i: int| seq![left[i + 1]] + text[i] + seq![right[i + 1]])
        + seq![bottom]
}

/// The views of a sequence of character vectors.
pub open spec fn line_views(lines: Seq<Vec<char>>) -> Seq<Seq<char>> {
    lines.map_values(|l: Vec<char>| l@)
}

/// Views of a sequence of lines grow with each pushed line.
pub proof fn lemma_line_views_push(s: Seq<Vec<char>>, x: Vec<char>)
    ensures
        line_views(s.push(x)) == line_views(s).push(x@),
{
    assert(line_views(s.push(x)) =~= line_views(s).push(x@));
}

proof fn lemma_views_push(s: Seq<String>, x: String)
    ensures
        string_views(s.push(x)) == string_views(s).push(x@),
{
    assert(string_views(s.push(x)) =~= string_views(s).push(x@));
}

/// The lines fill an interior of `height` rows by `width` columns: there are
/// `height` of them and each is `width` columns wide on the terminal.
pub open spec fn fills_interior(lines: Seq<Seq<char>>, height: int, width: int) -> bool {
    &&& lines.len() == height
    &&& forall|i: int| 0 <= i < lines.len() ==> display_width(#[trigger] lines[i]) == width
}

impl CellBorder {
    /// The four borders are well formed and their lengths agree with the size.
    pub open spec fn wf(self) -> bool {
        &&& self.left.wf()
        &&& self.right.wf()
        &&& self.top.wf()
        &&& self.bottom.wf()
        &&& self.left.length == self.height
        &&& self.right.length == self.height
        &&& self.top.length == self.width
        &&& self.bottom.length == self.width
    }

    /// The lines of `text` framed by this border.
    pub open spec fn framed_view(self, text: Seq<Seq<char>>) -> Seq<Seq<char>> {
        framed(
            self.top.rendered(Orientation::Horizontal),
            self.left.rendered(Orientation::Vertical),
            self.right.rendered(Orientation::Vertical),
            self.bottom.rendered(Orientation::Horizontal),
            text,
        )
    }

    /// A rectangle border from its four sides, whose opposite sides must have
    /// equal lengths.
    pub fn new(left: Border, right: Border, top: Border, bottom: Border) -> (r: CellBorder)
        requires
            left.wf(),
            right.wf(),
            top.wf(),
            bottom.wf(),
            left.length == right.length,
            top.length == bottom.length,
        ensures
            r.wf(),
            r.left == left,
            r.right == right,
            r.top == top,
            r.bottom == bottom,
            r.height == left.length,
            r.width == top.length,
    {
        let height = left.length;
        let width = top.length;
        CellBorder { left, right, top, bottom, height, width }
    }

    /// The frame of one cell of the given size, all in one weight.
    pub fn atomic(height_pt: usize, width_pt: usize, width: Width) -> (r: CellBorder)
        requires
            height_pt >= 2,
            width_pt >= 2,
        ensures
            r.wf(),
            r.height == height_pt,
            r.width == width_pt,
            r.left.fragments@ == opening_fragments(height_pt, width),
            r.right.fragments@ == closing_fragments(height_pt, width),
            r.top.fragments@ == opening_fragments(width_pt, width),
            r.bottom.fragments@ == closing_fragments(width_pt, width),
    {
        CellBorder::new(
            Border::default_left(height_pt, width),
            Border::default_right(height_pt, width),
            Border::default_top(width_pt, width),
            Border::default_bottom(width_pt, width),
        )
    }

    /// Whether the border has the given size.
    pub fn check_size(&self, height: usize, width: usize) -> (r: bool)
        ensures
            r == (self.height == height && self.width == width),
    {
        self.height == height && self.width == width
    }

    /// This rectangle with `other` to its right, sharing the column between
    /// them; also returns that shared column, both borders laid over each other.
    pub fn add_horizontal(&self, other: &CellBorder) -> (r: (CellBorder, Border))
        requires
            self.wf(),
            other.wf(),
            self.height == other.height,
            self.width + other.width - 1 <= usize::MAX,
        ensures
            r.0.wf(),
            r.1.wf(),
            r.0.height == self.height,
            r.0.width == self.width + other.width - 1,
            r.0.left.fragments@ == self.left.fragments@,
            r.0.right.fragments@ == other.right.fragments@,
            r.0.top.fragments@ == joined(self.top.fragments@, other.top.fragments@),
            r.0.bottom.fragments@ == joined(self.bottom.fragments@, other.bottom.fragments@),
            r.1.length == self.height,
            r.1.fragments@ == self.right.combined(other.left),
    {
        (
            CellBorder::new(
                self.left.copy(),
                other.right.copy(),
                self.top.add_after(&other.top),
                self.bottom.add_after(&other.bottom),
            ),
            self.right.combine(&other.left),
        )
    }

    /// This rectangle with `other` below it, sharing the row between them;
    /// also returns that shared row, both borders laid over each other.
    pub fn add_vertical(&self, other: &CellBorder) -> (r: (CellBorder, Border))
        requires
            self.wf(),
            other.wf(),
            self.width == other.width,
            self.height + other.height - 1 <= usize::MAX,
        ensures
            r.0.wf(),
            r.1.wf(),
            r.0.height == self.height + other.height - 1,
            r.0.width == self.width,
            r.0.left.fragments@ == joined(self.left.fragments@, other.left.fragments@),
            r.0.right.fragments@ == joined(self.right.fragments@, other.right.fragments@),
            r.0.top.fragments@ == self.top.fragments@,
            r.0.bottom.fragments@ == other.bottom.fragments@,
            r.1.length == self.width,
            r.1.fragments@ == self.bottom.combined(other.top),
    {
        (
            CellBorder::new(
                self.left.add_after(&other.left),
                self.right.add_after(&other.right),
                self.top.copy(),
                other.bottom.copy(),
            ),
            self.bottom.combine(&other.top),
        )
    }

    /// Both borders of one rectangle laid over each other, side by side.
    pub fn combine(&self, other: &CellBorder) -> (r: CellBorder)
        requires
            self.wf(),
            other.wf(),
            self.height == other.height,
            self.width == other.width,
        ensures
            r.wf(),
            r.height == self.height,
            r.width == self.width,
            r.left.fragments@ == self.left.combined(other.left),
            r.right.fragments@ == self.right.combined(other.right),
            r.top.fragments@ == self.top.combined(other.top),
            r.bottom.fragments@ == self.bottom.combined(other.bottom),
    {
        CellBorder::new(
            self.left.combine(&other.left),
            self.right.combine(&other.right),
            self.top.combine(&other.top),
            self.bottom.combine(&other.bottom),
        )
    }

    pub(crate) fn frame_chars(&self, text: &Vec<Vec<char>>) -> (r: Vec<Vec<char>>)
        requires
            self.wf(),
        ensures
            line_views(r@) == self.framed_view(line_views(text@)),
    {
        let ghost tv = line_views(text@);
        let top = self.top.render_chars(Orientation::Horizontal);
        let left = self.left.render_chars(Orientation::Vertical);
        let right = self.right.render_chars(Orientation::Vertical);
        let bottom = self.bottom.render_chars(Orientation::Horizontal);
        proof {
            lemma_rendered_len(self.left.fragments@, Orientation::Vertical);
            lemma_rendered_len(self.right.fragments@, Orientation::Vertical);
        }
        let n = if text.len() < left.len() {
            text.len()
        } else {
            left.len() - 1
        };
        let ghost full = self.framed_view(tv);
        let mut lines: Vec<Vec<char>> = Vec::new();
        lines.push(top);
        let mut i: usize = 0;
        while i < n
            invariant
                n as int == (if tv.len() + 1 <= left@.len() { tv.len() as int } else { left@.len() - 1 }),
                tv == line_views(text@),
                left@ == self.left.rendered(Orientation::Vertical),
                right@ == self.right.rendered(Orientation::Vertical),
                left@.len() == right@.len(),
                left@.len() >= 1,
                full == self.framed_view(tv),
                i <= n,
                line_views(lines@) == full.take(i + 1),
            decreases n - i,
        {
            let mut line: Vec<char> = Vec::new();
            line.push(left[i + 1]);
            let t = &text[i];
            let mut j: usize = 0;
            while j < t.len()
                invariant
                    j <= t@.len(),
                    i + 1 < left@.len(),
                    line@ == seq![left@[i + 1]] + t@.take(j as int),
                decreases t@.len() - j,
            {
                line.push(t[j]);
                assert(t@.take(j + 1) =~= t@.take(j as int).push(t@[j as int]));
                j += 1;
            }
            line.push(right[i + 1]);
            assert(t@.take(t@.len() as int) =~= t@);
            assert(line@ =~= full[i + 1]);
            let ghost before = lines@;
            let ghost lv = line@;
            lines.push(line);
            proof {
                lemma_line_views_push(before, line);
                assert(full.take(i + 2) =~= full.take(i + 1).push(lv));
            }
            i += 1;
        }
        let ghost before = lines@;
        let ghost bv = bottom@;
        lines.push(bottom);
        proof {
            lemma_line_views_push(before, bottom);
            assert(full =~= full.take(n + 1).push(bv));
        }
        lines
    }

    /// The lines of `text` framed by this border. The text must fill the
    /// interior exactly: one line per row inside the frame, each as wide as
    /// the frame's interior.
    pub fn render_view(&self, text: &Vec<String>) -> (r: Vec<String>)
        requires
            self.wf(),
            fills_interior(string_views(text@), self.height - 2, self.width - 2),
        ensures
            string_views(r@) == self.framed_view(string_views(text@)),
    {
        let mut rows: Vec<Vec<char>> = Vec::new();
        let mut i: usize = 0;
        while i < text.len()
            invariant
                i <= text@.len(),
                line_views(rows@) == string_views(text@).take(i as int),
            decreases text@.len() - i,
        {
            let row = chars_of(text[i].as_str());
            let ghost before = rows@;
            rows.push(row);
            proof {
                lemma_line_views_push(before, row);
                assert(string_views(text@).take(i + 1) =~= string_views(text@).take(i as int).push(row@));
            }
            i += 1;
        }
        assert(string_views(text@).take(text@.len() as int) =~= string_views(text@));
        let lines = self.frame_chars(&rows);
        to_strings(&lines)
    }

    /// The frame around a blank interior.
    pub fn render_view_empty(&self) -> (r: Vec<String>)
        requires
            self.wf(),
            self.height >= 2,
            self.width >= 2,
        ensures
            string_views(r@) == self.framed_view(
                Seq::new((self.height - 2) as nat, |i: int| spaces((self.width - 2) as nat)),
            ),
    {
        let mut rows: Vec<Vec<char>> = Vec::new();
        let ghost blank = Seq::new((self.height - 2) as nat, |i: int| spaces((self.width - 2) as nat));
        let mut i: usize = 0;
        while i < self.height - 2
            invariant
                self.height >= 2,
                self.width >= 2,
                i <= self.height - 2,
                blank == Seq::new((self.height - 2) as nat, |i: int| spaces((self.width - 2) as nat)),
                line_views(rows@) == blank.take(i as int),
            decreases self.height - 2 - i,
        {
            let row = blank_line(self.width - 2);
            let ghost before = rows@;
            rows.push(row);
            proof {
                lemma_line_views_push(before, row);
                assert(blank.take(i + 1) =~= blank.take(i as int).push(row@));
            }
            i += 1;
        }
        assert(blank.take((self.height - 2) as int) =~= blank);
        let lines = self.frame_chars(&rows);
        to_strings(&lines)
    }
}

pub(crate) fn to_strings(lines: &Vec<Vec<char>>) -> (r: Vec<String>)
    ensures
        string_views(r@) == line_views(lines@),
{
    let mut r: Vec<String> = Vec::new();
    let mut i: usize = 0;
    while i < lines.len()
        invariant
            i <= lines@.len(),
            string_views(r@) == line_views(lines@).take(i as int),
        decreases lines@.len() - i,
    {
        let line = string_from_chars(&lines[i]);
        let ghost before = r@;
        r.push(line);
        proof {
            lemma_views_push(before, line);
            assert(line_views(lines@).take(i + 1) =~= line_views(lines@).take(i as int).push(line@));
        }
        i += 1;
    }
    assert(line_views(lines@).take(lines@.len() as int) =~= line_views(lines@));
    r
}

} // verus!
