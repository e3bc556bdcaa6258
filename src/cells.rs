use vstd::prelude::*;
use vstd::utf8::encode_utf8;

use crate::border::{
    closing_fragments, compress, expand, joined, opening_fragments, overlay, render_fragments,
    total_length, BorderFragment, Orientation,
};
use crate::cell_border::{fills_interior, framed, lemma_line_views_push, line_views, to_strings, CellBorder};
use crate::config::{
    bounds_of, collected, lcm_fold, lemma_span_reconciled, line_configs_fit, lined, span_heights, span_widths,
    stack_configs_fit, stacked, sum_of, CellBounds, CellConfig, Horizontal, Vertical,
};
use crate::grid::{
    increase_to_size, interior, lemma_sum_split, lemma_sum_take_step, raised, spans_drawable,
    sub_mut, zeros, Grid, GridSlice, GridSliceMut,
};
use crate::text::{
    box_align, boxed, chars_of, display_width, laid_out, measure_width, replace_tabs, string_views,
    untabbed, wrap,
};
use crate::width::Width;

verus! {

/// The text lines of a drawn cell and its border, not yet put together.
#[derive(Debug)]
pub struct CellView {
    pub textbox: Vec<String>,
    pub border: CellBorder,
}

/// A cell holding a text.
#[derive(Debug)]
pub struct TextCell {
    pub text: String,
    pub config: CellConfig,
}

/// Cells side by side.
#[derive(Debug)]
pub struct Row {
    pub cols: Vec<DrawCell>,
    pub config: CellConfig,
}

/// Cells stacked on top of each other.
#[derive(Debug)]
pub struct Col {
    pub rows: Vec<DrawCell>,
    pub config: CellConfig,
}

/// A node of a cell tree.
#[derive(Debug)]
pub enum DrawCell {
    Text(TextCell),
    Row(Row),
    Col(Col),
}

/// A cell tree with the grid laid out for it.
#[derive(Debug)]
pub struct Table {
    pub cell: DrawCell,
    pub grid: Grid,
}

/// `a * b`, or the largest `usize` where the product does not fit.
pub open spec fn capped_mul(a: usize, b: usize) -> usize {
    if a * b <= usize::MAX {
        (a * b) as usize
    } else {
        usize::MAX
    }
}

fn mul_capped(a: usize, b: usize) -> (r: usize)
    ensures
        r == capped_mul(a, b),
{
    match a.checked_mul(b) {
        Some(p) => p,
        None => usize::MAX,
    }
}

/// The configuration with its spans multiplied by the given ratios.
pub open spec fn respanned(c: CellConfig, row_ratio: usize, col_ratio: usize) -> CellConfig {
    CellConfig {
        span_height: capped_mul(c.span_height, row_ratio),
        span_width: capped_mul(c.span_width, col_ratio),
        ..c
    }
}

/// The span is the least common multiple of the children's positive spans,
/// and scaling it by `ratio` stays within `usize`.
pub open spec fn reconcilable(children: Seq<usize>, span: usize, ratio: usize) -> bool {
    &&& forall|j: int| 0 <= j < children.len() ==> #[trigger] children[j] > 0
    &&& span == lcm_fold(children)
    &&& span * ratio <= usize::MAX
}

/// How many times the span `own` holds the span `child`; 1 for an empty child.
pub open spec fn span_ratio(own: usize, child: usize) -> usize {
    if child == 0 {
        1
    } else {
        own / child
    }
}

pub open spec fn configs_of(cells: Seq<DrawCell>) -> Seq<CellConfig> {
    cells.map_values(|c: DrawCell| c.config())
}

fn configs_exec(cells: &Vec<DrawCell>) -> (r: Vec<CellConfig>)
    ensures
        r@ == configs_of(cells@),
{
    let mut r: Vec<CellConfig> = Vec::new();
    let mut i: usize = 0;
    while i < cells.len()
        invariant
            i <= cells@.len(),
            r@ == configs_of(cells@).take(i as int),
        decreases cells@.len() - i,
    {
        r.push(*cells[i].get_config());
        assert(configs_of(cells@).take(i + 1) =~= configs_of(cells@).take(i as int).push(
            cells@[i as int].config(),
        ));
        i += 1;
    }
    assert(configs_of(cells@).take(cells@.len() as int) =~= configs_of(cells@));
    r
}

/// The configuration of a composite: its own settings, with bounds that also
/// contain those of its children, and its children's spans.
pub open spec fn composite_config(own: CellConfig, child: CellConfig) -> CellConfig {
    CellConfig {
        bounds: own.bounds.join(child.bounds),
        span_height: child.span_height,
        span_width: child.span_width,
        ..own
    }
}

impl CellView {
    pub fn new(textbox: Vec<String>, border: CellBorder) -> (r: CellView)
        ensures
            r.textbox == textbox,
            r.border == border,
    {
        CellView { textbox, border }
    }

    /// The text lines and the border.
    pub fn unwrap(self) -> (r: (Vec<String>, CellBorder))
        ensures
            r.0 == self.textbox,
            r.1 == self.border,
    {
        (self.textbox, self.border)
    }

    /// The text lines framed by the border, ready to print; the lines must
    /// fill the frame's interior.
    pub fn complete(self) -> (r: Vec<String>)
        requires
            self.border.wf(),
            fills_interior(string_views(self.textbox@), self.border.height - 2, self.border.width - 2),
        ensures
            string_views(r@) == self.border.framed_view(string_views(self.textbox@)),
    {
        self.border.render_view(&self.textbox)
    }
}

impl TextCell {
    /// A text cell; tabs in the text become blanks, and the cell's bounds grow
    /// to hold the text on one line with its padding.
    pub fn new(text: String, config: CellConfig) -> (r: TextCell)
        requires
            2 * config.padding + 2 <= usize::MAX,
        ensures
            r.text@ == untabbed(text@),
            (encode_utf8(r.text@).len() as usize) + 1 + 2 * config.padding <= usize::MAX ==> r.config
                == (CellConfig {
                bounds: config.bounds.join(
                    CellBounds::of_text((encode_utf8(r.text@).len() as usize) as nat, config.padding as nat),
                ),
                ..config
            }),
    {
        let text = replace_tabs(text.as_str());
        let len = text.as_str().len();
        let bounds = if len <= usize::MAX - 1 - 2 * config.padding {
            config.bounds.add(CellBounds::from_text(text.as_str(), config.padding))
        } else {
            config.bounds
        };
        TextCell { text, config: CellConfig { bounds, ..config } }
    }

    /// The cell drawn over the given grid rows and columns: the text laid out
    /// in the interior width (padding cut down to what the width leaves room
    /// for), placed in the interior height, inside a frame of the cell's weight.
    pub fn draw(&self, grid: GridSlice) -> (r: CellView)
        requires
            spans_drawable(grid.heights@),
            spans_drawable(grid.widths@),
        ensures
            r.border.wf(),
            r.border.height == interior(grid.heights@) + 2,
            r.border.width == interior(grid.widths@) + 2,
            r.textbox@.len() == interior(grid.heights@),
            view_of(r) == text_result(*self, interior(grid.heights@), interior(grid.widths@)),
    {
        let bound = grid.get_bound();
        let pt_height = bound.pt_height;
        let pt_width = bound.pt_width;
        let padding = if self.config.padding <= pt_width / 2 {
            self.config.padding
        } else {
            pt_width / 2
        };
        let wrapped = wrap(&self.text, pt_width, padding, self.config.alignment);
        let textbox = box_align(wrapped, pt_height, pt_width);
        CellView::new(textbox, CellBorder::atomic(pt_height + 2, pt_width + 2, self.config.border))
    }
}

/// Whether `f` is node `o` after the span fixup pass with the given ratios:
/// the node's spans are multiplied by the ratios, and each child, recursively,
/// by the ratio of the node's span to its own along the shared axis and by
/// the node's ratio along the other.
pub open spec fn configured(o: DrawCell, f: DrawCell, row_ratio: usize, col_ratio: usize) -> bool
    decreases o, 0nat,
{
    &&& f.config() == respanned(o.config(), row_ratio, col_ratio)
    &&& match o {
        DrawCell::Text(t) => f is Text && f->Text_0.text == t.text,
        DrawCell::Row(r) => f is Row && f->Row_0.cols@.len() == r.cols@.len() && row_configured(
            r,
            f->Row_0,
            col_ratio,
            r.cols@.len(),
        ),
        DrawCell::Col(c) => f is Col && f->Col_0.rows@.len() == c.rows@.len() && col_configured(
            c,
            f->Col_0,
            row_ratio,
            c.rows@.len(),
        ),
    }
}

/// The first `k` children of row `f` are those of row `o` after the pass.
pub open spec fn row_configured(o: Row, f: Row, col_ratio: usize, k: nat) -> bool
    decreases o, k,
    via row_configured_decreases
{
    if k == 0 {
        true
    } else {
        &&& row_configured(o, f, col_ratio, (k - 1) as nat)
        &&& k <= o.cols@.len() && k <= f.cols@.len() ==> configured(
            o.cols@[k - 1],
            f.cols@[k - 1],
            span_ratio(f.config.span_height, o.cols@[k - 1].config().span_height),
            col_ratio,
        )
    }
}

#[via_fn]
proof fn row_configured_decreases(o: Row, f: Row, col_ratio: usize, k: nat) {
    if k > 0 && k <= o.cols@.len() {
        vstd::std_specs::vec::axiom_vec_index_decreases(o.cols, k - 1);
    }
}

/// The first `k` children of column `f` are those of column `o` after the pass.
pub open spec fn col_configured(o: Col, f: Col, row_ratio: usize, k: nat) -> bool
    decreases o, k,
    via col_configured_decreases
{
    if k == 0 {
        true
    } else {
        &&& col_configured(o, f, row_ratio, (k - 1) as nat)
        &&& k <= o.rows@.len() && k <= f.rows@.len() ==> configured(
            o.rows@[k - 1],
            f.rows@[k - 1],
            row_ratio,
            span_ratio(f.config.span_width, o.rows@[k - 1].config().span_width),
        )
    }
}

#[via_fn]
proof fn col_configured_decreases(o: Col, f: Col, row_ratio: usize, k: nat) {
    if k > 0 && k <= o.rows@.len() {
        vstd::std_specs::vec::axiom_vec_index_decreases(o.rows, k - 1);
    }
}

proof fn lemma_row_configured_all(o: Row, f: Row, col_ratio: usize, k: nat)
    requires
        k <= o.cols@.len(),
        k <= f.cols@.len(),
        forall|j: int|
            0 <= j < k ==> #[trigger] configured(
                o.cols@[j],
                f.cols@[j],
                span_ratio(f.config.span_height, o.cols@[j].config().span_height),
                col_ratio,
            ),
    ensures
        row_configured(o, f, col_ratio, k),
    decreases k,
{
    if k > 0 {
        lemma_row_configured_all(o, f, col_ratio, (k - 1) as nat);
        assert(configured(
            o.cols@[k - 1],
            f.cols@[k - 1],
            span_ratio(f.config.span_height, o.cols@[k - 1].config().span_height),
            col_ratio,
        ));
    }
}

proof fn lemma_col_configured_all(o: Col, f: Col, row_ratio: usize, k: nat)
    requires
        k <= o.rows@.len(),
        k <= f.rows@.len(),
        forall|j: int|
            0 <= j < k ==> #[trigger] configured(
                o.rows@[j],
                f.rows@[j],
                row_ratio,
                span_ratio(f.config.span_width, o.rows@[j].config().span_width),
            ),
    ensures
        col_configured(o, f, row_ratio, k),
    decreases k,
{
    if k > 0 {
        lemma_col_configured_all(o, f, row_ratio, (k - 1) as nat);
        assert(configured(
            o.rows@[k - 1],
            f.rows@[k - 1],
            row_ratio,
            span_ratio(f.config.span_width, o.rows@[k - 1].config().span_width),
        ));
    }
}

/// The entries a node leaves after the grid fixup pass over the given rows
/// and columns: its children's blocks fixed up first, in order, then each of
/// its own non-empty blocks raised to its recommended size.
pub open spec fn fixed(c: DrawCell, heights: Seq<usize>, widths: Seq<usize>) -> (Seq<usize>, Seq<usize>)
    decreases c, 0nat,
{
    let mid: (Seq<usize>, Seq<usize>) = match c {
        DrawCell::Text(_) => (heights, widths),
        DrawCell::Row(r) => {
            let f = row_fix(r, heights, widths, r.cols@.len());
            (f.0, f.1)
        },
        DrawCell::Col(k) => {
            let f = col_fix(k, heights, widths, k.rows@.len());
            (f.0, f.1)
        },
    };
    let rec = c.config().bounds.rec;
    (
        if heights.len() > 0 {
            raised(mid.0, rec.pt_height)
        } else {
            mid.0
        },
        if widths.len() > 0 {
            raised(mid.1, rec.pt_width)
        } else {
            mid.1
        },
    )
}

/// The entries after a row's first `k` children are fixed up, each over all
/// rows and its own columns, the next free column, and whether the pass has
/// stopped at a child whose span does not fit in the columns left.
pub open spec fn row_fix(r: Row, heights: Seq<usize>, widths: Seq<usize>, k: nat) -> (
    Seq<usize>,
    Seq<usize>,
    nat,
    bool,
)
    decreases r, k,
    via row_fix_decreases
{
    if k == 0 {
        (heights, widths, 0, false)
    } else {
        let p = row_fix(r, heights, widths, (k - 1) as nat);
        if p.3 || k > r.cols@.len() || p.2 + r.cols@[k - 1].config().span_width > p.1.len() {
            (p.0, p.1, p.2, true)
        } else {
            let end = (p.2 + r.cols@[k - 1].config().span_width) as nat;
            let f = fixed(r.cols@[k - 1], p.0, p.1.subrange(p.2 as int, end as int));
            (f.0, p.1.subrange(0, p.2 as int) + f.1 + p.1.subrange(end as int, p.1.len() as int), end, false)
        }
    }
}

#[via_fn]
proof fn row_fix_decreases(r: Row, heights: Seq<usize>, widths: Seq<usize>, k: nat) {
    if k > 0 && k <= r.cols@.len() {
        vstd::std_specs::vec::axiom_vec_index_decreases(r.cols, k - 1);
    }
}

/// The entries after a column's first `k` children are fixed up, each over
/// its own rows and all columns, the next free row, and whether the pass has
/// stopped at a child whose span does not fit in the rows left.
pub open spec fn col_fix(c: Col, heights: Seq<usize>, widths: Seq<usize>, k: nat) -> (
    Seq<usize>,
    Seq<usize>,
    nat,
    bool,
)
    decreases c, k,
    via col_fix_decreases
{
    if k == 0 {
        (heights, widths, 0, false)
    } else {
        let p = col_fix(c, heights, widths, (k - 1) as nat);
        if p.3 || k > c.rows@.len() || p.2 + c.rows@[k - 1].config().span_height > p.0.len() {
            (p.0, p.1, p.2, true)
        } else {
            let end = (p.2 + c.rows@[k - 1].config().span_height) as nat;
            let f = fixed(c.rows@[k - 1], p.0.subrange(p.2 as int, end as int), p.1);
            (p.0.subrange(0, p.2 as int) + f.0 + p.0.subrange(end as int, p.0.len() as int), f.1, end, false)
        }
    }
}

#[via_fn]
proof fn col_fix_decreases(c: Col, heights: Seq<usize>, widths: Seq<usize>, k: nat) {
    if k > 0 && k <= c.rows@.len() {
        vstd::std_specs::vec::axiom_vec_index_decreases(c.rows, k - 1);
    }
}

proof fn lemma_row_fix_stopped(r: Row, heights: Seq<usize>, widths: Seq<usize>, k: nat, m: nat)
    requires
        k <= m,
        row_fix(r, heights, widths, k).3,
    ensures
        row_fix(r, heights, widths, m) == row_fix(r, heights, widths, k),
    decreases m - k,
{
    if k < m {
        lemma_row_fix_stopped(r, heights, widths, k, (m - 1) as nat);
    }
}

proof fn lemma_col_fix_stopped(c: Col, heights: Seq<usize>, widths: Seq<usize>, k: nat, m: nat)
    requires
        k <= m,
        col_fix(c, heights, widths, k).3,
    ensures
        col_fix(c, heights, widths, m) == col_fix(c, heights, widths, k),
    decreases m - k,
{
    if k < m {
        lemma_col_fix_stopped(c, heights, widths, k, (m - 1) as nat);
    }
}

fn inner_chars(s: &Vec<char>) -> (r: Vec<char>)
    ensures
        r@ == inner_part(s@),
{
    let mut r: Vec<char> = Vec::new();
    if s.len() >= 2 {
        let mut k: usize = 1;
        while k < s.len() - 1
            invariant
                s@.len() >= 2,
                1 <= k <= s@.len() - 1,
                r@ == s@.subrange(1, k as int),
            decreases s@.len() - 1 - k,
        {
            r.push(s[k]);
            assert(s@.subrange(1, k + 1) =~= s@.subrange(1, k as int).push(s@[k as int]));
            k += 1;
        }
    }
    assert(r@ =~= inner_part(s@));
    r
}

fn push_lines(lines: &mut Vec<Vec<char>>, rows: &Vec<String>)
    ensures
        line_views(final(lines)@) == line_views(old(lines)@) + string_views(rows@),
{
    let ghost base = line_views(lines@);
    let mut k: usize = 0;
    while k < rows.len()
        invariant
            k <= rows@.len(),
            line_views(lines@) == base + string_views(rows@).take(k as int),
        decreases rows@.len() - k,
    {
        let line = chars_of(rows[k].as_str());
        let ghost before = lines@;
        let ghost gl = line;
        lines.push(line);
        proof {
            lemma_line_views_push(before, gl);
            assert(string_views(rows@).take(k + 1) =~= string_views(rows@).take(k as int).push(gl@));
        }
        k += 1;
    }
    assert(string_views(rows@).take(rows@.len() as int) =~= string_views(rows@));
}

impl DrawCell {
    /// The node's configuration.
    pub open spec fn config(self) -> CellConfig {
        match self {
            DrawCell::Text(t) => t.config,
            DrawCell::Row(r) => r.config,
            DrawCell::Col(c) => c.config,
        }
    }

    /// The node's configuration.
    pub fn get_config(&self) -> (r: &CellConfig)
        ensures
            *r == self.config(),
    {
        match self {
            DrawCell::Text(t) => &t.config,
            DrawCell::Row(r) => &r.config,
            DrawCell::Col(c) => &c.config,
        }
    }

    /// Multiplies the node's spans by the given ratios, then brings each
    /// child's span along the axis it shares with its siblings up to the
    /// node's: a row's children get the ratio of the row's height span to
    /// theirs and the row's column ratio, a column's children the ratio of the
    /// column's width span to theirs and the column's row ratio.
    pub fn fixup_config(&mut self, row_ratio: usize, col_ratio: usize)
        ensures
            configured(*old(self), *final(self), row_ratio, col_ratio),
            final(self).config() == respanned(old(self).config(), row_ratio, col_ratio),
            *old(self) is Text ==> *final(self) is Text && final(self)->Text_0.text == old(self)->Text_0.text,
            *old(self) is Row ==> {
                let (o, f) = (old(self)->Row_0, final(self)->Row_0);
                &&& *final(self) is Row
                &&& f.cols@.len() == o.cols@.len()
                &&& forall|j: int|
                    0 <= j < o.cols@.len() ==> #[trigger] f.cols@[j].config() == respanned(
                        o.cols@[j].config(),
                        span_ratio(f.config.span_height, o.cols@[j].config().span_height),
                        col_ratio,
                    )
                &&& reconcilable(span_heights(configs_of(o.cols@)), o.config.span_height, row_ratio)
                    ==> forall|j: int|
                    0 <= j < o.cols@.len() ==> #[trigger] f.cols@[j].config().span_height
                        == f.config.span_height
            },
            *old(self) is Col ==> {
                let (o, f) = (old(self)->Col_0, final(self)->Col_0);
                &&& *final(self) is Col
                &&& f.rows@.len() == o.rows@.len()
                &&& forall|j: int|
                    0 <= j < o.rows@.len() ==> #[trigger] f.rows@[j].config() == respanned(
                        o.rows@[j].config(),
                        row_ratio,
                        span_ratio(f.config.span_width, o.rows@[j].config().span_width),
                    )
                &&& reconcilable(span_widths(configs_of(o.rows@)), o.config.span_width, col_ratio)
                    ==> forall|j: int|
                    0 <= j < o.rows@.len() ==> #[trigger] f.rows@[j].config().span_width
                        == f.config.span_width
            },
        decreases *old(self),
    {
        let ghost orig = *self;
        match self {
            DrawCell::Text(t) => {
                t.config.span_height = mul_capped(t.config.span_height, row_ratio);
                t.config.span_width = mul_capped(t.config.span_width, col_ratio);
            },
            DrawCell::Row(r) => {
                r.config.span_height = mul_capped(r.config.span_height, row_ratio);
                r.config.span_width = mul_capped(r.config.span_width, col_ratio);
                let own = r.config.span_height;
                let n = r.cols.len();
                let mut i: usize = 0;
                while i < n
                    invariant
                        i <= n,
                        n == r.cols@.len(),
                        n == old(self)->Row_0.cols@.len(),
                        orig is Row,
                        orig == *old(self),
                        r.config == respanned(old(self).config(), row_ratio, col_ratio),
                        own == r.config.span_height,
                        forall|j: int| i <= j < n ==> r.cols@[j] == old(self)->Row_0.cols@[j],
                        forall|j: int|
                            0 <= j < i ==> #[trigger] configured(
                                old(self)->Row_0.cols@[j],
                                r.cols@[j],
                                span_ratio(own, old(self)->Row_0.cols@[j].config().span_height),
                                col_ratio,
                            ),
                        forall|j: int|
                            0 <= j < i ==> #[trigger] r.cols@[j].config() == respanned(
                                old(self)->Row_0.cols@[j].config(),
                                span_ratio(own, old(self)->Row_0.cols@[j].config().span_height),
                                col_ratio,
                            ),
                    decreases n - i,
                {
                    proof {
                        assert(decreases_to!(*old(self) => old(self)->Row_0));
                        assert(decreases_to!(old(self)->Row_0 => old(self)->Row_0.cols));
                        vstd::std_specs::vec::axiom_vec_index_decreases(old(self)->Row_0.cols, i as int);
                    }
                    let child = r.cols[i].get_config().span_height;
                    let ratio = if child == 0 {
                        1
                    } else {
                        own / child
                    };
                    let c = &mut r.cols[i];
                    c.fixup_config(ratio, col_ratio);
                    i += 1;
                }
                proof {
                    let o = old(self)->Row_0;
                    lemma_row_configured_all(o, *r, col_ratio, n as nat);
                    let spans = span_heights(configs_of(o.cols@));
                    if reconcilable(spans, o.config.span_height, row_ratio) {
                        assert forall|j: int| 0 <= j < n implies #[trigger] r.cols@[j].config().span_height
                            == r.config.span_height by {
                            assert(spans[j] == o.cols@[j].config().span_height);
                            lemma_span_reconciled(spans, j, row_ratio);
                        }
                    }
                }
            },
            DrawCell::Col(c) => {
                c.config.span_height = mul_capped(c.config.span_height, row_ratio);
                c.config.span_width = mul_capped(c.config.span_width, col_ratio);
                let own = c.config.span_width;
                let n = c.rows.len();
                let mut i: usize = 0;
                while i < n
                    invariant
                        i <= n,
                        n == c.rows@.len(),
                        n == old(self)->Col_0.rows@.len(),
                        orig is Col,
                        orig == *old(self),
                        c.config == respanned(old(self).config(), row_ratio, col_ratio),
                        own == c.config.span_width,
                        forall|j: int| i <= j < n ==> c.rows@[j] == old(self)->Col_0.rows@[j],
                        forall|j: int|
                            0 <= j < i ==> #[trigger] configured(
                                old(self)->Col_0.rows@[j],
                                c.rows@[j],
                                row_ratio,
                                span_ratio(own, old(self)->Col_0.rows@[j].config().span_width),
                            ),
                        forall|j: int|
                            0 <= j < i ==> #[trigger] c.rows@[j].config() == respanned(
                                old(self)->Col_0.rows@[j].config(),
                                row_ratio,
                                span_ratio(own, old(self)->Col_0.rows@[j].config().span_width),
                            ),
                    decreases n - i,
                {
                    proof {
                        assert(decreases_to!(*old(self) => old(self)->Col_0));
                        assert(decreases_to!(old(self)->Col_0 => old(self)->Col_0.rows));
                        vstd::std_specs::vec::axiom_vec_index_decreases(old(self)->Col_0.rows, i as int);
                    }
                    let child = c.rows[i].get_config().span_width;
                    let ratio = if child == 0 {
                        1
                    } else {
                        own / child
                    };
                    let x = &mut c.rows[i];
                    x.fixup_config(row_ratio, ratio);
                    i += 1;
                }
                proof {
                    let o = old(self)->Col_0;
                    lemma_col_configured_all(o, *c, row_ratio, n as nat);
                    let spans = span_widths(configs_of(o.rows@));
                    if reconcilable(spans, o.config.span_width, col_ratio) {
                        assert forall|j: int| 0 <= j < n implies #[trigger] c.rows@[j].config().span_width
                            == c.config.span_width by {
                            assert(spans[j] == o.rows@[j].config().span_width);
                            lemma_span_reconciled(spans, j, col_ratio);
                        }
                    }
                }
            },
        }
    }
}

fn append_chars(dst: &mut Vec<char>, src: &Vec<char>)
    ensures
        final(dst)@ == old(dst)@ + src@,
{
    let ghost init = dst@;
    let mut i: usize = 0;
    while i < src.len()
        invariant
            i <= src@.len(),
            dst@ == init + src@.take(i as int),
        decreases src@.len() - i,
    {
        dst.push(src[i]);
        assert(src@.take(i + 1) =~= src@.take(i as int).push(src@[i as int]));
        i += 1;
    }
    assert(src@.take(src@.len() as int) =~= src@);
}

impl DrawCell {
    /// Raises the grid entries under each child first, then the node's own
    /// entries until their sums reach the node's recommended size.
    pub fn fixup_grid(&self, grid: GridSliceMut)
        ensures
            final(grid.heights)@.len() == old(grid.heights)@.len(),
            final(grid.widths)@.len() == old(grid.widths)@.len(),
            old(grid.heights)@.len() > 0 ==> sum_of(final(grid.heights)@)
                >= self.config().bounds.rec.pt_height,
            old(grid.widths)@.len() > 0 ==> sum_of(final(grid.widths)@)
                >= self.config().bounds.rec.pt_width,
            (final(grid.heights)@, final(grid.widths)@) == fixed(
                *self,
                old(grid.heights)@,
                old(grid.widths)@,
            ),
    {
        self.fixup_entries(grid.heights, grid.widths);
    }

    fn fixup_entries(&self, heights: &mut [usize], widths: &mut [usize])
        ensures
            final(heights)@.len() == old(heights)@.len(),
            final(widths)@.len() == old(widths)@.len(),
            old(heights)@.len() > 0 ==> sum_of(final(heights)@) >= self.config().bounds.rec.pt_height,
            old(widths)@.len() > 0 ==> sum_of(final(widths)@) >= self.config().bounds.rec.pt_width,
            (final(heights)@, final(widths)@) == fixed(*self, old(heights)@, old(widths)@),
        decreases self,
    {
        let hn = heights.len();
        let wn = widths.len();
        let ghost oh = heights@;
        let ghost ow = widths@;
        match self {
            DrawCell::Text(_) => {},
            DrawCell::Row(r) => {
                let n = r.cols.len();
                let mut start: usize = 0;
                let mut i: usize = 0;
                let mut done = false;
                while i < n && !done
                    invariant
                        n == r.cols@.len(),
                        i <= n,
                        done ==> i < n,
                        start <= wn,
                        heights@.len() == hn,
                        widths@.len() == wn,
                        oh.len() == hn,
                        ow.len() == wn,
                        *self is Row,
                        r == self->Row_0,
                        row_fix(*r, oh, ow, (i + if done { 1int } else { 0int }) as nat) == (
                            heights@,
                            widths@,
                            start as nat,
                            done,
                        ),
                    decreases n - i + if done {
                        0int
                    } else {
                        1int
                    },
                {
                    proof {
                        assert(decreases_to!(*self => self->Row_0));
                        assert(decreases_to!(self->Row_0 => self->Row_0.cols));
                        vstd::std_specs::vec::axiom_vec_index_decreases(r.cols, i as int);
                    }
                    let len = r.cols[i].get_config().span_width;
                    if len > wn - start {
                        done = true;
                    } else {
                        let ghost ph = heights@;
                        let ghost pw = widths@;
                        r.cols[i].fixup_entries(sub_mut(heights, 0..hn), sub_mut(widths, start..start + len));
                        proof {
                            assert(ph.subrange(0, hn as int) =~= ph);
                            assert(ph.subrange(0, 0) + heights@ + ph.subrange(hn as int, hn as int) =~= heights@);
                        }
                        start = start + len;
                        i += 1;
                    }
                }
                proof {
                    if done {
                        lemma_row_fix_stopped(*r, oh, ow, (i + 1) as nat, n as nat);
                    }
                }
            },
            DrawCell::Col(c) => {
                let n = c.rows.len();
                let mut start: usize = 0;
                let mut i: usize = 0;
                let mut done = false;
                while i < n && !done
                    invariant
                        n == c.rows@.len(),
                        i <= n,
                        done ==> i < n,
                        start <= hn,
                        heights@.len() == hn,
                        widths@.len() == wn,
                        oh.len() == hn,
                        ow.len() == wn,
                        *self is Col,
                        c == self->Col_0,
                        col_fix(*c, oh, ow, (i + if done { 1int } else { 0int }) as nat) == (
                            heights@,
                            widths@,
                            start as nat,
                            done,
                        ),
                    decreases n - i + if done {
                        0int
                    } else {
                        1int
                    },
                {
                    proof {
                        assert(decreases_to!(*self => self->Col_0));
                        assert(decreases_to!(self->Col_0 => self->Col_0.rows));
                        vstd::std_specs::vec::axiom_vec_index_decreases(c.rows, i as int);
                    }
                    let len = c.rows[i].get_config().span_height;
                    if len > hn - start {
                        done = true;
                    } else {
                        let ghost ph = heights@;
                        let ghost pw = widths@;
                        c.rows[i].fixup_entries(sub_mut(heights, start..start + len), sub_mut(widths, 0..wn));
                        proof {
                            assert(pw.subrange(0, wn as int) =~= pw);
                            assert(pw.subrange(0, 0) + widths@ + pw.subrange(wn as int, wn as int) =~= widths@);
                        }
                        start = start + len;
                        i += 1;
                    }
                }
                proof {
                    if done {
                        lemma_col_fix_stopped(*c, oh, ow, (i + 1) as nat, n as nat);
                    }
                }
            },
        }
        let rec = self.get_config().bounds.rec;
        if hn > 0 {
            increase_to_size(heights, rec.pt_height);
        }
        if wn > 0 {
            increase_to_size(widths, rec.pt_width);
        }
    }

    /// The node drawn over the given grid rows and columns.
    pub fn draw(&self, grid: GridSlice) -> (r: CellView)
        requires
            spans_drawable(grid.heights@),
            spans_drawable(grid.widths@),
        ensures
            cell_drawn_as(*self, grid.heights@, grid.widths@, r),
        decreases self,
    {
        match self {
            DrawCell::Text(t) => t.draw(grid),
            DrawCell::Row(r) => r.draw(grid),
            DrawCell::Col(c) => c.draw(grid),
        }
    }
}


/// The four sides of a frame, as fragments: left, right, top and bottom.
pub type Sides = (Seq<BorderFragment>, Seq<BorderFragment>, Seq<BorderFragment>, Seq<BorderFragment>);

pub open spec fn sides_of(b: CellBorder) -> Sides {
    (b.left.fragments@, b.right.fragments@, b.top.fragments@, b.bottom.fragments@)
}

/// The sides of a one-weight frame of the given size.
pub open spec fn atomic_sides(height: usize, width: usize, weight: Width) -> Sides {
    (
        opening_fragments(height, weight),
        closing_fragments(height, weight),
        opening_fragments(width, weight),
        closing_fragments(width, weight),
    )
}

/// Two frames of one rectangle laid over each other.
pub open spec fn overlaid(a: Sides, b: Sides) -> Sides {
    (
        compress(overlay(expand(a.0), expand(b.0))),
        compress(overlay(expand(a.1), expand(b.1))),
        compress(overlay(expand(a.2), expand(b.2))),
        compress(overlay(expand(a.3), expand(b.3))),
    )
}

/// Frame `a` with frame `b` to its right, sharing the column between them.
pub open spec fn side_by_side(a: Sides, b: Sides) -> Sides {
    (a.0, b.1, joined(a.2, b.2), joined(a.3, b.3))
}

/// The characters of the column shared by frame `a` and frame `b` to its right.
pub open spec fn shared_column(a: Sides, b: Sides) -> Seq<char> {
    render_fragments(compress(overlay(expand(a.1), expand(b.0))), Orientation::Vertical)
}

/// Height of a frame: the length of its left side.
pub open spec fn frame_height(f: Sides) -> nat {
    total_length(f.0)
}

/// Width of a frame: the length of its top side.
pub open spec fn frame_width(f: Sides) -> nat {
    total_length(f.2)
}

/// The frame of a composite drawn in an interior of `height` by `width`: the
/// frame of its drawn children laid over its own one-weight frame when the
/// children fill the interior exactly, its own frame alone otherwise.
pub open spec fn composite_frame(children: Option<Sides>, height: int, width: int, weight: Width) -> Sides {
    let outer = atomic_sides((height + 2) as usize, (width + 2) as usize, weight);
    match children {
        Some(t) => if frame_height(t) == height + 2 && frame_width(t) == width + 2 {
            overlaid(t, outer)
        } else {
            outer
        },
        None => outer,
    }
}

/// The entries that child `k` gets, its span following those before it.
pub open spec fn entries_of(spans: Seq<usize>, entries: Seq<usize>, k: int) -> Seq<usize> {
    entries.subrange(sum_of(spans.take(k)) as int, sum_of(spans.take(k + 1)) as int)
}

/// A view drawn over the given entries has a well-formed frame of their size.
pub open spec fn view_fits(heights: Seq<usize>, widths: Seq<usize>, v: CellView) -> bool {
    &&& v.border.wf()
    &&& v.border.height == interior(heights) + 2
    &&& v.border.width == interior(widths) + 2
}

impl Row {
    /// A row of the given cells: its bounds also contain the children's lined
    /// up, it spans the sum of their columns and a common multiple of their rows.
    pub fn new(cols: Vec<DrawCell>, config: CellConfig) -> (r: Row)
        requires
            line_configs_fit(configs_of(cols@)),
        ensures
            r.cols@ == cols@,
            r.config == composite_config(
                config,
                collected(
                    lined(bounds_of(configs_of(cols@))),
                    lcm_fold(span_heights(configs_of(cols@))) as usize,
                    sum_of(span_widths(configs_of(cols@))) as usize,
                ),
            ),
    {
        let child = Horizontal::<CellConfig>::from_configs(&configs_exec(&cols)).0;
        Row {
            cols,
            config: CellConfig {
                bounds: config.bounds.add(child.bounds),
                span_height: child.span_height,
                span_width: child.span_width,
                ..config
            },
        }
    }

    /// The row drawn over the given grid rows and columns: the children side
    /// by side, each over its own columns, the shared border between two
    /// neighbours drawn between their lines, and the row's frame laid over the
    /// children's. Children are drawn in order while they fit in the columns
    /// left; the first one that does not ends the drawing.
    pub fn draw(&self, grid: GridSlice) -> (r: CellView)
        requires
            spans_drawable(grid.heights@),
            spans_drawable(grid.widths@),
        ensures
            r.border.wf(),
            r.border.height == interior(grid.heights@) + 2,
            r.border.width == interior(grid.widths@) + 2,
            r.textbox@.len() == interior(grid.heights@),
            view_of(r) == row_drawn(*self, grid.heights@, grid.widths@),
        decreases self,
    {
        let bound = grid.get_bound();
        let pt_height = bound.pt_height;
        let pt_width = bound.pt_width;
        let mut lines: Vec<Vec<char>> = Vec::new();
        let mut k: usize = 0;
        while k < pt_height
            invariant
                k <= pt_height,
                line_views(lines@) == Seq::new(k as nat, |j: int| Seq::<char>::empty()),
            decreases pt_height - k,
        {
            let ghost before = lines@;
            let fresh: Vec<char> = Vec::new();
            let ghost gf = fresh;
            lines.push(fresh);
            proof {
                lemma_line_views_push(before, gf);
                assert(Seq::new((k + 1) as nat, |j: int| Seq::<char>::empty()) =~= Seq::new(
                    k as nat,
                    |j: int| Seq::<char>::empty(),
                ).push(Seq::<char>::empty()));
            }
            k += 1;
        }
        let hn = grid.heights.len();
        let wn = grid.widths.len();
        let ghost spans = span_widths(configs_of(self.cols@));
        let ghost ws = grid.widths@;
        let ghost mut vs: Seq<Drawn> = Seq::empty();
        let n = self.cols.len();
        let mut total: Option<CellBorder> = None;
        let mut start: usize = 0;
        let mut i: usize = 0;
        let mut done = false;
        while i < n && !done
            invariant
                n == self.cols@.len(),
                spans == span_widths(configs_of(self.cols@)),
                spans.len() == n,
                ws == grid.widths@,
                i <= n,
                vs.len() == i,
                hn == grid.heights@.len(),
                wn == grid.widths@.len(),
                pt_height == interior(grid.heights@),
                spans_drawable(grid.heights@),
                spans_drawable(grid.widths@),
                start == sum_of(spans.take(i as int)),
                start <= wn,
                done ==> i < n,
                row_fold(*self, grid.heights@, ws, (i + if done { 1int } else { 0int }) as nat) == (vs, done),
                line_views(lines@) == row_lines(vs, pt_height as nat),
                (i == 0) == (total is None),
                total matches Some(t) ==> {
                    &&& t.wf()
                    &&& sides_of(t) == row_sides(vs)
                    &&& t.height == pt_height + 2
                    &&& t.width == sum_of(ws.take(start as int)) + 1
                },
            decreases n - i + if done {
                0int
            } else {
                1int
            },
        {
            proof {
                assert(decreases_to!(*self => self.cols));
                vstd::std_specs::vec::axiom_vec_index_decreases(self.cols, i as int);
                assert(spans[i as int] == self.cols@[i as int].config().span_width);
                lemma_sum_take_step(spans, i as int);
            }
            let len = self.cols[i].get_config().span_width;
            if len > wn - start {
                done = true;
                assert(sum_of(spans.take(i + 1)) > ws.len());
            } else {
                let sub = grid.slice(0..hn, start..start + len);
                assert(sub.heights@ =~= grid.heights@);
                if !sub.is_drawable() {
                    done = true;
                } else {
                    let view = self.cols[i].draw(sub);
                    let ghost gv = view;
                    let (cell_lines, border) = view.unwrap();
                    proof {
                        lemma_sum_take_step(spans, i as int);
                        lemma_sum_split(ws, start as int, start + len);
                        lemma_sum_split(ws, start + len, ws.len() as int);
                    }
                    let ghost prev_vs = vs;
                    let ghost prev_lines = line_views(lines@);
                    let (next, sep) = match total {
                        None => (border, None),
                        Some(brd) => {
                            let (b, s) = brd.add_horizontal(&border);
                            (b, Some(s.render_chars(Orientation::Vertical)))
                        },
                    };
                    total = Some(next);
                    proof {
                        vs = vs.push(view_of(gv));
                        assert(vs.drop_last() =~= prev_vs);
                    }
                    let mut m = if cell_lines.len() < pt_height {
                        cell_lines.len()
                    } else {
                        pt_height
                    };
                    if let Some(sc) = &sep {
                        if sc.len() == 0 {
                            m = 0;
                        } else if sc.len() - 1 < m {
                            m = sc.len() - 1;
                        }
                    }
                    let ghost target = row_lines(vs, pt_height as nat);
                    let ghost cells = string_views(cell_lines@);
                    proof {
                        assert(line_views(lines@).len() == lines@.len());
                        assert(cell_lines == gv.textbox);
                        if i == 0 {
                            assert(sep is None);
                        } else {
                            assert(vs.len() > 1);
                        }
                    }
                    let mut k: usize = 0;
                    while k < m
                        invariant
                            k <= m,
                            m <= pt_height,
                            m <= cell_lines@.len(),
                            sep matches Some(sc) ==> m + 1 <= sc@.len(),
                            lines@.len() == pt_height,
                            target.len() == pt_height,
                            prev_lines.len() == pt_height,
                            cells == string_views(cell_lines@),
                            forall|j: int|
                                0 <= j < m ==> #[trigger] target[j] == prev_lines[j] + (if sep is Some {
                                    seq![sep->Some_0@[j + 1]]
                                } else {
                                    Seq::<char>::empty()
                                }) + cells[j],
                            forall|j: int| m <= j < pt_height ==> #[trigger] target[j] == prev_lines[j],
                            forall|j: int|
                                0 <= j < pt_height ==> #[trigger] line_views(lines@)[j] == if j < k {
                                    target[j]
                                } else {
                                    prev_lines[j]
                                },
                        decreases m - k,
                    {
                        assert(line_views(lines@)[k as int] == lines@[k as int]@);
                        let mut line: Vec<char> = Vec::new();
                        append_chars(&mut line, &lines[k]);
                        assert(line@ =~= prev_lines[k as int]);
                        if let Some(sc) = &sep {
                            line.push(sc[k + 1]);
                        }
                        let ghost mid = line@;
                        let cell = chars_of(cell_lines[k].as_str());
                        append_chars(&mut line, &cell);
                        proof {
                            assert(cells[k as int] == cell_lines@[k as int]@);
                            if sep is Some {
                                assert(mid =~= prev_lines[k as int] + seq![sep->Some_0@[k + 1]]);
                            } else {
                                assert(mid =~= prev_lines[k as int] + Seq::<char>::empty());
                            }
                            assert(line@ =~= target[k as int]);
                        }
                        let ghost before = lines@;
                        lines.set(k, line);
                        proof {
                            assert forall|j: int| 0 <= j < pt_height implies #[trigger] line_views(lines@)[j] == if j < k + 1 {
                                target[j]
                            } else {
                                prev_lines[j]
                            } by {
                                assert(line_views(lines@)[j] == lines@[j]@);
                                if j != k {
                                    assert(lines@[j] == before[j]);
                                    assert(line_views(before)[j] == before[j]@);
                                }
                            }
                        }
                        k += 1;
                    }
                    assert(line_views(lines@) =~= target);
                    start = start + len;
                    i += 1;
                }
            }
        }
        let outer = CellBorder::atomic(pt_height + 2, pt_width + 2, self.config.border);
        let border = match total {
            Some(t) => if t.check_size(pt_height + 2, pt_width + 2) {
                t.combine(&outer)
            } else {
                outer
            },
            None => outer,
        };
        let textbox = to_strings(&lines);
        assert(string_views(textbox@).len() == textbox@.len());
        assert(line_views(lines@).len() == lines@.len());
        let r = CellView::new(textbox, border);
        proof {
            if done {
                lemma_row_fold_stopped(*self, grid.heights@, ws, (i + 1) as nat, n as nat);
            }
        }
        r
    }
}

/// Frame `a` with frame `b` below it, sharing the row between them.
pub open spec fn stacked_frames(a: Sides, b: Sides) -> Sides {
    (joined(a.0, b.0), joined(a.1, b.1), a.2, b.3)
}

/// The characters of the row shared by frame `a` and frame `b` below it.
pub open spec fn shared_row(a: Sides, b: Sides) -> Seq<char> {
    render_fragments(compress(overlay(expand(a.3), expand(b.2))), Orientation::Horizontal)
}

/// A line without its first and last characters.
pub open spec fn inner_part(s: Seq<char>) -> Seq<char> {
    if s.len() >= 2 {
        s.subrange(1, s.len() - 1)
    } else {
        Seq::empty()
    }
}

impl Col {
    /// A column of the given cells: its bounds also contain the children's
    /// stacked, it spans the sum of their rows and a common multiple of their
    /// columns.
    pub fn new(rows: Vec<DrawCell>, config: CellConfig) -> (r: Col)
        requires
            stack_configs_fit(configs_of(rows@)),
        ensures
            r.rows@ == rows@,
            r.config == composite_config(
                config,
                collected(
                    stacked(bounds_of(configs_of(rows@))),
                    sum_of(span_heights(configs_of(rows@))) as usize,
                    lcm_fold(span_widths(configs_of(rows@))) as usize,
                ),
            ),
    {
        let child = Vertical::<CellConfig>::from_configs(&configs_exec(&rows)).0;
        Col {
            rows,
            config: CellConfig {
                bounds: config.bounds.add(child.bounds),
                span_height: child.span_height,
                span_width: child.span_width,
                ..config
            },
        }
    }

    /// The column drawn over the given grid rows and columns: the children
    /// stacked, each over its own rows, the shared border between two
    /// neighbours drawn as a line between them, and the column's frame laid
    /// over the children's. Drawing stops at the first child that does not fit
    /// in the rows or lines left.
    pub fn draw(&self, grid: GridSlice) -> (r: CellView)
        requires
            spans_drawable(grid.heights@),
            spans_drawable(grid.widths@),
        ensures
            r.border.wf(),
            r.border.height == interior(grid.heights@) + 2,
            r.border.width == interior(grid.widths@) + 2,
            view_of(r) == col_drawn(*self, grid.heights@, grid.widths@),
        decreases self,
    {
        let bound = grid.get_bound();
        let pt_height = bound.pt_height;
        let pt_width = bound.pt_width;
        let mut lines: Vec<Vec<char>> = Vec::new();
        let hn = grid.heights.len();
        let wn = grid.widths.len();
        let ghost spans = span_heights(configs_of(self.rows@));
        let ghost hs = grid.heights@;
        let ghost mut vs: Seq<Drawn> = Seq::empty();
        let n = self.rows.len();
        let mut total: Option<CellBorder> = None;
        let mut start: usize = 0;
        let mut i: usize = 0;
        let mut done = false;
        while i < n && !done
            invariant
                n == self.rows@.len(),
                spans == span_heights(configs_of(self.rows@)),
                spans.len() == n,
                hs == grid.heights@,
                i <= n,
                vs.len() == i,
                hn == grid.heights@.len(),
                wn == grid.widths@.len(),
                pt_height == interior(grid.heights@),
                pt_width == interior(grid.widths@),
                spans_drawable(grid.heights@),
                spans_drawable(grid.widths@),
                start == sum_of(spans.take(i as int)),
                start <= hn,
                done ==> i < n,
                col_fold(*self, hs, grid.widths@, (i + if done { 1int } else { 0int }) as nat) == (vs, done),
                line_views(lines@) == col_lines(vs),
                (i == 0) == (total is None),
                total matches Some(t) ==> {
                    &&& t.wf()
                    &&& sides_of(t) == col_sides(vs)
                    &&& t.width == pt_width + 2
                    &&& t.height == sum_of(hs.take(start as int)) + 1
                },
            decreases n - i + if done {
                0int
            } else {
                1int
            },
        {
            proof {
                assert(decreases_to!(*self => self.rows));
                vstd::std_specs::vec::axiom_vec_index_decreases(self.rows, i as int);
                assert(spans[i as int] == self.rows@[i as int].config().span_height);
                lemma_sum_take_step(spans, i as int);
            }
            let len = self.rows[i].get_config().span_height;
            if len > hn - start {
                done = true;
                assert(sum_of(spans.take(i + 1)) > hs.len());
            } else {
                let sub = grid.slice(start..start + len, 0..wn);
                assert(sub.widths@ =~= grid.widths@);
                if !sub.is_drawable() {
                    done = true;
                } else {
                    let view = self.rows[i].draw(sub);
                    let ghost gv = view;
                    let (row_lines, border) = view.unwrap();
                    proof {
                        lemma_sum_split(hs, start as int, start + len);
                        lemma_sum_split(hs, start + len, hs.len() as int);
                        assert(line_views(lines@).len() == lines@.len());
                    }
                    if lines.len() > 0 && (row_lines.len() > pt_height || lines.len() >= pt_height
                        - row_lines.len()) {
                        done = true;
                        assert(!room_for(col_lines(vs), view_of(gv), pt_height as int));
                    } else {
                        let ghost prev_vs = vs;
                        let ghost prev_lines = line_views(lines@);
                        proof {
                            vs = vs.push(view_of(gv));
                            assert(vs.drop_last() =~= prev_vs);
                        }
                        match total {
                            None => {
                                total = Some(border);
                            },
                            Some(brd) => {
                                let (b, s) = brd.add_vertical(&border);
                                total = Some(b);
                                let sc = s.render_chars(Orientation::Horizontal);
                                let middle = inner_chars(&sc);
                                let ghost before = lines@;
                                let ghost gm = middle;
                                lines.push(middle);
                                proof {
                                    lemma_line_views_push(before, gm);
                                }
                            },
                        }
                        push_lines(&mut lines, &row_lines);
                        proof {
                            assert(row_lines == gv.textbox);
                            if i == 0 {
                                assert(prev_lines.len() == 0);
                                assert(line_views(lines@) =~= col_lines(vs));
                            } else {
                                assert(line_views(lines@) =~= col_lines(vs));
                            }
                        }
                        start = start + len;
                        i += 1;
                    }
                }
            }
        }
        let outer = CellBorder::atomic(pt_height + 2, pt_width + 2, self.config.border);
        let border = match total {
            Some(t) => if t.check_size(pt_height + 2, pt_width + 2) {
                t.combine(&outer)
            } else {
                outer
            },
            None => outer,
        };
        let textbox = to_strings(&lines);
        let r = CellView::new(textbox, border);
        proof {
            if done {
                lemma_col_fold_stopped(*self, hs, grid.widths@, (i + 1) as nat, n as nat);
            }
        }
        r
    }
}

/// What a drawing leaves: its lines and the sides of its frame.
pub type Drawn = (Seq<Seq<char>>, Sides);

/// The lines and frame sides of a view.
pub open spec fn view_of(v: CellView) -> Drawn {
    (string_views(v.textbox@), sides_of(v.border))
}

/// What a text cell draws in an interior of `h` lines by `w` columns: its
/// text laid out in the width (padding cut down to what the width leaves room
/// for) and placed in the height, inside a frame of the cell's weight.
pub open spec fn text_result(t: TextCell, h: int, w: int) -> Drawn {
    let padding = if t.config.padding <= w / 2 {
        t.config.padding
    } else {
        (w / 2) as usize
    };
    (
        boxed(laid_out(t.text@, w as usize, padding, t.config.alignment), h as nat, w as nat),
        atomic_sides((h + 2) as usize, (w + 2) as usize, t.config.border),
    )
}

/// The frame of the first drawn children of a row put side by side.
pub open spec fn row_sides(ds: Seq<Drawn>) -> Sides
    decreases ds.len(),
{
    if ds.len() <= 1 {
        ds[0].1
    } else {
        side_by_side(row_sides(ds.drop_last()), ds.last().1)
    }
}

/// The `height` lines of a row whose first children were drawn as `ds`: each
/// child's lines follow the shared column's character on the same line, as
/// far as the child's lines, the row's height and the column reach.
pub open spec fn row_lines(ds: Seq<Drawn>, height: nat) -> Seq<Seq<char>>
    decreases ds.len(),
{
    if ds.len() == 0 {
        Seq::new(height, |j: int| Seq::<char>::empty())
    } else {
        let prev = row_lines(ds.drop_last(), height);
        let cells = ds.last().0;
        let m0 = if cells.len() < height {
            cells.len() as int
        } else {
            height as int
        };
        if ds.len() == 1 {
            Seq::new(height, |j: int| if j < m0 { prev[j] + cells[j] } else { prev[j] })
        } else {
            let sep = shared_column(row_sides(ds.drop_last()), ds.last().1);
            let m = if sep.len() == 0 {
                0
            } else if sep.len() - 1 < m0 {
                sep.len() - 1
            } else {
                m0
            };
            Seq::new(
                height,
                |j: int| if j < m { prev[j] + seq![sep[j + 1]] + cells[j] } else { prev[j] },
            )
        }
    }
}

/// The frame of the first drawn children of a column stacked.
pub open spec fn col_sides(ds: Seq<Drawn>) -> Sides
    decreases ds.len(),
{
    if ds.len() <= 1 {
        ds[0].1
    } else {
        stacked_frames(col_sides(ds.drop_last()), ds.last().1)
    }
}

/// The lines of a column whose first children were drawn as `ds`: each
/// child's lines, with the inner part of the row shared by two neighbours
/// between them.
pub open spec fn col_lines(ds: Seq<Drawn>) -> Seq<Seq<char>>
    decreases ds.len(),
{
    if ds.len() == 0 {
        Seq::empty()
    } else if ds.len() == 1 {
        ds[0].0
    } else {
        col_lines(ds.drop_last()) + seq![inner_part(shared_row(col_sides(ds.drop_last()), ds.last().1))]
            + ds.last().0
    }
}

/// Whether the lines of drawing `d` still fit below `lines` in `height`
/// lines, one line apart; the first lines always do.
pub open spec fn room_for(lines: Seq<Seq<char>>, d: Drawn, height: int) -> bool {
    lines.len() == 0 || lines.len() + 1 + d.0.len() <= height
}

/// Child `j`, its span following those before it, fits in the entries and
/// gets entries that a cell can be drawn over.
pub open spec fn child_fits(spans: Seq<usize>, entries: Seq<usize>, j: int) -> bool {
    &&& sum_of(spans.take(j + 1)) <= entries.len()
    &&& spans_drawable(entries_of(spans, entries, j))
}

/// What a node draws over the given grid entries.
pub open spec fn drawn(c: DrawCell, heights: Seq<usize>, widths: Seq<usize>) -> Drawn
    decreases c, 0nat,
{
    match c {
        DrawCell::Text(t) => text_result(t, interior(heights), interior(widths)),
        DrawCell::Row(r) => row_drawn(r, heights, widths),
        DrawCell::Col(k) => col_drawn(k, heights, widths),
    }
}

/// The children a row draws among its first `k`, and whether drawing has
/// stopped: children are drawn in order, each over its own columns, until one
/// does not fit.
pub open spec fn row_fold(r: Row, heights: Seq<usize>, widths: Seq<usize>, k: nat) -> (Seq<Drawn>, bool)
    decreases r, k,
    via row_fold_decreases
{
    if k == 0 {
        (Seq::empty(), false)
    } else {
        let prev = row_fold(r, heights, widths, (k - 1) as nat);
        let spans = span_widths(configs_of(r.cols@));
        if prev.1 || k > r.cols@.len() || !child_fits(spans, widths, k - 1) {
            (prev.0, true)
        } else {
            (prev.0.push(drawn(r.cols@[k - 1], heights, entries_of(spans, widths, k - 1))), false)
        }
    }
}

#[via_fn]
proof fn row_fold_decreases(r: Row, heights: Seq<usize>, widths: Seq<usize>, k: nat) {
    if k > 0 && k <= r.cols@.len() {
        vstd::std_specs::vec::axiom_vec_index_decreases(r.cols, k - 1);
    }
}

/// What a row draws: its drawn children side by side, its frame laid over
/// theirs when they fill its interior.
pub open spec fn row_drawn(r: Row, heights: Seq<usize>, widths: Seq<usize>) -> Drawn
    decreases r, r.cols@.len() + 1,
{
    let ds = row_fold(r, heights, widths, r.cols@.len()).0;
    (
        row_lines(ds, interior(heights) as nat),
        composite_frame(
            if ds.len() == 0 {
                None
            } else {
                Some(row_sides(ds))
            },
            interior(heights),
            interior(widths),
            r.config.border,
        ),
    )
}

/// The children a column draws among its first `k`, and whether drawing has
/// stopped: children are drawn in order, each over its own rows, until one
/// does not fit in the rows or in the lines left.
pub open spec fn col_fold(c: Col, heights: Seq<usize>, widths: Seq<usize>, k: nat) -> (Seq<Drawn>, bool)
    decreases c, k,
    via col_fold_decreases
{
    if k == 0 {
        (Seq::empty(), false)
    } else {
        let prev = col_fold(c, heights, widths, (k - 1) as nat);
        let spans = span_heights(configs_of(c.rows@));
        if prev.1 || k > c.rows@.len() || !child_fits(spans, heights, k - 1) {
            (prev.0, true)
        } else {
            let d = drawn(c.rows@[k - 1], entries_of(spans, heights, k - 1), widths);
            if room_for(col_lines(prev.0), d, interior(heights)) {
                (prev.0.push(d), false)
            } else {
                (prev.0, true)
            }
        }
    }
}

#[via_fn]
proof fn col_fold_decreases(c: Col, heights: Seq<usize>, widths: Seq<usize>, k: nat) {
    if k > 0 && k <= c.rows@.len() {
        vstd::std_specs::vec::axiom_vec_index_decreases(c.rows, k - 1);
    }
}

/// What a column draws: its drawn children stacked, its frame laid over
/// theirs when they fill its interior.
pub open spec fn col_drawn(c: Col, heights: Seq<usize>, widths: Seq<usize>) -> Drawn
    decreases c, c.rows@.len() + 1,
{
    let ds = col_fold(c, heights, widths, c.rows@.len()).0;
    (
        col_lines(ds),
        composite_frame(
            if ds.len() == 0 {
                None
            } else {
                Some(col_sides(ds))
            },
            interior(heights),
            interior(widths),
            c.config.border,
        ),
    )
}

/// Once a row has stopped drawing, later children change nothing.
proof fn lemma_row_fold_stopped(r: Row, heights: Seq<usize>, widths: Seq<usize>, k: nat, m: nat)
    requires
        k <= m,
        row_fold(r, heights, widths, k).1,
    ensures
        row_fold(r, heights, widths, m) == row_fold(r, heights, widths, k),
    decreases m - k,
{
    if k < m {
        lemma_row_fold_stopped(r, heights, widths, k, (m - 1) as nat);
    }
}

/// Once a column has stopped drawing, later children change nothing.
proof fn lemma_col_fold_stopped(c: Col, heights: Seq<usize>, widths: Seq<usize>, k: nat, m: nat)
    requires
        k <= m,
        col_fold(c, heights, widths, k).1,
    ensures
        col_fold(c, heights, widths, m) == col_fold(c, heights, widths, k),
    decreases m - k,
{
    if k < m {
        lemma_col_fold_stopped(c, heights, widths, k, (m - 1) as nat);
    }
}

/// The lines of a drawing framed by its sides.
pub open spec fn framed_drawn(d: Drawn) -> Seq<Seq<char>> {
    framed(
        render_fragments(d.1.2, Orientation::Horizontal),
        render_fragments(d.1.0, Orientation::Vertical),
        render_fragments(d.1.1, Orientation::Vertical),
        render_fragments(d.1.3, Orientation::Horizontal),
        d.0,
    )
}

/// Whether `r` is what the node draws over the given grid entries, in a
/// well-formed frame of the entries' size.
pub open spec fn cell_drawn_as(c: DrawCell, heights: Seq<usize>, widths: Seq<usize>, r: CellView) -> bool {
    &&& view_fits(heights, widths, r)
    &&& view_of(r) == drawn(c, heights, widths)
}

impl Table {
    /// The cell tree with its spans brought to a common grid, and that grid
    /// sized so that every node gets at least its recommended size.
    pub fn from(cell: DrawCell) -> (r: Table)
        ensures
            configured(cell, r.cell, 1, 1),
            r.cell.config() == cell.config(),
            r.grid.heights@.len() == cell.config().span_height,
            r.grid.widths@.len() == cell.config().span_width,
            r.grid.heights@.len() > 0 ==> sum_of(r.grid.heights@) >= cell.config().bounds.rec.pt_height,
            r.grid.widths@.len() > 0 ==> sum_of(r.grid.widths@) >= cell.config().bounds.rec.pt_width,
            (r.grid.heights@, r.grid.widths@) == fixed(
                r.cell,
                zeros(cell.config().span_height as nat),
                zeros(cell.config().span_width as nat),
            ),
    {
        let ghost c0 = cell.config();
        let mut node = cell;
        node.fixup_config(1, 1);
        assert(capped_mul(c0.span_height, 1) == c0.span_height);
        assert(capped_mul(c0.span_width, 1) == c0.span_width);
        let mut grid = Grid::new(node.get_config());
        let ghost zh = grid.heights@;
        let ghost zw = grid.widths@;
        node.fixup_grid(grid.slice_mut());
        assert(zh == zeros(c0.span_height as nat));
        assert(zw == zeros(c0.span_width as nat));
        let t = Table { cell: node, grid };
        assert(t.cell == node && t.grid.heights@ == grid.heights@ && t.grid.widths@ == grid.widths@);
        t
    }

    /// The lines of the drawn table: the tree drawn over the whole grid and
    /// framed. There are none where the grid is empty or too large to draw,
    /// or where the drawn text does not fill the frame's interior.
    pub fn lines(&self) -> (r: Vec<String>)
        ensures
            !(spans_drawable(self.grid.heights@) && spans_drawable(self.grid.widths@)) ==> r@.len()
                == 0,
            spans_drawable(self.grid.heights@) && spans_drawable(self.grid.widths@) ==> {
                let d = drawn(self.cell, self.grid.heights@, self.grid.widths@);
                &&& fills_interior(d.0, interior(self.grid.heights@), interior(self.grid.widths@))
                    ==> string_views(r@) == framed_drawn(d)
                &&& !fills_interior(d.0, interior(self.grid.heights@), interior(self.grid.widths@))
                    ==> r@.len() == 0
            },
    {
        let slice = self.grid.slice();
        if slice.is_drawable() {
            let v = self.cell.draw(slice);
            let ghost gv = v;
            let ghost d = view_of(gv);
            let h = v.border.height - 2;
            let w = v.border.width - 2;
            if v.textbox.len() != h {
                return Vec::new();
            }
            let mut i: usize = 0;
            while i < v.textbox.len()
                invariant
                    i <= v.textbox@.len(),
                    w == v.border.width - 2,
                    d == view_of(gv),
                    gv == v,
                    w == interior(self.grid.widths@),
                    d == drawn(self.cell, self.grid.heights@, self.grid.widths@),
                    forall|j: int| 0 <= j < i ==> display_width(#[trigger] string_views(v.textbox@)[j]) == w,
                decreases v.textbox@.len() - i,
            {
                if measure_width(v.textbox[i].as_str()) != w {
                    assert(string_views(v.textbox@)[i as int] == v.textbox@[i as int]@);
                    assert(d.0 == string_views(v.textbox@));
                    assert(!fills_interior(d.0, interior(self.grid.heights@), interior(self.grid.widths@)));
                    return Vec::new();
                }
                assert(string_views(v.textbox@)[i as int] == v.textbox@[i as int]@);
                i += 1;
            }
            v.complete()
        } else {
            Vec::new()
        }
    }
}

} // verus!
