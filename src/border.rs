use vstd::prelude::*;

use crate::text::string_from_chars;
use crate::width::{glyph, Width};

verus! {

/// Direction in which a border runs when it is drawn.
#[derive(Clone, Copy, Debug, PartialEq, Eq, Structural)]
pub enum Orientation {
    Vertical,
    Horizontal,
}

/// A run of `length` positions of one weight. `left_start` and `right_start`
/// are the weights of the lines that meet the run's first position from the
/// two sides across the border.
#[derive(Clone, Copy, Debug, PartialEq, Eq, Structural)]
pub struct BorderFragment {
    pub length: usize,
    pub width: Width,
    pub left_start: Width,
    pub right_start: Width,
}

/// What a border holds at one position: the weight along the border and the
/// weights of the lines that join it from either side there.
#[derive(Clone, Copy, Debug, PartialEq, Eq, Structural)]
pub struct Cross {
    pub forward: Width,
    pub left: Width,
    pub right: Width,
}

/// One edge of a rectangle, as a sequence of fragments covering `length`
/// positions.
#[derive(Debug)]
pub struct Border {
    pub fragments: Vec<BorderFragment>,
    pub length: usize,
}

impl Cross {
    pub open spec fn join(self, other: Cross) -> Cross {
        Cross {
            forward: self.forward.join(other.forward),
            left: self.left.join(other.left),
            right: self.right.join(other.right),
        }
    }
}

/// Number of positions covered by a sequence of fragments.
pub open spec fn total_length(frags: Seq<BorderFragment>) -> nat
    decreases frags.len(),
{
    if frags.len() == 0 {
        0
    } else {
        total_length(frags.drop_last()) + frags.last().length as nat
    }
}

/// The positions of one fragment: the hints sit on its first position only.
pub open spec fn expand_fragment(f: BorderFragment) -> Seq<Cross> {
    Seq::new(
        f.length as nat,
        |i: int|
            if i == 0 {
                Cross { forward: f.width, left: f.left_start, right: f.right_start }
            } else {
                Cross { forward: f.width, left: Width::Empty, right: Width::Empty }
            },
    )
}

/// The positions of a sequence of fragments, in order.
pub open spec fn expand(frags: Seq<BorderFragment>) -> Seq<Cross>
    decreases frags.len(),
{
    if frags.len() == 0 {
        Seq::empty()
    } else {
        expand(frags.drop_last()) + expand_fragment(frags.last())
    }
}

/// Two borders laid over each other, position by position.
pub open spec fn overlay(a: Seq<Cross>, b: Seq<Cross>) -> Seq<Cross> {
    Seq::new(a.len(), |i: int| a[i].join(b[i]))
}

/// Fragments of a sequence of positions, scanned left to right: a position
/// without hints whose weight equals the running fragment's weight extends that
/// fragment; any other position starts a new one.
pub open spec fn compress(s: Seq<Cross>) -> Seq<BorderFragment>
    decreases s.len(),
{
    if s.len() == 0 {
        Seq::empty()
    } else {
        let p = compress(s.drop_last());
        let c = s.last();
        if p.len() > 0 && c.left == Width::Empty && c.right == Width::Empty && c.forward
            == p.last().width {
            p.update(p.len() - 1, BorderFragment { length: (p.last().length + 1) as usize, ..p.last() })
        } else {
            p.push(BorderFragment { length: 1, width: c.forward, left_start: c.left, right_start: c.right })
        }
    }
}

/// No fragment without hints continues the weight of the fragment before it.
pub open spec fn maximal(frags: Seq<BorderFragment>) -> bool {
    forall|k: int|
        0 < k < frags.len() ==> !(#[trigger] frags[k].left_start == Width::Empty
            && frags[k].right_start == Width::Empty && frags[k].width == frags[k - 1].width)
}

/// The last position covered by fragment `f`, seen as the junction with what
/// follows it: the hints sit there only when `f` covers that one position.
pub open spec fn end_cross(f: BorderFragment) -> Cross {
    if f.length == 1 {
        Cross { forward: f.width, left: f.left_start, right: f.right_start }
    } else {
        Cross { forward: f.width, left: Width::Empty, right: Width::Empty }
    }
}

/// The fragment that `first` becomes when the junction `c` is merged into it.
pub open spec fn fuse(c: Cross, first: BorderFragment) -> BorderFragment {
    BorderFragment {
        length: first.length,
        width: c.forward.join(first.width),
        left_start: c.left.join(first.left_start),
        right_start: c.right.join(first.right_start),
    }
}

/// Fragments of `a` followed by `b`, the last position of `a` and the first of
/// `b` being one shared junction.
pub open spec fn joined(a: Seq<BorderFragment>, b: Seq<BorderFragment>) -> Seq<BorderFragment> {
    let last = a.last();
    let head = if last.length > 1 {
        a.drop_last().push(BorderFragment { length: (last.length - 1) as usize, ..last })
    } else {
        a.drop_last()
    };
    head.push(fuse(end_cross(last), b[0])) + b.subrange(1, b.len() as int)
}

/// Fragments of the left (or top) side of a one-weight frame: a run of `width`
/// whose last position is the corner, joined by `width` from the right.
pub open spec fn opening_fragments(length: usize, width: Width) -> Seq<BorderFragment> {
    seq![
        BorderFragment { length: (length - 1) as usize, width, left_start: Width::Empty, right_start: width },
        BorderFragment { length: 1, width: Width::Empty, left_start: Width::Empty, right_start: width },
    ]
}

/// Fragments of the right (or bottom) side of a one-weight frame: a run of
/// `width` whose last position is the corner, joined by `width` from the left.
pub open spec fn closing_fragments(length: usize, width: Width) -> Seq<BorderFragment> {
    seq![
        BorderFragment { length: (length - 1) as usize, width, left_start: width, right_start: Width::Empty },
        BorderFragment { length: 1, width: Width::Empty, left_start: width, right_start: Width::Empty },
    ]
}

/// Character of a straight stretch of weight `w`.
pub open spec fn straight(w: Width, o: Orientation) -> char {
    match o {
        Orientation::Vertical => glyph(w, Width::Empty, w, Width::Empty),
        Orientation::Horizontal => glyph(Width::Empty, w, Width::Empty, w),
    }
}

/// Character of the first position of `f`, entered from a run of weight `start`.
pub open spec fn head_char(f: BorderFragment, start: Width, o: Orientation) -> char {
    match o {
        Orientation::Vertical => glyph(start, f.left_start, f.width, f.right_start),
        Orientation::Horizontal => glyph(f.left_start, start, f.right_start, f.width),
    }
}

/// Characters of one fragment entered from a run of weight `start`.
pub open spec fn render_fragment(f: BorderFragment, start: Width, o: Orientation) -> Seq<char> {
    Seq::new(
        f.length as nat,
        |i: int|
            if i == 0 {
                head_char(f, start, o)
            } else {
                straight(f.width, o)
            },
    )
}

/// Weight of the run that precedes fragment `k`.
pub open spec fn weight_before(frags: Seq<BorderFragment>, k: int) -> Width {
    if k == 0 {
        Width::Empty
    } else {
        frags[k - 1].width
    }
}

/// Characters of a sequence of fragments, each entered from the one before it.
pub open spec fn render_fragments(frags: Seq<BorderFragment>, o: Orientation) -> Seq<char>
    decreases frags.len(),
{
    if frags.len() == 0 {
        Seq::empty()
    } else {
        render_fragments(frags.drop_last(), o) + render_fragment(
            frags.last(),
            weight_before(frags, frags.len() - 1),
            o,
        )
    }
}

/// Lengths add up over concatenated fragment sequences.
pub proof fn lemma_total_concat(a: Seq<BorderFragment>, b: Seq<BorderFragment>)
    ensures
        total_length(a + b) == total_length(a) + total_length(b),
    decreases b.len(),
{
    if b.len() == 0 {
        assert(a + b =~= a);
    } else {
        assert((a + b).drop_last() =~= a + b.drop_last());
        lemma_total_concat(a, b.drop_last());
    }
}

proof fn lemma_total_small(f0: BorderFragment, f1: BorderFragment)
    ensures
        total_length(seq![f0]) == f0.length,
        total_length(seq![f0, f1]) == f0.length + f1.length,
{
    reveal_with_fuel(total_length, 3);
    assert(seq![f0].drop_last() =~= Seq::<BorderFragment>::empty());
    assert(seq![f0].last() == f0);
    assert(seq![f0, f1].drop_last() =~= seq![f0]);
    assert(seq![f0, f1].last() == f1);
}

/// A border is drawn with one character per position.
pub proof fn lemma_rendered_len(frags: Seq<BorderFragment>, o: Orientation)
    ensures
        render_fragments(frags, o).len() == total_length(frags),
    decreases frags.len(),
{
    if frags.len() > 0 {
        lemma_rendered_len(frags.drop_last(), o);
    }
}

/// Expanding fragments gives one position per unit of length.
pub proof fn lemma_expand_len(frags: Seq<BorderFragment>)
    ensures
        expand(frags).len() == total_length(frags),
    decreases frags.len(),
{
    if frags.len() > 0 {
        lemma_expand_len(frags.drop_last());
    }
}

/// Compressing a sequence of positions loses nothing, and gives maximal
/// fragments of positive length.
pub proof fn lemma_compress(s: Seq<Cross>)
    requires
        s.len() <= usize::MAX,
    ensures
        expand(compress(s)) == s,
        maximal(compress(s)),
        s.len() > 0 ==> compress(s).len() > 0,
        forall|k: int| 0 <= k < compress(s).len() ==> 1 <= #[trigger] compress(s)[k].length <= s.len(),
    decreases s.len(),
{
    if s.len() > 0 {
        let p = compress(s.drop_last());
        let c = s.last();
        lemma_compress(s.drop_last());
        if p.len() > 0 && c.left == Width::Empty && c.right == Width::Empty && c.forward
            == p.last().width {
            let f = p.last();
            let g = BorderFragment { length: (f.length + 1) as usize, ..f };
            let q = p.update(p.len() - 1, g);
            assert(q.drop_last() =~= p.drop_last());
            assert(expand(p) == expand(p.drop_last()) + expand_fragment(f));
            assert(expand_fragment(g) =~= expand_fragment(f).push(c));
            assert(s =~= s.drop_last().push(c));
            assert(expand(q) =~= expand(p).push(c));
        } else {
            let f = BorderFragment { length: 1, width: c.forward, left_start: c.left, right_start: c.right };
            let q = p.push(f);
            assert(q.drop_last() =~= p);
            assert(expand_fragment(f) =~= seq![c]);
            assert(expand(q) =~= s);
        }
    }
}

/// Overlaying two borders does not depend on their order.
pub proof fn lemma_overlay_commutative(a: Seq<Cross>, b: Seq<Cross>)
    requires
        a.len() == b.len(),
    ensures
        overlay(a, b) == overlay(b, a),
{
    assert(overlay(a, b) =~= overlay(b, a));
}

/// Combining two borders of equal length is symmetric.
pub proof fn lemma_combine_commutative(a: Border, b: Border)
    requires
        a.wf(),
        b.wf(),
        a.length == b.length,
    ensures
        a.combined(b) == b.combined(a),
{
    lemma_expand_len(a.fragments@);
    lemma_expand_len(b.fragments@);
    lemma_overlay_commutative(expand(a.fragments@), expand(b.fragments@));
}

/// Sequencing two borders gives a border whose length is the sum of theirs
/// less the shared junction.
pub proof fn lemma_add_after_length(a: Border, b: Border)
    requires
        a.wf(),
        b.wf(),
    ensures
        total_length(joined(a.fragments@, b.fragments@)) == a.length + b.length - 1,
{
    lemma_joined(a.fragments@, b.fragments@);
}

/// The combined border never holds two neighbouring fragments that should
/// have been one.
pub proof fn lemma_combine_maximal(a: Border, b: Border)
    requires
        a.wf(),
        b.wf(),
        a.length == b.length,
    ensures
        maximal(a.combined(b)),
{
    lemma_expand_len(a.fragments@);
    lemma_compress(overlay(expand(a.fragments@), expand(b.fragments@)));
}

proof fn lemma_joined(a: Seq<BorderFragment>, b: Seq<BorderFragment>)
    requires
        a.len() > 0,
        b.len() > 0,
        forall|k: int| 0 <= k < a.len() ==> #[trigger] a[k].length >= 1,
        forall|k: int| 0 <= k < b.len() ==> #[trigger] b[k].length >= 1,
    ensures
        total_length(joined(a, b)) == total_length(a) + total_length(b) - 1,
        joined(a, b).len() > 0,
        forall|k: int| 0 <= k < joined(a, b).len() ==> #[trigger] joined(a, b)[k].length >= 1,
{
    let last = a.last();
    let a0 = a.drop_last();
    let tail = b.subrange(1, b.len() as int);
    assert(b =~= seq![b[0]] + tail);
    lemma_total_concat(seq![b[0]], tail);
    assert(seq![b[0]].drop_last() =~= Seq::<BorderFragment>::empty());
    lemma_total_small(b[0], b[0]);
    assert(total_length(a) == total_length(a0) + last.length);
    let fused = fuse(end_cross(last), b[0]);
    if last.length > 1 {
        let shortened = BorderFragment { length: (last.length - 1) as usize, ..last };
        let head = a0.push(shortened);
        assert(head.drop_last() =~= a0);
        assert(head.push(fused).drop_last() =~= head);
        assert(total_length(head) == total_length(a0) + shortened.length);
        assert(total_length(head.push(fused)) == total_length(head) + fused.length);
        lemma_total_concat(head.push(fused), tail);
        assert(joined(a, b) == head.push(fused) + tail);
    } else {
        assert(a0.push(fused).drop_last() =~= a0);
        assert(total_length(a0.push(fused)) == total_length(a0) + fused.length);
        lemma_total_concat(a0.push(fused), tail);
        assert(joined(a, b) == a0.push(fused) + tail);
    }
}

impl BorderFragment {
    /// A fragment with the given length, weight and junction hints.
    pub fn new(length: usize, width: Width, left_start: Width, right_start: Width) -> (r:
        BorderFragment)
        ensures
            r == (BorderFragment { length, width, left_start, right_start }),
    {
        BorderFragment { length, width, left_start, right_start }
    }

    fn push_chars(&self, start: &Width, orientation: Orientation, out: &mut Vec<char>)
        ensures
            final(out)@ == old(out)@ + render_fragment(*self, *start, orientation),
    {
        let ghost init = out@;
        let (first, rest) = match orientation {
            Orientation::Vertical => (
                Width::draw_char(start, &self.left_start, &self.width, &self.right_start),
                Width::draw_char(&self.width, &Width::Empty, &self.width, &Width::Empty),
            ),
            Orientation::Horizontal => (
                Width::draw_char(&self.left_start, start, &self.right_start, &self.width),
                Width::draw_char(&Width::Empty, &self.width, &Width::Empty, &self.width),
            ),
        };
        let ghost expected = render_fragment(*self, *start, orientation);
        let mut i: usize = 0;
        while i < self.length
            invariant
                i <= self.length,
                expected == render_fragment(*self, *start, orientation),
                first == head_char(*self, *start, orientation),
                rest == straight(self.width, orientation),
                out@ == init + expected.take(i as int),
            decreases self.length - i,
        {
            if i == 0 {
                out.push(first);
            } else {
                out.push(rest);
            }
            assert(expected.take(i + 1) =~= expected.take(i as int).push(expected[i as int]));
            i += 1;
        }
        assert(expected.take(self.length as int) =~= expected);
    }

    /// Characters of the fragment, entered from a run of weight `start`.
    pub fn render_view(&self, start: &Width, orientation: Orientation) -> (r: String)
        ensures
            r@ == render_fragment(*self, *start, orientation),
    {
        let mut view: Vec<char> = Vec::new();
        self.push_chars(start, orientation, &mut view);
        assert(view@ =~= render_fragment(*self, *start, orientation));
        string_from_chars(&view)
    }
}

impl Border {
    /// The fragments are non-empty, each covers at least one position, and
    /// together they cover exactly `length` positions.
    pub open spec fn wf(self) -> bool {
        &&& self.fragments@.len() > 0
        &&& forall|k: int|
            0 <= k < self.fragments@.len() ==> #[trigger] self.fragments@[k].length >= 1
        &&& total_length(self.fragments@) == self.length
    }

    /// The positions of the border.
    pub open spec fn cells(self) -> Seq<Cross> {
        expand(self.fragments@)
    }

    /// Fragments of this border laid over `other`.
    pub open spec fn combined(self, other: Border) -> Seq<BorderFragment> {
        compress(overlay(self.cells(), other.cells()))
    }

    /// Characters of the border drawn in the given orientation.
    pub open spec fn rendered(self, o: Orientation) -> Seq<char> {
        render_fragments(self.fragments@, o)
    }

    /// A border with the same fragments and length.
    pub fn copy(&self) -> (r: Border)
        ensures
            r.fragments@ == self.fragments@,
            r.length == self.length,
    {
        let fragments = self.fragments.clone();
        assert(fragments@ =~= self.fragments@);
        Border { fragments, length: self.length }
    }

    fn new(fragments: Vec<BorderFragment>, length: usize) -> (r: Border)
        ensures
            r.fragments@ == fragments@,
            r.length == length,
    {
        Border { fragments, length }
    }

    /// The border on the left of (or above) a cell of the given size: a run of
    /// `width` ending in a corner that turns towards the cell.
    pub fn default_left(length: usize, width: Width) -> (r: Border)
        requires
            length >= 2,
        ensures
            r.wf(),
            r.length == length,
            r.fragments@ == opening_fragments(length, width),
    {
        let r = Border::new(
            vec![
                BorderFragment::new(length - 1, width, Width::Empty, width),
                BorderFragment::new(1, Width::Empty, Width::Empty, width),
            ],
            length,
        );
        proof {
            lemma_total_small(r.fragments@[0], r.fragments@[1]);
            assert(r.fragments@ =~= seq![r.fragments@[0], r.fragments@[1]]);
        }
        r
    }

    /// The top border of a cell: the same shape as its left border.
    pub fn default_top(length: usize, width: Width) -> (r: Border)
        requires
            length >= 2,
        ensures
            r.wf(),
            r.length == length,
            r.fragments@ == opening_fragments(length, width),
    {
        Border::default_left(length, width)
    }

    /// The border on the right of (or below) a cell of the given size.
    pub fn default_right(length: usize, width: Width) -> (r: Border)
        requires
            length >= 2,
        ensures
            r.wf(),
            r.length == length,
            r.fragments@ == closing_fragments(length, width),
    {
        let r = Border::new(
            vec![
                BorderFragment::new(length - 1, width, width, Width::Empty),
                BorderFragment::new(1, Width::Empty, width, Width::Empty),
            ],
            length,
        );
        proof {
            lemma_total_small(r.fragments@[0], r.fragments@[1]);
            assert(r.fragments@ =~= seq![r.fragments@[0], r.fragments@[1]]);
        }
        r
    }

    /// The bottom border of a cell: the same shape as its right border.
    pub fn default_bottom(length: usize, width: Width) -> (r: Border)
        requires
            length >= 2,
        ensures
            r.wf(),
            r.length == length,
            r.fragments@ == closing_fragments(length, width),
    {
        Border::default_right(length, width)
    }

    /// This border followed by `other`, sharing one junction position whose
    /// weights are combined into `other`'s first fragment. When this border's
    /// last fragment covers more than the junction, it keeps its other
    /// positions, one shorter, and only the junction is fused; the result
    /// always covers `self.length + other.length - 1` positions.
    pub fn add_after(&self, other: &Border) -> (r: Border)
        requires
            self.wf(),
            other.wf(),
            self.length + other.length - 1 <= usize::MAX,
        ensures
            r.wf(),
            r.length == self.length + other.length - 1,
            r.fragments@ == joined(self.fragments@, other.fragments@),
    {
        let n = self.fragments.len();
        let m = other.fragments.len();
        let mut fragments: Vec<BorderFragment> = Vec::new();
        let mut k: usize = 0;
        while k + 1 < n
            invariant
                n == self.fragments@.len(),
                k < n,
                fragments@ == self.fragments@.take(k as int),
            decreases n - k,
        {
            fragments.push(self.fragments[k]);
            assert(self.fragments@.take(k + 1) =~= self.fragments@.take(k as int).push(
                self.fragments@[k as int],
            ));
            k += 1;
        }
        assert(fragments@ =~= self.fragments@.drop_last());
        let last = self.fragments[n - 1];
        let first = other.fragments[0];
        let (jw, jl, jr) = if last.length > 1 {
            fragments.push(BorderFragment::new(last.length - 1, last.width, last.left_start, last.right_start));
            (last.width, Width::Empty, Width::Empty)
        } else {
            (last.width, last.left_start, last.right_start)
        };
        assert(end_cross(last) == (Cross { forward: jw, left: jl, right: jr }));
        fragments.push(
            BorderFragment::new(
                first.length,
                jw.combine(&first.width),
                jl.combine(&first.left_start),
                jr.combine(&first.right_start),
            ),
        );
        let ghost head = fragments@;
        let mut j: usize = 1;
        while j < m
            invariant
                m == other.fragments@.len(),
                1 <= j <= m,
                fragments@ == head + other.fragments@.subrange(1, j as int),
            decreases m - j,
        {
            fragments.push(other.fragments[j]);
            assert(other.fragments@.subrange(1, j + 1) =~= other.fragments@.subrange(1, j as int).push(
                other.fragments@[j as int],
            ));
            j += 1;
        }
        proof {
            lemma_joined(self.fragments@, other.fragments@);
            assert(fragments@ =~= joined(self.fragments@, other.fragments@));
        }
        Border::new(fragments, self.length - 1 + other.length)
    }

    fn cells_exec(&self) -> (r: Vec<Cross>)
        ensures
            r@ == expand(self.fragments@),
    {
        let n = self.fragments.len();
        let mut r: Vec<Cross> = Vec::new();
        let mut k: usize = 0;
        while k < n
            invariant
                n == self.fragments@.len(),
                k <= n,
                r@ == expand(self.fragments@.take(k as int)),
            decreases n - k,
        {
            let f = self.fragments[k];
            let ghost before = r@;
            let mut j: usize = 0;
            while j < f.length
                invariant
                    j <= f.length,
                    r@ == before + expand_fragment(f).take(j as int),
                decreases f.length - j,
            {
                if j == 0 {
                    r.push(Cross { forward: f.width, left: f.left_start, right: f.right_start });
                } else {
                    r.push(Cross { forward: f.width, left: Width::Empty, right: Width::Empty });
                }
                assert(expand_fragment(f).take(j + 1) =~= expand_fragment(f).take(j as int).push(
                    expand_fragment(f)[j as int],
                ));
                j += 1;
            }
            assert(expand_fragment(f).take(f.length as int) =~= expand_fragment(f));
            assert(self.fragments@.take(k + 1).drop_last() =~= self.fragments@.take(k as int));
            k += 1;
        }
        assert(self.fragments@.take(n as int) =~= self.fragments@);
        r
    }

    /// This border laid over `other`, a border of the same length on the same
    /// line: at every position the weights of both are combined, and the result
    /// is cut into maximal fragments again.
    pub fn combine(&self, other: &Border) -> (r: Border)
        requires
            self.wf(),
            other.wf(),
            self.length == other.length,
        ensures
            r.wf(),
            r.length == self.length,
            r.fragments@ == self.combined(*other),
            r.cells() == overlay(self.cells(), other.cells()),
            maximal(r.fragments@),
    {
        let a = self.cells_exec();
        let b = other.cells_exec();
        proof {
            lemma_expand_len(self.fragments@);
            lemma_expand_len(other.fragments@);
        }
        let n = a.len();
        let mut chars: Vec<Cross> = Vec::new();
        let mut i: usize = 0;
        while i < n
            invariant
                n == a@.len(),
                a@.len() == b@.len(),
                i <= n,
                chars@ == overlay(a@, b@).take(i as int),
            decreases n - i,
        {
            let x = a[i];
            let y = b[i];
            chars.push(
                Cross {
                    forward: x.forward.combine(&y.forward),
                    left: x.left.combine(&y.left),
                    right: x.right.combine(&y.right),
                },
            );
            assert(overlay(a@, b@).take(i + 1) =~= overlay(a@, b@).take(i as int).push(
                overlay(a@, b@)[i as int],
            ));
            i += 1;
        }
        assert(chars@ =~= overlay(a@, b@));
        let mut fragments: Vec<BorderFragment> = Vec::new();
        let mut i: usize = 0;
        while i < n
            invariant
                n == chars@.len(),
                i <= n,
                fragments@ == compress(chars@.take(i as int)),
            decreases n - i,
        {
            let c = chars[i];
            proof {
                lemma_compress(chars@.take(i as int));
                assert(chars@.take(i + 1).drop_last() =~= chars@.take(i as int));
            }
            let len = fragments.len();
            if len > 0 && c.left == Width::Empty && c.right == Width::Empty && c.forward
                == fragments[len - 1].width {
                let f = fragments[len - 1];
                fragments[len - 1] = BorderFragment::new(f.length + 1, f.width, f.left_start, f.right_start);
            } else {
                fragments.push(BorderFragment::new(1, c.forward, c.left, c.right));
            }
            i += 1;
        }
        proof {
            assert(chars@.take(n as int) =~= chars@);
            lemma_compress(chars@);
            lemma_expand_len(fragments@);
        }
        Border::new(fragments, self.length)
    }

    pub(crate) fn render_chars(&self, orientation: Orientation) -> (r: Vec<char>)
        ensures
            r@ == self.rendered(orientation),
    {
        let n = self.fragments.len();
        let mut view: Vec<char> = Vec::new();
        let mut prev = Width::Empty;
        let mut k: usize = 0;
        while k < n
            invariant
                n == self.fragments@.len(),
                k <= n,
                prev == weight_before(self.fragments@, k as int),
                view@ == render_fragments(self.fragments@.take(k as int), orientation),
            decreases n - k,
        {
            let f = self.fragments[k];
            f.push_chars(&prev, orientation, &mut view);
            proof {
                let t = self.fragments@.take(k + 1);
                assert(t.drop_last() =~= self.fragments@.take(k as int));
                assert(weight_before(t, k as int) == weight_before(self.fragments@, k as int));
            }
            prev = f.width;
            k += 1;
        }
        assert(self.fragments@.take(n as int) =~= self.fragments@);
        view
    }

    /// Characters of the border drawn in the given orientation.
    pub fn render_view(&self, orientation: Orientation) -> (r: String)
        ensures
            r@ == self.rendered(orientation),
    {
        let view = self.render_chars(orientation);
        string_from_chars(&view)
    }
}

} // verus!
