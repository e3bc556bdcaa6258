use vstd::prelude::*;

use core::ops::Range;

use crate::config::{sum_of, Bound, CellConfig};

verus! {

/// The row heights and column widths shared by a whole cell tree.
#[derive(Debug)]
pub struct Grid {
    pub heights: Vec<usize>,
    pub widths: Vec<usize>,
}

/// A read-only view of some consecutive rows and columns of a grid.
#[derive(Debug)]
pub struct GridSlice<'a> {
    pub heights: &'a [usize],
    pub widths: &'a [usize],
}

/// A writable view of some consecutive rows and columns of a grid.
#[derive(Debug)]
pub struct GridSliceMut<'a> {
    pub heights: &'a mut [usize],
    pub widths: &'a mut [usize],
}

/// `n` zero entries.
pub open spec fn zeros(n: nat) -> Seq<usize> {
    Seq::new(n, |i: int| 0usize)
}

/// The interior size of a block of grid rows or columns: each entry holds one
/// border line, and the last border line lies outside the block.
pub open spec fn interior(s: Seq<usize>) -> int {
    sum_of(s) - 1
}

/// The entries sum to at least 1, and to less than the largest `usize`, so
/// that the cell's frame size fits.
pub open spec fn spans_drawable(s: Seq<usize>) -> bool {
    1 <= sum_of(s) < usize::MAX
}

/// The amount by which `increase_to_size` raises entry `i` of a block of
/// `count` entries whose sum falls short of the target by `diff`.
pub open spec fn share(diff: int, count: int, i: int) -> int {
    diff / count + if i < diff % count {
        1int
    } else {
        0int
    }
}

/// The entries raised until they sum to `size`, the shortfall spread as
/// `increase_to_size` spreads it; entries that already reach `size` stay.
pub open spec fn raised(s: Seq<usize>, size: usize) -> Seq<usize> {
    if sum_of(s) >= size {
        s
    } else {
        Seq::new(s.len(), |i: int| (s[i] + share(size - sum_of(s), s.len() as int, i)) as usize)
    }
}

/// The sum of a prefix grows by the next entry.
pub proof fn lemma_sum_take_step(s: Seq<usize>, k: int)
    requires
        0 <= k < s.len(),
    ensures
        sum_of(s.take(k + 1)) == sum_of(s.take(k)) + s[k],
{
    assert(s.take(k + 1).drop_last() =~= s.take(k));
}

/// Sums add up over concatenated sequences.
pub proof fn lemma_sum_concat(a: Seq<usize>, b: Seq<usize>)
    ensures
        sum_of(a + b) == sum_of(a) + sum_of(b),
    decreases b.len(),
{
    if b.len() == 0 {
        assert(a + b =~= a);
    } else {
        assert((a + b).drop_last() =~= a + b.drop_last());
        lemma_sum_concat(a, b.drop_last());
    }
}

/// The sum of the first `b` entries splits at `a`, and is at most the whole sum.
pub proof fn lemma_sum_split(s: Seq<usize>, a: int, b: int)
    requires
        0 <= a <= b <= s.len(),
    ensures
        sum_of(s.take(b)) == sum_of(s.take(a)) + sum_of(s.subrange(a, b)),
        sum_of(s.take(b)) <= sum_of(s),
{
    assert(s.take(b) =~= s.take(a) + s.subrange(a, b));
    lemma_sum_concat(s.take(a), s.subrange(a, b));
    assert(s =~= s.take(b) + s.skip(b));
    lemma_sum_concat(s.take(b), s.skip(b));
}

proof fn lemma_entry_le_sum(s: Seq<usize>, i: int)
    requires
        0 <= i < s.len(),
    ensures
        s[i] <= sum_of(s),
    decreases s.len(),
{
    if i < s.len() - 1 {
        lemma_entry_le_sum(s.drop_last(), i);
    }
}

/// The sum of `new` is that of `old` plus the shares, when each entry grows by
/// its share.
proof fn lemma_sum_shares(old_s: Seq<usize>, new_s: Seq<usize>, diff: int, count: int, n: int)
    requires
        count == old_s.len() == new_s.len(),
        count > 0,
        diff >= 0,
        0 <= n <= count,
        forall|i: int| 0 <= i < count ==> #[trigger] new_s[i] == old_s[i] + share(diff, count, i),
    ensures
        sum_of(new_s.take(n)) == sum_of(old_s.take(n)) + n * (diff / count) + if n < diff % count {
            n
        } else {
            diff % count
        },
    decreases n,
{
    let q = diff / count;
    let r = diff % count;
    if n > 0 {
        lemma_sum_shares(old_s, new_s, diff, count, n - 1);
        lemma_sum_take_step(old_s, n - 1);
        lemma_sum_take_step(new_s, n - 1);
        assert(new_s[n - 1] == old_s[n - 1] + share(diff, count, n - 1));
        assert(n * q == (n - 1) * q + q) by (nonlinear_arith);
    } else {
        assert(n * q == 0) by (nonlinear_arith)
            requires
                n == 0,
        ;
        assert(old_s.take(n).len() == 0);
        assert(new_s.take(n).len() == 0);
    }
}

/// Raises the entries of `slice` until they sum to `size`, spreading the
/// shortfall as evenly as possible: every entry gets the same share, and the
/// first `shortfall % count` entries one more. Entries that already sum to
/// `size` or more are left alone.
pub fn increase_to_size(slice: &mut [usize], size: usize)
    requires
        old(slice)@.len() > 0 || size == 0,
    ensures
        final(slice)@ == raised(old(slice)@, size),
        final(slice)@.len() == old(slice)@.len(),
        sum_of(old(slice)@) >= size ==> final(slice)@ == old(slice)@,
        sum_of(old(slice)@) < size ==> {
            &&& sum_of(final(slice)@) == size
            &&& forall|i: int|
                0 <= i < old(slice)@.len() ==> #[trigger] final(slice)@[i] == old(slice)@[i] + share(
                    size - sum_of(old(slice)@),
                    old(slice)@.len() as int,
                    i,
                )
            &&& forall|i: int, j: int|
                0 <= i < old(slice)@.len() && 0 <= j < old(slice)@.len() ==> (final(slice)@[i]
                    - old(slice)@[i]) - (final(slice)@[j] - old(slice)@[j]) <= 1
        },
{
    let ghost orig = slice@;
    let count = slice.len();
    let mut sum: usize = 0;
    let mut i: usize = 0;
    while i < count
        invariant
            count == slice@.len(),
            slice@ == orig,
            i <= count,
            sum == sum_of(orig.take(i as int)),
            sum < size || (i == 0 && size == 0),
        decreases count - i,
    {
        proof {
            lemma_sum_take_step(orig, i as int);
        }
        if slice[i] >= size - sum {
            proof {
                lemma_sum_concat(orig.take(i + 1), orig.skip(i + 1));
                assert(orig.take(i + 1) + orig.skip(i + 1) =~= orig);
            }
            return;
        }
        sum = sum + slice[i];
        i += 1;
    }
    assert(orig.take(count as int) =~= orig);
    if sum >= size {
        return;
    }
    let diff = size - sum;
    let q = diff / count;
    let r = diff % count;
    proof {
        assert(diff == count * q + r) by (nonlinear_arith)
            requires
                count > 0,
                q == diff / count,
                r == diff % count,
        ;
        assert(q <= diff) by (nonlinear_arith)
            requires
                count > 0,
                q == diff / count,
                diff >= 0,
        ;
    }
    let mut k: usize = 0;
    while k < count
        invariant
            count == slice@.len() == orig.len(),
            count > 0,
            sum == sum_of(orig),
            sum < size,
            diff == size - sum,
            q == diff / count,
            r == diff % count,
            q <= diff,
            k <= count,
            forall|t: int| 0 <= t < k ==> #[trigger] slice@[t] == orig[t] + q,
            forall|t: int| k <= t < count ==> #[trigger] slice@[t] == orig[t],
        decreases count - k,
    {
        proof {
            lemma_entry_le_sum(orig, k as int);
        }
        let v = slice[k];
        slice[k] = v + q;
        k += 1;
    }
    proof {
        if r > 0 {
            assert(q + 1 <= diff) by (nonlinear_arith)
                requires
                    diff == count * q + r,
                    r > 0,
                    count > 0,
                    q >= 0,
            ;
        }
    }
    let mut k: usize = 0;
    while k < r
        invariant
            count == slice@.len() == orig.len(),
            count > 0,
            sum == sum_of(orig),
            sum < size,
            diff == size - sum,
            diff == count * q + r,
            q == diff / count,
            r == diff % count,
            r < count,
            k <= r,
            forall|t: int| 0 <= t < k ==> #[trigger] slice@[t] == orig[t] + q + 1,
            r > 0 ==> q + 1 <= diff,
            forall|t: int| k <= t < count ==> #[trigger] slice@[t] == orig[t] + q,
        decreases r - k,
    {
        proof {
            lemma_entry_le_sum(orig, k as int);
        }
        let v = slice[k];
        assert(v == orig[k as int] + q);
        assert(orig[k as int] <= sum);
        assert(v + 1 <= size);
        slice[k] = v + 1;
        k += 1;
    }
    proof {
        let fin = slice@;
        assert forall|t: int| 0 <= t < count implies #[trigger] fin[t] == orig[t] + share(
            diff as int,
            count as int,
            t,
        ) by {}
        lemma_sum_shares(orig, fin, diff as int, count as int, count as int);
        assert(orig.take(count as int) =~= orig);
        assert(fin.take(count as int) =~= fin);
        assert(fin =~= raised(orig, size));
    }
}

/// Sum of the entries, or `None` where it does not fit in a `usize`.
pub fn checked_sum(s: &[usize]) -> (r: Option<usize>)
    ensures
        r matches Some(v) ==> v == sum_of(s@),
        r is None <==> sum_of(s@) > usize::MAX,
{
    let mut acc: usize = 0;
    let mut i: usize = 0;
    while i < s.len()
        invariant
            i <= s@.len(),
            acc == sum_of(s@.take(i as int)),
        decreases s@.len() - i,
    {
        proof {
            lemma_sum_take_step(s@, i as int);
        }
        if s[i] > usize::MAX - acc {
            proof {
                lemma_sum_concat(s@.take(i + 1), s@.skip(i + 1));
                assert(s@.take(i + 1) + s@.skip(i + 1) =~= s@);
            }
            return None;
        }
        acc = acc + s[i];
        i += 1;
    }
    assert(s@.take(s@.len() as int) =~= s@);
    Some(acc)
}

impl Grid {
    /// A grid of zero-sized rows and columns, as many as the configuration spans.
    pub fn new(config: &CellConfig) -> (r: Grid)
        ensures
            r.heights@ == zeros(config.span_height as nat),
            r.widths@ == zeros(config.span_width as nat),
    {
        let heights = vec![0usize; config.span_height];
        let widths = vec![0usize; config.span_width];
        assert(heights@ =~= zeros(config.span_height as nat));
        assert(widths@ =~= zeros(config.span_width as nat));
        Grid { heights, widths }
    }

    /// A writable view of the whole grid.
    pub fn slice_mut(&mut self) -> (r: GridSliceMut<'_>)
        ensures
            r.heights@ == old(self).heights@,
            r.widths@ == old(self).widths@,
            final(self).heights@ == final(r.heights)@,
            final(self).widths@ == final(r.widths)@,
    {
        GridSliceMut { heights: self.heights.as_mut_slice(), widths: self.widths.as_mut_slice() }
    }

    /// A read-only view of the whole grid.
    pub fn slice(&self) -> (r: GridSlice<'_>)
        ensures
            r.heights@ == self.heights@,
            r.widths@ == self.widths@,
    {
        GridSlice { heights: self.heights.as_slice(), widths: self.widths.as_slice() }
    }
}

pub(crate) fn sub_mut<'a>(s: &'a mut [usize], range: Range<usize>) -> (r: &'a mut [usize])
    requires
        range.start <= range.end <= old(s)@.len(),
    ensures
        r@ == old(s)@.subrange(range.start as int, range.end as int),
        final(s)@ == old(s)@.subrange(0, range.start as int) + final(r)@ + old(s)@.subrange(
            range.end as int,
            old(s)@.len() as int,
        ),
{
    let (_, rest) = s.split_at_mut(range.start);
    let (mid, _) = rest.split_at_mut(range.end - range.start);
    proof {
        assert(old(s)@.subrange(0, range.start as int) + old(s)@.subrange(range.start as int, old(s)@.len() as int) =~= old(s)@);
    }
    mid
}

impl<'a> GridSliceMut<'a> {
    /// The rows in `range_height` and the columns in `range_width` of this view.
    pub fn slice_mut(&mut self, range_height: Range<usize>, range_width: Range<usize>) -> (r:
        GridSliceMut<'_>)
        requires
            range_height.start <= range_height.end <= old(self).heights@.len(),
            range_width.start <= range_width.end <= old(self).widths@.len(),
        ensures
            r.heights@ == old(self).heights@.subrange(range_height.start as int, range_height.end as int),
            r.widths@ == old(self).widths@.subrange(range_width.start as int, range_width.end as int),
            final(self).heights@ == old(self).heights@.subrange(0, range_height.start as int)
                + final(r.heights)@ + old(self).heights@.subrange(
                range_height.end as int,
                old(self).heights@.len() as int,
            ),
            final(self).widths@ == old(self).widths@.subrange(0, range_width.start as int)
                + final(r.widths)@ + old(self).widths@.subrange(
                range_width.end as int,
                old(self).widths@.len() as int,
            ),
    {
        GridSliceMut {
            heights: sub_mut(self.heights, range_height),
            widths: sub_mut(self.widths, range_width),
        }
    }

    /// The interior size of the cell drawn over this view.
    pub fn get_bound(&self) -> (r: Bound)
        requires
            spans_drawable(self.heights@),
            spans_drawable(self.widths@),
        ensures
            r.pt_height == interior(old(self.heights)@),
            r.pt_width == interior(old(self.widths)@),
    {
        let h = checked_sum(self.heights);
        let w = checked_sum(self.widths);
        match (h, w) {
            (Some(h), Some(w)) => Bound::new(h - 1, w - 1),
            _ => Bound::new(0, 0),
        }
    }
}

impl<'a> GridSlice<'a> {
    /// The rows in `range_height` and the columns in `range_width` of this view.
    pub fn slice(&self, range_height: Range<usize>, range_width: Range<usize>) -> (r: GridSlice<'a>)
        requires
            range_height.start <= range_height.end <= self.heights@.len(),
            range_width.start <= range_width.end <= self.widths@.len(),
        ensures
            r.heights@ == self.heights@.subrange(range_height.start as int, range_height.end as int),
            r.widths@ == self.widths@.subrange(range_width.start as int, range_width.end as int),
    {
        GridSlice {
            heights: vstd::slice::slice_subrange(self.heights, range_height.start, range_height.end),
            widths: vstd::slice::slice_subrange(self.widths, range_width.start, range_width.end),
        }
    }

    /// Whether a cell can be drawn over this view: both sums are at least 1
    /// and fit in a `usize`.
    pub fn is_drawable(&self) -> (r: bool)
        ensures
            r == (spans_drawable(self.heights@) && spans_drawable(self.widths@)),
    {
        match (checked_sum(self.heights), checked_sum(self.widths)) {
            (Some(h), Some(w)) => h >= 1 && w >= 1 && h < usize::MAX && w < usize::MAX,
            _ => false,
        }
    }

    /// The interior size of the cell drawn over this view.
    pub fn get_bound(&self) -> (r: Bound)
        requires
            spans_drawable(self.heights@),
            spans_drawable(self.widths@),
        ensures
            r.pt_height == interior(self.heights@),
            r.pt_width == interior(self.widths@),
    {
        let h = checked_sum(self.heights);
        let w = checked_sum(self.widths);
        match (h, w) {
            (Some(h), Some(w)) => Bound::new(h - 1, w - 1),
            _ => Bound::new(0, 0),
        }
    }
}

} // verus!
