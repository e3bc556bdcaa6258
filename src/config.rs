use vstd::arithmetic::div_mod::{
    lemma_fundamental_div_mod, lemma_fundamental_div_mod_converse_div,
    lemma_fundamental_div_mod_converse_mod,
};
use vstd::prelude::*;
use vstd::string::StringSliceAdditionalSpecFns;

use crate::width::Width;



verus! {

// ---------------------------------------------------------------- arithmetic

/// Greatest common divisor, by Euclid's algorithm.
pub open spec fn spec_gcd(a: nat, b: nat) -> nat
    decreases a,
{
    if a == 0 {
        b
    } else {
        spec_gcd(b % a, a)
    }
}

/// Least common multiple.
pub open spec fn spec_lcm(a: nat, b: nat) -> nat {
    if spec_gcd(a, b) == 0 {
        0
    } else {
        a * b / spec_gcd(a, b)
    }
}

/// The least common multiple of all values, starting from 1.
pub open spec fn lcm_fold(s: Seq<usize>) -> nat
    decreases s.len(),
{
    if s.len() == 0 {
        1
    } else {
        spec_lcm(lcm_fold(s.drop_last()), s.last() as nat)
    }
}

/// Every step of `lcm_fold` multiplies values whose product fits in a `usize`.
pub open spec fn lcm_fold_fits(s: Seq<usize>) -> bool {
    forall|k: int| 0 <= k < s.len() ==> lcm_fold(#[trigger] s.take(k)) * s[k] <= usize::MAX
}

/// Sum of the values.
pub open spec fn sum_of(s: Seq<usize>) -> nat
    decreases s.len(),
{
    if s.len() == 0 {
        0
    } else {
        sum_of(s.drop_last()) + s.last() as nat
    }
}

/// Largest of the values, 0 for none.
pub open spec fn max_of(s: Seq<usize>) -> nat
    decreases s.len(),
{
    if s.len() == 0 {
        0
    } else if max_of(s.drop_last()) >= s.last() {
        max_of(s.drop_last())
    } else {
        s.last() as nat
    }
}

proof fn lemma_multiple_mod(n: int, d: int, q: int)
    requires
        d > 0,
        n == d * q,
    ensures
        n % d == 0,
        n / d == q,
{
    assert(n == q * d + 0) by (nonlinear_arith)
        requires
            n == d * q,
    ;
    lemma_fundamental_div_mod_converse_mod(n, d, q, 0);
    lemma_fundamental_div_mod_converse_div(n, d, q, 0);
}

proof fn lemma_mod_quotient(n: int, d: int)
    requires
        d > 0,
        n % d == 0,
    ensures
        n == d * (n / d),
{
    lemma_fundamental_div_mod(n, d);
}

/// The greatest common divisor of two values, not both 0, is positive and
/// divides both.
pub proof fn lemma_gcd_divides(a: nat, b: nat)
    requires
        a > 0 || b > 0,
    ensures
        spec_gcd(a, b) > 0,
        a % spec_gcd(a, b) == 0,
        b % spec_gcd(a, b) == 0,
    decreases a,
{
    let g = spec_gcd(a, b);
    if a == 0 {
        lemma_multiple_mod(0, b as int, 0);
        lemma_multiple_mod(b as int, b as int, 1);
    } else {
        let r = b % a;
        lemma_gcd_divides(r, a);
        lemma_mod_quotient(r as int, g as int);
        lemma_mod_quotient(a as int, g as int);
        lemma_fundamental_div_mod(b as int, a as int);
        let qa = a as int / g as int;
        let qr = r as int / g as int;
        let qb = b as int / a as int;
        assert(b == g * (qa * qb + qr)) by (nonlinear_arith)
            requires
                b == a * qb + r,
                a == g * qa,
                r == g * qr,
        ;
        lemma_multiple_mod(b as int, g as int, qa * qb + qr);
    }
}

/// Every common divisor of two values divides their greatest common divisor.
pub proof fn lemma_gcd_greatest(a: nat, b: nat, d: nat)
    requires
        d > 0,
        a % d == 0,
        b % d == 0,
    ensures
        spec_gcd(a, b) % d == 0,
    decreases a,
{
    if a > 0 {
        let r = b % a;
        lemma_fundamental_div_mod(b as int, a as int);
        lemma_mod_quotient(a as int, d as int);
        lemma_mod_quotient(b as int, d as int);
        let qa = a as int / d as int;
        let qb = b as int / d as int;
        let k = b as int / a as int;
        assert(r == d * (qb - qa * k)) by (nonlinear_arith)
            requires
                b == a * k + r,
                a == d * qa,
                b == d * qb,
        ;
        lemma_multiple_mod(r as int, d as int, qb - qa * k);
        lemma_gcd_greatest(r, a, d);
    }
}

/// The least common multiple of two positive values is positive and a
/// multiple of both.
pub proof fn lemma_lcm_multiple(a: nat, b: nat)
    requires
        a > 0,
        b > 0,
    ensures
        spec_lcm(a, b) > 0,
        spec_lcm(a, b) % a == 0,
        spec_lcm(a, b) % b == 0,
{
    let g = spec_gcd(a, b);
    lemma_gcd_divides(a, b);
    lemma_mod_quotient(a as int, g as int);
    lemma_mod_quotient(b as int, g as int);
    let qa = a as int / g as int;
    let qb = b as int / g as int;
    assert(a * b == g * (a * qb)) by (nonlinear_arith)
        requires
            b == g * qb,
    ;
    lemma_multiple_mod((a * b) as int, g as int, a * qb);
    assert(a * qb == b * qa) by (nonlinear_arith)
        requires
            a == g * qa,
            b == g * qb,
    ;
    lemma_multiple_mod(a * qb, a as int, qb);
    lemma_multiple_mod(a * qb, b as int, qa);
    assert(qb > 0) by (nonlinear_arith)
        requires
            b == g * qb,
            b > 0,
            g > 0,
    ;
    assert(a * qb > 0) by (nonlinear_arith)
        requires
            a > 0,
            qb > 0,
    ;
}

proof fn lemma_mod_transitive(x: int, y: int, z: int)
    requires
        y > 0,
        z > 0,
        x % y == 0,
        y % z == 0,
    ensures
        x % z == 0,
{
    lemma_mod_quotient(x, y);
    lemma_mod_quotient(y, z);
    let p = x / y;
    let q = y / z;
    assert(x == z * (q * p)) by (nonlinear_arith)
        requires
            x == y * p,
            y == z * q,
    ;
    lemma_multiple_mod(x, z, q * p);
}

/// The least common multiple of positive values is positive and a multiple
/// of each of them.
pub proof fn lemma_lcm_fold_multiple(s: Seq<usize>, k: int)
    requires
        forall|j: int| 0 <= j < s.len() ==> #[trigger] s[j] > 0,
        0 <= k < s.len(),
    ensures
        lcm_fold(s) > 0,
        lcm_fold(s) % (s[k] as nat) == 0,
    decreases s.len(),
{
    let p = s.drop_last();
    let x = s.last() as nat;
    if s.len() == 1 {
        assert(p.len() == 0);
        lemma_lcm_multiple(1, x);
    } else {
        lemma_lcm_fold_multiple(p, 0);
        lemma_lcm_multiple(lcm_fold(p), x);
        if k < s.len() - 1 {
            lemma_lcm_fold_multiple(p, k);
            lemma_mod_transitive(lcm_fold(s) as int, lcm_fold(p) as int, s[k] as int);
        }
    }
}

/// A span that is the least common multiple of its children's spans, scaled
/// by any ratio, holds each child's span a whole number of times: scaling the
/// child by that number gives the span exactly.
pub proof fn lemma_span_reconciled(spans: Seq<usize>, k: int, ratio: usize)
    requires
        forall|j: int| 0 <= j < spans.len() ==> #[trigger] spans[j] > 0,
        0 <= k < spans.len(),
        lcm_fold(spans) * ratio <= usize::MAX,
    ensures
        spans[k] * ((lcm_fold(spans) * ratio) as int / spans[k] as int) == lcm_fold(spans) * ratio,
{
    lemma_lcm_fold_multiple(spans, k);
    let l = lcm_fold(spans) as int;
    let d = spans[k] as int;
    lemma_mod_quotient(l, d);
    let q = l / d;
    assert(l * ratio == d * (q * ratio)) by (nonlinear_arith)
        requires
            l == d * q,
    ;
    lemma_multiple_mod(l * ratio, d, q * ratio);
}

/// Greatest common divisor of `a` and `b`.
pub fn gcd(a: usize, b: usize) -> (r: usize)
    ensures
        r == spec_gcd(a as nat, b as nat),
{
    let mut u = a;
    let mut v = b;
    loop
        invariant
            spec_gcd(u as nat, v as nat) == spec_gcd(a as nat, b as nat),
        decreases u,
    {
        if u == 0 {
            assert(spec_gcd(0, v as nat) == v);
            return v;
        }
        assert(spec_gcd(u as nat, v as nat) == spec_gcd((v % u) as nat, u as nat));
        v = v % u;
        if v == 0 {
            assert(spec_gcd(0, u as nat) == u);
            return u;
        }
        assert(spec_gcd(v as nat, u as nat) == spec_gcd((u % v) as nat, v as nat));
        u = u % v;
    }
}

/// Least common multiple of `a` and `b`.
pub fn lcm(a: usize, b: usize) -> (r: usize)
    requires
        a * b <= usize::MAX,
    ensures
        r == spec_lcm(a as nat, b as nat),
{
    let g = gcd(a, b);
    if g == 0 {
        0
    } else {
        a * b / g
    }
}

/// The larger of two values.
pub open spec fn spec_max(a: usize, b: usize) -> usize {
    if a > b {
        a
    } else {
        b
    }
}

/// The larger of two values.
pub fn max(a: usize, b: usize) -> (r: usize)
    ensures
        r == spec_max(a, b),
{
    if a > b {
        a
    } else {
        b
    }
}

/// A value collected along a column: sizes stack up, widths take the widest.
pub struct Vertical<T>(pub T);

/// A value collected along a row: sizes line up, heights take the tallest.
pub struct Horizontal<T>(pub T);

// ---------------------------------------------------------------- bounds

/// A size in character cells.
#[derive(Clone, Copy, Debug, PartialEq, Eq, Structural)]
pub struct Bound {
    pub pt_height: usize,
    pub pt_width: usize,
}

/// The smallest size at which a cell can be drawn and the size it asks for.
#[derive(Clone, Copy, Debug, PartialEq, Eq, Structural)]
pub struct CellBounds {
    pub min: Bound,
    pub rec: Bound,
}

pub open spec fn heights_of(s: Seq<Bound>) -> Seq<usize> {
    s.map_values(|b: Bound| b.pt_height)
}

pub open spec fn widths_of(s: Seq<Bound>) -> Seq<usize> {
    s.map_values(|b: Bound| b.pt_width)
}

pub open spec fn mins_of(s: Seq<CellBounds>) -> Seq<Bound> {
    s.map_values(|b: CellBounds| b.min)
}

pub open spec fn recs_of(s: Seq<CellBounds>) -> Seq<Bound> {
    s.map_values(|b: CellBounds| b.rec)
}

/// The bounds stack up along a column and fit in `usize`.
pub open spec fn stack_fits(s: Seq<Bound>) -> bool {
    sum_of(heights_of(s)) <= usize::MAX
}

/// The bounds line up along a row and fit in `usize`.
pub open spec fn line_fits(s: Seq<Bound>) -> bool {
    sum_of(widths_of(s)) <= usize::MAX
}

/// The sum of a prefix is at most the whole sum.
pub proof fn lemma_sum_prefix(s: Seq<usize>, k: int)
    requires
        0 <= k <= s.len(),
    ensures
        sum_of(s.take(k)) <= sum_of(s),
    decreases s.len() - k,
{
    if k < s.len() {
        lemma_sum_prefix(s, k + 1);
        assert(s.take(k + 1).drop_last() =~= s.take(k));
    } else {
        assert(s.take(k) =~= s);
    }
}

/// Sum of a sequence of values that fits in a `usize`.
fn sum_exec(s: &Vec<usize>) -> (r: usize)
    requires
        sum_of(s@) <= usize::MAX,
    ensures
        r == sum_of(s@),
{
    let mut r: usize = 0;
    let mut i: usize = 0;
    while i < s.len()
        invariant
            i <= s@.len(),
            sum_of(s@) <= usize::MAX,
            r == sum_of(s@.take(i as int)),
        decreases s@.len() - i,
    {
        proof {
            assert(s@.take(i + 1).drop_last() =~= s@.take(i as int));
            lemma_sum_prefix(s@, i + 1);
        }
        r = r + s[i];
        i += 1;
    }
    assert(s@.take(s@.len() as int) =~= s@);
    r
}

/// Largest of a sequence of values, 0 for none.
fn max_exec(s: &Vec<usize>) -> (r: usize)
    ensures
        r == max_of(s@),
{
    let mut r: usize = 0;
    let mut i: usize = 0;
    while i < s.len()
        invariant
            i <= s@.len(),
            r == max_of(s@.take(i as int)),
        decreases s@.len() - i,
    {
        assert(s@.take(i + 1).drop_last() =~= s@.take(i as int));
        r = max(r, s[i]);
        i += 1;
    }
    assert(s@.take(s@.len() as int) =~= s@);
    r
}

/// The least common multiple of all values, starting from 1.
fn lcm_exec(s: &Vec<usize>) -> (r: usize)
    requires
        lcm_fold_fits(s@),
    ensures
        r == lcm_fold(s@),
{
    let mut r: usize = 1;
    let mut i: usize = 0;
    while i < s.len()
        invariant
            i <= s@.len(),
            lcm_fold_fits(s@),
            r == lcm_fold(s@.take(i as int)),
        decreases s@.len() - i,
    {
        assert(s@.take(i + 1).drop_last() =~= s@.take(i as int));
        assert(lcm_fold(s@.take(i as int)) * s@[i as int] <= usize::MAX);
        r = lcm(r, s[i]);
        i += 1;
    }
    assert(s@.take(s@.len() as int) =~= s@);
    r
}

fn heights_exec(s: &Vec<Bound>) -> (r: Vec<usize>)
    ensures
        r@ == heights_of(s@),
{
    let mut r: Vec<usize> = Vec::new();
    let mut i: usize = 0;
    while i < s.len()
        invariant
            i <= s@.len(),
            r@ == heights_of(s@).take(i as int),
        decreases s@.len() - i,
    {
        r.push(s[i].pt_height);
        assert(heights_of(s@).take(i + 1) =~= heights_of(s@).take(i as int).push(s@[i as int].pt_height));
        i += 1;
    }
    assert(heights_of(s@).take(s@.len() as int) =~= heights_of(s@));
    r
}

fn widths_exec(s: &Vec<Bound>) -> (r: Vec<usize>)
    ensures
        r@ == widths_of(s@),
{
    let mut r: Vec<usize> = Vec::new();
    let mut i: usize = 0;
    while i < s.len()
        invariant
            i <= s@.len(),
            r@ == widths_of(s@).take(i as int),
        decreases s@.len() - i,
    {
        r.push(s[i].pt_width);
        assert(widths_of(s@).take(i + 1) =~= widths_of(s@).take(i as int).push(s@[i as int].pt_width));
        i += 1;
    }
    assert(widths_of(s@).take(s@.len() as int) =~= widths_of(s@));
    r
}

impl Bound {
    pub fn new(pt_height: usize, pt_width: usize) -> (r: Bound)
        ensures
            r == (Bound { pt_height, pt_width }),
    {
        Bound { pt_height, pt_width }
    }

    /// The smallest bound that contains both.
    pub open spec fn join(self, other: Bound) -> Bound {
        Bound {
            pt_height: spec_max(self.pt_height, other.pt_height),
            pt_width: spec_max(self.pt_width, other.pt_width),
        }
    }

    /// The smallest bound that contains both.
    pub fn add(self, other: Bound) -> (r: Bound)
        ensures
            r == self.join(other),
    {
        Bound { pt_height: max(self.pt_height, other.pt_height), pt_width: max(self.pt_width, other.pt_width) }
    }

    /// Grows this bound to contain `other`.
    pub fn add_assign(&mut self, other: Bound)
        ensures
            *final(self) == old(self).join(other),
    {
        *self = self.add(other);
    }
}

impl Vertical<Bound> {
    /// Bounds stacked in a column: heights add up, the widest width wins.
    pub fn from_bounds(items: &Vec<Bound>) -> (r: Self)
        requires
            stack_fits(items@),
        ensures
            r.0.pt_height == sum_of(heights_of(items@)),
            r.0.pt_width == max_of(widths_of(items@)),
    {
        Vertical(Bound { pt_height: sum_exec(&heights_exec(items)), pt_width: max_exec(&widths_exec(items)) })
    }
}

impl Horizontal<Bound> {
    /// Bounds lined up in a row: widths add up, the tallest height wins.
    pub fn from_bounds(items: &Vec<Bound>) -> (r: Self)
        requires
            line_fits(items@),
        ensures
            r.0.pt_height == max_of(heights_of(items@)),
            r.0.pt_width == sum_of(widths_of(items@)),
    {
        Horizontal(Bound { pt_height: max_exec(&heights_exec(items)), pt_width: sum_exec(&widths_exec(items)) })
    }
}

impl CellBounds {
    pub fn new(min: Bound, rec: Bound) -> (r: CellBounds)
        ensures
            r == (CellBounds { min, rec }),
    {
        CellBounds { min, rec }
    }

    /// Bounds that ask for nothing.
    pub fn make_clean() -> (r: CellBounds)
        ensures
            r == (CellBounds { min: Bound { pt_height: 0, pt_width: 0 }, rec: Bound { pt_height: 0, pt_width: 0 } }),
    {
        CellBounds::new(Bound::new(0, 0), Bound::new(0, 0))
    }

    /// Bounds of a one-line text of the given byte length, with `padding`
    /// blanks on either side.
    pub open spec fn of_text(len: nat, padding: nat) -> CellBounds {
        CellBounds {
            min: Bound { pt_height: 2, pt_width: (2 + 2 * padding) as usize },
            rec: Bound { pt_height: 2, pt_width: (len + 1 + 2 * padding) as usize },
        }
    }

    /// Bounds of a one-line text with `padding` blanks on either side: at
    /// least the padding, and room for the whole text as asked-for width.
    pub fn from_text(text: &str, padding: usize) -> (r: CellBounds)
        requires
            (text.spec_bytes().len() as usize) + 1 + 2 * padding <= usize::MAX,
            2 + 2 * padding <= usize::MAX,
        ensures
            r == CellBounds::of_text((text.spec_bytes().len() as usize) as nat, padding as nat),
    {
        CellBounds::new(Bound::new(2, 2 + 2 * padding), Bound::new(2, text.len() + 1 + 2 * padding))
    }

    /// The smallest bounds that contain both, minimum and recommended alike.
    pub open spec fn join(self, other: CellBounds) -> CellBounds {
        CellBounds { min: self.min.join(other.min), rec: self.rec.join(other.rec) }
    }

    /// The smallest bounds that contain both.
    pub fn add(self, other: CellBounds) -> (r: CellBounds)
        ensures
            r == self.join(other),
    {
        CellBounds { min: self.min.add(other.min), rec: self.rec.add(other.rec) }
    }

    /// Grows these bounds to contain `other`.
    pub fn add_assign(&mut self, other: CellBounds)
        ensures
            *final(self) == old(self).join(other),
    {
        *self = self.add(other);
    }
}

fn mins_exec(s: &Vec<CellBounds>) -> (r: Vec<Bound>)
    ensures
        r@ == mins_of(s@),
{
    let mut r: Vec<Bound> = Vec::new();
    let mut i: usize = 0;
    while i < s.len()
        invariant
            i <= s@.len(),
            r@ == mins_of(s@).take(i as int),
        decreases s@.len() - i,
    {
        r.push(s[i].min);
        assert(mins_of(s@).take(i + 1) =~= mins_of(s@).take(i as int).push(s@[i as int].min));
        i += 1;
    }
    assert(mins_of(s@).take(s@.len() as int) =~= mins_of(s@));
    r
}

fn recs_exec(s: &Vec<CellBounds>) -> (r: Vec<Bound>)
    ensures
        r@ == recs_of(s@),
{
    let mut r: Vec<Bound> = Vec::new();
    let mut i: usize = 0;
    while i < s.len()
        invariant
            i <= s@.len(),
            r@ == recs_of(s@).take(i as int),
        decreases s@.len() - i,
    {
        r.push(s[i].rec);
        assert(recs_of(s@).take(i + 1) =~= recs_of(s@).take(i as int).push(s@[i as int].rec));
        i += 1;
    }
    assert(recs_of(s@).take(s@.len() as int) =~= recs_of(s@));
    r
}

/// Bounds of cells stacked in a column.
pub open spec fn stacked(s: Seq<CellBounds>) -> CellBounds {
    CellBounds {
        min: Bound {
            pt_height: sum_of(heights_of(mins_of(s))) as usize,
            pt_width: max_of(widths_of(mins_of(s))) as usize,
        },
        rec: Bound {
            pt_height: sum_of(heights_of(recs_of(s))) as usize,
            pt_width: max_of(widths_of(recs_of(s))) as usize,
        },
    }
}

/// Bounds of cells lined up in a row.
pub open spec fn lined(s: Seq<CellBounds>) -> CellBounds {
    CellBounds {
        min: Bound {
            pt_height: max_of(heights_of(mins_of(s))) as usize,
            pt_width: sum_of(widths_of(mins_of(s))) as usize,
        },
        rec: Bound {
            pt_height: max_of(heights_of(recs_of(s))) as usize,
            pt_width: sum_of(widths_of(recs_of(s))) as usize,
        },
    }
}

impl Vertical<CellBounds> {
    /// Bounds of cells stacked in a column.
    pub fn from_cell_bounds(items: &Vec<CellBounds>) -> (r: Self)
        requires
            stack_fits(mins_of(items@)),
            stack_fits(recs_of(items@)),
        ensures
            r.0 == stacked(items@),
    {
        let min = Vertical::<Bound>::from_bounds(&mins_exec(items)).0;
        let rec = Vertical::<Bound>::from_bounds(&recs_exec(items)).0;
        Vertical(CellBounds { min, rec })
    }
}

impl Horizontal<CellBounds> {
    /// Bounds of cells lined up in a row.
    pub fn from_cell_bounds(items: &Vec<CellBounds>) -> (r: Self)
        requires
            line_fits(mins_of(items@)),
            line_fits(recs_of(items@)),
        ensures
            r.0 == lined(items@),
    {
        let min = Horizontal::<Bound>::from_bounds(&mins_exec(items)).0;
        let rec = Horizontal::<Bound>::from_bounds(&recs_exec(items)).0;
        Horizontal(CellBounds { min, rec })
    }
}

// ---------------------------------------------------------------- properties

/// Where a text sits in its cell, as the user asks for it.
#[derive(Clone, Copy, Debug, PartialEq, Eq, Structural)]
pub enum Alignment {
    Default,
    Left,
    Center,
    Right,
}

/// Where a line sits in its width once the alignment is settled.
#[derive(Clone, Copy, Debug, PartialEq, Eq, Structural)]
pub enum Justify {
    Left,
    Center,
    Right,
}

impl Alignment {
    /// The placement of the lines: the default centres a text of one line and
    /// puts a text of several lines on the left.
    pub open spec fn resolved(self, multiline: bool) -> Justify {
        match self {
            Alignment::Default => if multiline {
                Justify::Left
            } else {
                Justify::Center
            },
            Alignment::Left => Justify::Left,
            Alignment::Center => Justify::Center,
            Alignment::Right => Justify::Right,
        }
    }

    /// The placement of the lines of a text, given whether it spans several lines.
    pub fn console(&self, multiline: bool) -> (r: Justify)
        ensures
            r == self.resolved(multiline),
    {
        match self {
            Alignment::Default => {
                if multiline {
                    Justify::Left
                } else {
                    Justify::Center
                }
            },
            Alignment::Left => Justify::Left,
            Alignment::Center => Justify::Center,
            Alignment::Right => Justify::Right,
        }
    }
}

/// The settings a user gives a cell.
#[derive(Clone, Copy, Debug, PartialEq, Eq, Structural)]
pub struct UserProperties {
    pub border: Width,
    pub alignment: Alignment,
    pub padding: usize,
    pub pt_height: usize,
    pub pt_width: usize,
    pub span_height: usize,
    pub span_width: usize,
}

impl Default for UserProperties {
    /// No border, default alignment, no padding, no size asked for, one grid
    /// row and column.
    fn default() -> (r: Self)
        ensures
            r == (UserProperties {
                border: Width::Empty,
                alignment: Alignment::Default,
                padding: 0,
                pt_height: 0,
                pt_width: 0,
                span_height: 1,
                span_width: 1,
            }),
    {
        UserProperties {
            border: Width::Empty,
            alignment: Alignment::Default,
            padding: 0,
            pt_height: 0,
            pt_width: 0,
            span_height: 1,
            span_width: 1,
        }
    }
}

/// The configuration of one node of a cell tree.
#[derive(Clone, Copy, Debug, PartialEq, Eq, Structural)]
pub struct CellConfig {
    pub border: Width,
    pub alignment: Alignment,
    pub padding: usize,
    pub bounds: CellBounds,
    pub span_height: usize,
    pub span_width: usize,
}

impl CellConfig {
    /// The configuration the given user settings ask for: a minimum of two
    /// points each way and the asked-for size plus one.
    pub open spec fn of_properties(props: UserProperties) -> CellConfig {
        CellConfig {
            border: props.border,
            alignment: props.alignment,
            padding: props.padding,
            bounds: CellBounds {
                min: Bound { pt_height: 2, pt_width: 2 },
                rec: Bound { pt_height: (props.pt_height + 1) as usize, pt_width: (props.pt_width + 1) as usize },
            },
            span_height: props.span_height,
            span_width: props.span_width,
        }
    }

    /// The configuration the given user settings ask for.
    pub fn from(props: UserProperties) -> (r: CellConfig)
        requires
            props.pt_height < usize::MAX,
            props.pt_width < usize::MAX,
        ensures
            r == CellConfig::of_properties(props),
    {
        CellConfig {
            border: props.border,
            alignment: props.alignment,
            padding: props.padding,
            bounds: CellBounds::new(Bound::new(2, 2), Bound::new(props.pt_height + 1, props.pt_width + 1)),
            span_height: props.span_height,
            span_width: props.span_width,
        }
    }
}

impl Default for CellConfig {
    /// The configuration of the default user settings.
    fn default() -> (r: Self)
        ensures
            r == CellConfig::of_properties(
                UserProperties {
                    border: Width::Empty,
                    alignment: Alignment::Default,
                    padding: 0,
                    pt_height: 0,
                    pt_width: 0,
                    span_height: 1,
                    span_width: 1,
                },
            ),
    {
        CellConfig::from(UserProperties::default())
    }
}

pub open spec fn bounds_of(s: Seq<CellConfig>) -> Seq<CellBounds> {
    s.map_values(|c: CellConfig| c.bounds)
}

pub open spec fn span_heights(s: Seq<CellConfig>) -> Seq<usize> {
    s.map_values(|c: CellConfig| c.span_height)
}

pub open spec fn span_widths(s: Seq<CellConfig>) -> Seq<usize> {
    s.map_values(|c: CellConfig| c.span_width)
}

/// The configurations can be collected in a column without overflow.
pub open spec fn stack_configs_fit(s: Seq<CellConfig>) -> bool {
    &&& stack_fits(mins_of(bounds_of(s)))
    &&& stack_fits(recs_of(bounds_of(s)))
    &&& sum_of(span_heights(s)) <= usize::MAX
    &&& lcm_fold_fits(span_widths(s))
}

/// The configurations can be collected in a row without overflow.
pub open spec fn line_configs_fit(s: Seq<CellConfig>) -> bool {
    &&& line_fits(mins_of(bounds_of(s)))
    &&& line_fits(recs_of(bounds_of(s)))
    &&& sum_of(span_widths(s)) <= usize::MAX
    &&& lcm_fold_fits(span_heights(s))
}

fn bounds_exec(s: &Vec<CellConfig>) -> (r: Vec<CellBounds>)
    ensures
        r@ == bounds_of(s@),
{
    let mut r: Vec<CellBounds> = Vec::new();
    let mut i: usize = 0;
    while i < s.len()
        invariant
            i <= s@.len(),
            r@ == bounds_of(s@).take(i as int),
        decreases s@.len() - i,
    {
        r.push(s[i].bounds);
        assert(bounds_of(s@).take(i + 1) =~= bounds_of(s@).take(i as int).push(s@[i as int].bounds));
        i += 1;
    }
    assert(bounds_of(s@).take(s@.len() as int) =~= bounds_of(s@));
    r
}

fn span_heights_exec(s: &Vec<CellConfig>) -> (r: Vec<usize>)
    ensures
        r@ == span_heights(s@),
{
    let mut r: Vec<usize> = Vec::new();
    let mut i: usize = 0;
    while i < s.len()
        invariant
            i <= s@.len(),
            r@ == span_heights(s@).take(i as int),
        decreases s@.len() - i,
    {
        r.push(s[i].span_height);
        assert(span_heights(s@).take(i + 1) =~= span_heights(s@).take(i as int).push(s@[i as int].span_height));
        i += 1;
    }
    assert(span_heights(s@).take(s@.len() as int) =~= span_heights(s@));
    r
}

fn span_widths_exec(s: &Vec<CellConfig>) -> (r: Vec<usize>)
    ensures
        r@ == span_widths(s@),
{
    let mut r: Vec<usize> = Vec::new();
    let mut i: usize = 0;
    while i < s.len()
        invariant
            i <= s@.len(),
            r@ == span_widths(s@).take(i as int),
        decreases s@.len() - i,
    {
        r.push(s[i].span_width);
        assert(span_widths(s@).take(i + 1) =~= span_widths(s@).take(i as int).push(s@[i as int].span_width));
        i += 1;
    }
    assert(span_widths(s@).take(s@.len() as int) =~= span_widths(s@));
    r
}

/// The default configuration, with the given bounds and spans.
pub open spec fn collected(bounds: CellBounds, span_height: usize, span_width: usize) -> CellConfig {
    CellConfig {
        border: Width::Empty,
        alignment: Alignment::Default,
        padding: 0,
        bounds,
        span_height,
        span_width,
    }
}

impl Vertical<CellConfig> {
    /// The configurations of cells stacked in a column: bounds stack up, row
    /// spans add up, and the column span is the least common multiple of theirs.
    pub fn from_configs(items: &Vec<CellConfig>) -> (r: Self)
        requires
            stack_configs_fit(items@),
        ensures
            r.0 == collected(
                stacked(bounds_of(items@)),
                sum_of(span_heights(items@)) as usize,
                lcm_fold(span_widths(items@)) as usize,
            ),
    {
        let base = CellConfig::default();
        Vertical(CellConfig {
            bounds: Vertical::<CellBounds>::from_cell_bounds(&bounds_exec(items)).0,
            span_height: sum_exec(&span_heights_exec(items)),
            span_width: lcm_exec(&span_widths_exec(items)),
            ..base
        })
    }
}

impl Horizontal<CellConfig> {
    /// The configurations of cells lined up in a row: bounds line up, column
    /// spans add up, and the row span is the least common multiple of theirs.
    pub fn from_configs(items: &Vec<CellConfig>) -> (r: Self)
        requires
            line_configs_fit(items@),
        ensures
            r.0 == collected(
                lined(bounds_of(items@)),
                lcm_fold(span_heights(items@)) as usize,
                sum_of(span_widths(items@)) as usize,
            ),
    {
        let base = CellConfig::default();
        Horizontal(CellConfig {
            bounds: Horizontal::<CellBounds>::from_cell_bounds(&bounds_exec(items)).0,
            span_height: lcm_exec(&span_heights_exec(items)),
            span_width: sum_exec(&span_widths_exec(items)),
            ..base
        })
    }
}

} // verus!
