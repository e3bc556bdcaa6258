use vstd::prelude::*;
use vstd::string::StrSliceExecFns;

use crate::config::{Alignment, Justify};

verus! {

/// Relies on `String::from_iter` over `char`s: the string holds the given
/// characters in order.
#[verifier::external_body]
pub(crate) fn string_from_chars(chars: &Vec<char>) -> (r: String)
    ensures
        r@ == chars@,
{
    String::from_iter(chars.iter())
}

/// `n` blanks.
pub open spec fn spaces(n: nat) -> Seq<char> {
    Seq::new(n, |i: int| ' ')
}

/// The characters of `s`, in order.
pub fn chars_of(s: &str) -> (r: Vec<char>)
    ensures
        r@ == s@,
{
    let n = s.unicode_len();
    let mut r: Vec<char> = Vec::new();
    let mut i: usize = 0;
    while i < n
        invariant
            n == s@.len(),
            i <= n,
            r@ == s@.take(i as int),
        decreases n - i,
    {
        r.push(s.get_char(i));
        assert(s@.take(i + 1) =~= s@.take(i as int).push(s@[i as int]));
        i += 1;
    }
    assert(s@.take(n as int) =~= s@);
    r
}

/// A line of `n` blanks.
pub fn blank_line(n: usize) -> (r: Vec<char>)
    ensures
        r@ == spaces(n as nat),
{
    let mut r: Vec<char> = Vec::new();
    let mut i: usize = 0;
    while i < n
        invariant
            i <= n,
            r@ == spaces(i as nat),
        decreases n - i,
    {
        r.push(' ');
        assert(spaces((i + 1) as nat) =~= spaces(i as nat).push(' '));
        i += 1;
    }
    r
}

/// The number of terminal columns that `console` measures for a text.
pub uninterp spec fn display_width(s: Seq<char>) -> nat;

/// The lines that `textwrap` breaks a text into for the given width.
pub uninterp spec fn wrapped(text: Seq<char>, width: usize) -> Seq<Seq<char>>;

/// A line without the carriage return that ends it, if any.
pub open spec fn strip_cr(l: Seq<char>) -> Seq<char> {
    if l.len() > 0 && l.last() == '\r' {
        l.drop_last()
    } else {
        l
    }
}

/// The lines ended so far in a text, and the line still open at its end.
pub open spec fn scan_lines(s: Seq<char>) -> (Seq<Seq<char>>, Seq<char>)
    decreases s.len(),
{
    if s.len() == 0 {
        (Seq::empty(), Seq::empty())
    } else {
        let prev = scan_lines(s.drop_last());
        if s.last() == '\n' {
            (prev.0.push(strip_cr(prev.1)), Seq::empty())
        } else {
            (prev.0, prev.1.push(s.last()))
        }
    }
}

/// The lines of a text: it is split at each `'\n'`, a `'\r'` just before a
/// `'\n'` is dropped, and a final `'\n'` starts no further line.
pub open spec fn text_lines(s: Seq<char>) -> Seq<Seq<char>> {
    let sc = scan_lines(s);
    if sc.1.len() == 0 {
        sc.0
    } else {
        sc.0.push(sc.1)
    }
}

/// The views of a sequence of strings.
pub open spec fn string_views(lines: Seq<String>) -> Seq<Seq<char>> {
    lines.map_values(|l: String| l@)
}

/// Relies on `console::measure_text_width`: the display width of a text.
#[verifier::external_body]
pub(crate) fn measure_width(s: &str) -> (r: usize)
    ensures
        r as nat == display_width(s@),
{
    console::measure_text_width(s)
}

/// Relies on `textwrap::wrap`: the text broken into lines for `width` columns.
#[verifier::external_body]
pub(crate) fn wrap_lines(text: &str, width: usize) -> (r: Vec<String>)
    ensures
        string_views(r@) == wrapped(text@, width),
{
    textwrap::wrap(text, width).into_iter().map(|l| l.into_owned()).collect()
}

/// The lines of the text.
pub(crate) fn split_lines(s: &str) -> (r: Vec<String>)
    ensures
        string_views(r@) == text_lines(s@),
{
    let chars = chars_of(s);
    let mut r: Vec<String> = Vec::new();
    let mut cur: Vec<char> = Vec::new();
    let mut i: usize = 0;
    while i < chars.len()
        invariant
            i <= chars@.len(),
            chars@ == s@,
            (string_views(r@), cur@) == scan_lines(chars@.take(i as int)),
        decreases chars@.len() - i,
    {
        assert(chars@.take(i + 1).drop_last() =~= chars@.take(i as int));
        let c = chars[i];
        if c == '\n' {
            let n = cur.len();
            if n > 0 && cur[n - 1] == '\r' {
                cur.pop();
            }
            let line = string_from_chars(&cur);
            let ghost before = r@;
            r.push(line);
            assert(string_views(r@) =~= string_views(before).push(line@));
            cur = Vec::new();
        } else {
            cur.push(c);
        }
        i += 1;
    }
    assert(chars@.take(chars@.len() as int) =~= chars@);
    if cur.len() > 0 {
        let line = string_from_chars(&cur);
        let ghost before = r@;
        r.push(line);
        assert(string_views(r@) =~= string_views(before).push(line@));
    }
    r
}

/// Blanks to put before a line of display width `cols` so that it fills
/// `width` columns with the given placement.
pub open spec fn left_fill(cols: nat, width: nat, j: Justify) -> nat {
    let diff = (width - cols) as nat;
    match j {
        Justify::Left => 0,
        Justify::Right => diff,
        Justify::Center => diff / 2,
    }
}

/// A line blank-padded on either side to `width` columns with the given
/// placement; a line already as wide or wider is left as it is.
pub open spec fn padded_to(s: Seq<char>, width: nat, j: Justify) -> Seq<char> {
    let cols = display_width(s);
    if cols >= width {
        s
    } else {
        let left = left_fill(cols, width, j);
        spaces(left) + s + spaces((width - cols - left) as nat)
    }
}

/// Relies on `console::pad_str` without truncation: it measures the line with
/// `measure_text_width` and adds blanks on the sides the placement asks for.
#[verifier::external_body]
pub(crate) fn pad_to_width(s: &str, width: usize, j: Justify) -> (r: String)
    ensures
        r@ == padded_to(s@, width as nat, j),
{
    let align = match j {
        Justify::Left => console::Alignment::Left,
        Justify::Center => console::Alignment::Center,
        Justify::Right => console::Alignment::Right,
    };
    console::pad_str(s, width, align, None).into_owned()
}

/// The text with every tab turned into a blank.
pub open spec fn untabbed(s: Seq<char>) -> Seq<char> {
    s.map_values(|c: char| if c == '\t' { ' ' } else { c })
}

/// The text with every tab replaced by one blank.
pub(crate) fn replace_tabs(s: &str) -> (r: String)
    ensures
        r@ == untabbed(s@),
{
    let chars = chars_of(s);
    let mut out: Vec<char> = Vec::new();
    let mut i: usize = 0;
    while i < chars.len()
        invariant
            i <= chars@.len(),
            chars@ == s@,
            out@ == untabbed(chars@.take(i as int)),
        decreases chars@.len() - i,
    {
        let c = chars[i];
        out.push(if c == '\t' { ' ' } else { c });
        assert(untabbed(chars@.take(i + 1)) =~= untabbed(chars@.take(i as int)).push(
            if c == '\t' { ' ' } else { c },
        ));
        i += 1;
    }
    assert(chars@.take(chars@.len() as int) =~= chars@);
    string_from_chars(&out)
}

/// A text with `padding` blanks on either side.
pub open spec fn framed_text(text: Seq<char>, padding: nat) -> Seq<char> {
    spaces(padding) + text + spaces(padding)
}

/// A text with `padding` blanks on either side.
pub fn pad(text: &str, padding: usize) -> (r: String)
    ensures
        r@ == framed_text(text@, padding as nat),
{
    let mut v = blank_line(padding);
    let t = chars_of(text);
    let mut i: usize = 0;
    while i < t.len()
        invariant
            i <= t@.len(),
            v@ == spaces(padding as nat) + t@.take(i as int),
        decreases t@.len() - i,
    {
        v.push(t[i]);
        assert(t@.take(i + 1) =~= t@.take(i as int).push(t@[i as int]));
        i += 1;
    }
    let b = blank_line(padding);
    let mut j: usize = 0;
    while j < b.len()
        invariant
            j <= b@.len(),
            b@ == spaces(padding as nat),
            v@ == spaces(padding as nat) + t@ + b@.take(j as int),
        decreases b@.len() - j,
    {
        v.push(b[j]);
        assert(b@.take(j + 1) =~= b@.take(j as int).push(b@[j as int]));
        j += 1;
    }
    assert(t@.take(t@.len() as int) =~= t@);
    assert(b@.take(b@.len() as int) =~= b@);
    assert(v@ =~= framed_text(text@, padding as nat));
    string_from_chars(&v)
}

/// The lines of a text laid out in `width` columns: with no width, each line
/// of the text as it stands; otherwise the text wrapped to the width less the
/// padding, each line padded and placed in the full width. A text wider than
/// the room left is laid out as several lines.
pub open spec fn laid_out(text: Seq<char>, width: usize, padding: usize, alignment: Alignment) -> Seq<Seq<char>> {
    if width == 0 {
        text_lines(text).map_values(|l: Seq<char>| framed_text(l, padding as nat))
    } else {
        let inner = (width - 2 * padding) as usize;
        let j = alignment.resolved(display_width(text) > inner);
        wrapped(text, inner).map_values(|l: Seq<char>| padded_to(framed_text(l, padding as nat), width as nat, j))
    }
}

/// The lines of a text laid out in `width` columns with `padding` blanks on
/// either side.
pub fn wrap(text: &String, width: usize, padding: usize, alignment: Alignment) -> (r: Vec<String>)
    requires
        width == 0 || 2 * padding <= width,
    ensures
        string_views(r@) == laid_out(text@, width, padding, alignment),
{
    if width == 0 {
        let lines = split_lines(text.as_str());
        let mut r: Vec<String> = Vec::new();
        let mut i: usize = 0;
        while i < lines.len()
            invariant
                i <= lines@.len(),
                string_views(lines@) == text_lines(text@),
                string_views(r@) == text_lines(text@).map_values(
                    |l: Seq<char>| framed_text(l, padding as nat),
                ).take(i as int),
            decreases lines@.len() - i,
        {
            let line = pad(lines[i].as_str(), padding);
            let ghost before = r@;
            r.push(line);
            proof {
                assert(string_views(lines@)[i as int] == lines@[i as int]@);
                assert(string_views(r@) =~= string_views(before).push(line@));
            }
            i += 1;
        }
        assert(text_lines(text@).map_values(|l: Seq<char>| framed_text(l, padding as nat)).take(
            lines@.len() as int,
        ) =~= text_lines(text@).map_values(|l: Seq<char>| framed_text(l, padding as nat)));
        r
    } else {
        let inner = width - 2 * padding;
        let multiline = measure_width(text.as_str()) > inner;
        let j = alignment.console(multiline);
        let lines = wrap_lines(text.as_str(), inner);
        let mut r: Vec<String> = Vec::new();
        let mut i: usize = 0;
        while i < lines.len()
            invariant
                i <= lines@.len(),
                string_views(lines@) == wrapped(text@, inner),
                j == alignment.resolved(display_width(text@) > inner),
                string_views(r@) == wrapped(text@, inner).map_values(
                    |l: Seq<char>| padded_to(framed_text(l, padding as nat), width as nat, j),
                ).take(i as int),
            decreases lines@.len() - i,
        {
            let framed = pad(lines[i].as_str(), padding);
            let line = pad_to_width(framed.as_str(), width, j);
            let ghost before = r@;
            r.push(line);
            proof {
                assert(string_views(lines@)[i as int] == lines@[i as int]@);
                assert(string_views(r@) =~= string_views(before).push(line@));
            }
            i += 1;
        }
        assert(wrapped(text@, inner).map_values(
            |l: Seq<char>| padded_to(framed_text(l, padding as nat), width as nat, j),
        ).take(lines@.len() as int) =~= wrapped(text@, inner).map_values(
            |l: Seq<char>| padded_to(framed_text(l, padding as nat), width as nat, j),
        ));
        r
    }
}

/// Lines placed in a box of `height` lines: cut to the height when there are
/// more, otherwise centred between blank lines of `width` columns, the smaller
/// half of the spare lines above.
pub open spec fn boxed(text: Seq<Seq<char>>, height: nat, width: nat) -> Seq<Seq<char>> {
    if text.len() >= height {
        text.take(height as int)
    } else {
        let spare = (height - text.len()) as nat;
        Seq::new(spare / 2, |i: int| spaces(width)) + text + Seq::new(
            (spare - spare / 2) as nat,
            |i: int| spaces(width),
        )
    }
}

/// The lines placed in a box of `box_height` lines and `box_width` columns.
pub fn box_align(text: Vec<String>, box_height: usize, box_width: usize) -> (r: Vec<String>)
    ensures
        string_views(r@) == boxed(string_views(text@), box_height as nat, box_width as nat),
        r@.len() == box_height,
{
    let ghost tv = string_views(text@);
    let ghost expected = boxed(tv, box_height as nat, box_width as nat);
    let n = text.len();
    let mut r: Vec<String> = Vec::new();
    let (above, take) = if n >= box_height {
        (0, box_height)
    } else {
        ((box_height - n) / 2, n)
    };
    let mut i: usize = 0;
    while i < above
        invariant
            i <= above,
            n < box_height ==> above == (box_height - n) / 2,
            n >= box_height ==> above == 0,
            expected == boxed(tv, box_height as nat, box_width as nat),
            tv == string_views(text@),
            n == text@.len(),
            string_views(r@) == expected.take(i as int),
        decreases above - i,
    {
        let line = string_from_chars(&blank_line(box_width));
        let ghost before = r@;
        r.push(line);
        proof {
            assert(string_views(r@) =~= string_views(before).push(line@));
            assert(expected.take(i + 1) =~= expected.take(i as int).push(line@));
        }
        i += 1;
    }
    let mut k: usize = 0;
    while k < take
        invariant
            k <= take,
            take <= n,
            n >= box_height ==> take == box_height && above == 0,
            n < box_height ==> take == n && above == (box_height - n) / 2,
            expected == boxed(tv, box_height as nat, box_width as nat),
            tv == string_views(text@),
            n == text@.len(),
            string_views(r@) == expected.take(above + k),
        decreases take - k,
    {
        let line = text[k].clone();
        let ghost before = r@;
        r.push(line);
        proof {
            assert(string_views(r@) =~= string_views(before).push(line@));
            assert(expected.take(above + k + 1) =~= expected.take(above + k).push(line@));
        }
        k += 1;
    }
    if n < box_height {
        let below = box_height - n - above;
        let mut j: usize = 0;
        while j < below
            invariant
                j <= below,
                n < box_height,
                above == (box_height - n) / 2,
                below == box_height - n - above,
                expected == boxed(tv, box_height as nat, box_width as nat),
                tv == string_views(text@),
                n == text@.len(),
                string_views(r@) == expected.take(above + n + j),
            decreases below - j,
        {
            let line = string_from_chars(&blank_line(box_width));
            let ghost before = r@;
            r.push(line);
            proof {
                assert(string_views(r@) =~= string_views(before).push(line@));
                assert(expected.take(above + n + j + 1) =~= expected.take(above + n + j).push(line@));
            }
            j += 1;
        }
    }
    assert(expected.take(box_height as int) =~= expected);
    r
}

} // verus!
