use cli_tables::{
    box_align, gcd, increase_to_size, lcm, max, pad, wrap, Alignment, Border, Bound, CellBorder,
    CellBounds, CellConfig, Col, DrawCell, Grid, GridSlice, Horizontal, Justify, Orientation, Row,
    Table, TextCell, UserProperties, Vertical, Width,
};

const WEIGHTS: [Width; 4] = [Width::Empty, Width::Light, Width::Heavy, Width::Block];

#[test]
fn weight_combination_laws() {
    for x in WEIGHTS.iter() {
        assert_eq!(x.combine(&Width::Empty), *x);
        assert_eq!(Width::Empty.combine(x), *x);
        assert_eq!(x.combine(x), *x);
        for y in WEIGHTS.iter() {
            assert_eq!(x.combine(y), y.combine(x));
            for z in WEIGHTS.iter() {
                assert_eq!(x.combine(&y.combine(z)), x.combine(y).combine(z));
            }
        }
    }
    assert_eq!(Width::Light.combine(&Width::Heavy), Width::Heavy);
    assert_eq!(Width::Block.combine(&Width::Heavy), Width::Block);
}

#[test]
fn glyph_table_entries() {
    let e = Width::Empty;
    let l = Width::Light;
    let h = Width::Heavy;
    let b = Width::Block;
    assert_eq!(Width::draw_char(&e, &e, &e, &e), ' ');
    assert_eq!(Width::draw_char(&l, &l, &l, &l), '┼');
    assert_eq!(Width::draw_char(&h, &h, &h, &h), '╋');
    assert_eq!(Width::draw_char(&e, &l, &e, &l), '─');
    assert_eq!(Width::draw_char(&h, &e, &h, &e), '┃');
    assert_eq!(Width::draw_char(&l, &h, &h, &l), '╅');
    assert_eq!(Width::draw_char(&b, &e, &e, &e), '█');
    assert_eq!(Width::draw_char(&l, &l, &l, &b), '█');
    assert_eq!(Width::Heavy.index(), 2);
}

#[test]
fn border_overlay_is_symmetric() {
    let a = Border::default_top(10, Width::Heavy).add_after(&Border::default_top(5, Width::Light));
    let b = Border::default_bottom(7, Width::Light).add_after(&Border::default_bottom(8, Width::Heavy));
    let ab = a.combine(&b);
    let ba = b.combine(&a);
    assert_eq!(ab.fragments, ba.fragments);
    assert_eq!(ab.length, ba.length);
    assert_eq!(
        ab.render_view(Orientation::Horizontal),
        ba.render_view(Orientation::Horizontal)
    );
}

#[test]
fn add_after_shares_the_junction() {
    let a = Border::default_top(10, Width::Heavy);
    let b = Border::default_bottom(5, Width::Light);
    let joined = a.add_after(&b);
    assert_eq!(joined.length, 14);
    assert_eq!(joined.render_view(Orientation::Horizontal).chars().count(), 14);
    let total: usize = joined.fragments.iter().map(|f| f.length).sum();
    assert_eq!(total, 14);
}

#[test]
fn combined_fragments_are_maximal() {
    let a = Border::default_left(6, Width::Empty);
    let b = Border::default_left(6, Width::Empty);
    let c = a.combine(&b);
    assert_eq!(c.length, 6);
    assert_eq!(c.fragments.len(), 1);
    assert_eq!(c.fragments[0].length, 6);

    let x = Border::default_top(4, Width::Light).add_after(&Border::default_top(6, Width::Block));
    let y = Border::default_bottom(9, Width::Light);
    let z = x.combine(&y);
    for pair in z.fragments.windows(2) {
        let next = &pair[1];
        assert!(
            !(next.left_start == Width::Empty
                && next.right_start == Width::Empty
                && next.width == pair[0].width)
        );
    }
}

#[test]
fn increase_spreads_shortfall_evenly() {
    let mut v = vec![1usize, 2, 3];
    increase_to_size(&mut v, 12);
    assert_eq!(v, vec![3, 4, 5]);

    let mut w = vec![0usize, 0, 0];
    increase_to_size(&mut w, 5);
    assert_eq!(w, vec![2, 2, 1]);
    assert_eq!(w.iter().sum::<usize>(), 5);

    let mut u = vec![5usize, 5];
    increase_to_size(&mut u, 3);
    assert_eq!(u, vec![5, 5]);

    let mut empty: Vec<usize> = vec![];
    increase_to_size(&mut empty, 0);
    assert!(empty.is_empty());
}

#[test]
fn box_align_truncates_and_centres() {
    let cut = box_align(vec!["a".to_string(), "b".to_string(), "c".to_string()], 2, 1);
    assert_eq!(cut, vec!["a", "b"]);

    let centred = box_align(vec!["x".to_string()], 4, 3);
    assert_eq!(centred, vec!["   ", "x", "   ", "   "]);

    let even = box_align(vec!["ab".to_string(), "cd".to_string()], 4, 2);
    assert_eq!(even, vec!["  ", "ab", "cd", "  "]);
}

#[test]
fn gcd_and_lcm_values() {
    assert_eq!(gcd(12, 18), 6);
    assert_eq!(gcd(0, 5), 5);
    assert_eq!(gcd(7, 0), 7);
    assert_eq!(lcm(4, 6), 12);
    assert_eq!(lcm(3, 5), 15);
    assert_eq!(max(3, 9), 9);
}

#[test]
fn text_padding_and_wrapping() {
    assert_eq!(pad("ab", 2), "  ab  ");
    assert_eq!(
        wrap(&"hello world".to_string(), 7, 1, Alignment::Left),
        vec![" hello ", " world "]
    );
    assert_eq!(wrap(&"a\nb".to_string(), 0, 1, Alignment::Left), vec![" a ", " b "]);
    assert_eq!(wrap(&"hi".to_string(), 6, 0, Alignment::Default), vec!["  hi  "]);
    assert_eq!(wrap(&"hi".to_string(), 5, 0, Alignment::Right), vec!["   hi"]);
    assert_eq!(wrap(&"hi".to_string(), 5, 0, Alignment::Left), vec!["hi   "]);
}

#[test]
fn alignment_resolution() {
    assert_eq!(Alignment::Default.console(false), Justify::Center);
    assert_eq!(Alignment::Default.console(true), Justify::Left);
    assert_eq!(Alignment::Right.console(false), Justify::Right);
}

#[test]
fn bounds_collect() {
    let v = Vertical::<Bound>::from_bounds(&vec![Bound::new(1, 5), Bound::new(2, 3)]).0;
    assert_eq!(v, Bound::new(3, 5));
    let h = Horizontal::<Bound>::from_bounds(&vec![Bound::new(1, 5), Bound::new(2, 3)]).0;
    assert_eq!(h, Bound::new(2, 8));
    assert_eq!(Bound::new(1, 7).add(Bound::new(4, 2)), Bound::new(4, 7));

    let t = CellBounds::from_text("abc", 1);
    assert_eq!(t.min, Bound::new(2, 4));
    assert_eq!(t.rec, Bound::new(2, 6));
    assert_eq!(CellBounds::make_clean().rec, Bound::new(0, 0));
}

#[test]
fn configuration_from_properties() {
    let c = CellConfig::from(UserProperties::default());
    assert_eq!(c.bounds.min, Bound::new(2, 2));
    assert_eq!(c.bounds.rec, Bound::new(1, 1));
    assert_eq!(c.span_height, 1);
    assert_eq!(c.span_width, 1);
    assert_eq!(c.border, Width::Empty);
    let d: CellConfig = Default::default();
    assert_eq!(c, d);
}

#[test]
fn text_cell_replaces_tabs() {
    let config = CellConfig::from(UserProperties::default());
    let cell = TextCell::new("a\tb".to_string(), config);
    assert_eq!(cell.text, "a b");
    assert_eq!(cell.config.bounds.rec, Bound::new(2, 4));
    assert_eq!(cell.config.bounds.min, Bound::new(2, 2));
}

#[test]
fn grid_bounds() {
    let heights = [3usize, 4];
    let widths = [5usize];
    let slice = GridSlice { heights: &heights, widths: &widths };
    assert_eq!(slice.get_bound(), Bound::new(6, 4));
    let sub = slice.slice(1..2, 0..1);
    assert_eq!(sub.get_bound(), Bound::new(3, 4));

    let config = CellConfig::from(UserProperties { span_height: 2, span_width: 3, ..UserProperties::default() });
    let grid = Grid::new(&config);
    assert_eq!(grid.heights, vec![0, 0]);
    assert_eq!(grid.widths, vec![0, 0, 0]);
}

fn text(s: &str, border: Width) -> DrawCell {
    let props = UserProperties { border, ..UserProperties::default() };
    DrawCell::Text(TextCell::new(s.to_string(), CellConfig::from(props)))
}

#[test]
fn single_text_cell_table() {
    let table = Table::from(text("hi", Width::Light));
    assert_eq!(table.grid.heights, vec![2]);
    assert_eq!(table.grid.widths, vec![3]);
    assert_eq!(table.lines(), vec!["┌──┐", "│hi│", "└──┘"]);
}

#[test]
fn row_of_mixed_weights() {
    let row = Row::new(
        vec![text("a", Width::Light), text("b", Width::Heavy)],
        CellConfig::from(UserProperties::default()),
    );
    let table = Table::from(DrawCell::Row(row));
    assert_eq!(table.lines(), vec!["┌─┲━┓", "│a┃b┃", "└─┺━┛"]);
}

#[test]
fn grid_of_four_cells() {
    let top = Row::new(
        vec![text("a", Width::Light), text("b", Width::Heavy)],
        CellConfig::from(UserProperties::default()),
    );
    let bottom = Row::new(
        vec![text("c", Width::Heavy), text("d", Width::Light)],
        CellConfig::from(UserProperties::default()),
    );
    let col = Col::new(
        vec![DrawCell::Row(top), DrawCell::Row(bottom)],
        CellConfig::from(UserProperties::default()),
    );
    let lines = Table::from(DrawCell::Col(col)).lines();
    assert_eq!(lines, vec!["┌─┲━┓", "│a┃b┃", "┢━╋━┩", "┃c┃d│", "┗━┹─┘"]);
    let widths: Vec<usize> = lines.iter().map(|l| l.chars().count()).collect();
    assert!(widths.iter().all(|w| *w == widths[0]));
    for line in lines.iter() {
        assert!(!line.contains('+') && !line.contains('|') && !line.contains('-'));
    }
    let middle: Vec<char> = lines[2].chars().collect();
    assert_eq!(middle[2], '╋');
}

#[test]
fn cell_border_checks_and_views() {
    let cell = CellBorder::atomic(4, 6, Width::Light);
    assert!(cell.check_size(4, 6));
    assert!(!cell.check_size(6, 4));
    let framed = cell.render_view(&vec!["abcd".to_string(), "efgh".to_string()]);
    assert_eq!(framed, vec!["┌────┐", "│abcd│", "│efgh│", "└────┘"]);
    let both = cell.combine(&CellBorder::atomic(4, 6, Width::Heavy));
    assert_eq!(both.render_view_empty(), vec!["┏━━━━┓", "┃    ┃", "┃    ┃", "┗━━━━┛"]);
}

#[test]
fn spans_reconcile_through_common_multiples() {
    let two = Row::new(
        vec![text("a", Width::Light), text("b", Width::Light)],
        CellConfig::from(UserProperties::default()),
    );
    let three = Row::new(
        vec![text("c", Width::Light), text("d", Width::Light), text("e", Width::Light)],
        CellConfig::from(UserProperties::default()),
    );
    assert_eq!(two.config.span_width, 2);
    assert_eq!(three.config.span_width, 3);
    let col = Col::new(
        vec![DrawCell::Row(two), DrawCell::Row(three)],
        CellConfig::from(UserProperties::default()),
    );
    assert_eq!(col.config.span_width, 6);
    assert_eq!(col.config.span_height, 2);
    let table = Table::from(DrawCell::Col(col));
    assert_eq!(table.grid.widths.len(), 6);
    assert_eq!(table.grid.heights.len(), 2);
    if let DrawCell::Col(c) = &table.cell {
        if let DrawCell::Row(r) = &c.rows[0] {
            assert!(r.cols.iter().all(|x| x.get_config().span_width == 3));
        } else {
            panic!("first child is a row");
        }
        if let DrawCell::Row(r) = &c.rows[1] {
            assert!(r.cols.iter().all(|x| x.get_config().span_width == 2));
        } else {
            panic!("second child is a row");
        }
    } else {
        panic!("root is a column");
    }
    let lines = table.lines();
    assert_eq!(lines.len(), 5);
    assert!(lines.iter().all(|l| l.chars().count() == lines[0].chars().count()));
}

#[test]
fn text_cell_truncates_and_centres() {
    let cell = TextCell::new(
        "aa bb cc".to_string(),
        CellConfig::from(UserProperties { border: Width::Light, ..UserProperties::default() }),
    );
    let heights = [2usize];
    let widths = [4usize];
    let (lines, border) = cell.draw(GridSlice { heights: &heights, widths: &widths }).unwrap();
    assert_eq!(lines, vec!["aa "]);
    assert!(border.check_size(3, 5));

    let short = TextCell::new(
        "x".to_string(),
        CellConfig::from(UserProperties { border: Width::Heavy, ..UserProperties::default() }),
    );
    let tall = [4usize];
    let view = short.draw(GridSlice { heights: &tall, widths: &widths });
    assert_eq!(view.textbox, vec!["   ", " x ", "   "]);
    assert_eq!(view.complete(), vec!["┏━━━┓", "┃   ┃", "┃ x ┃", "┃   ┃", "┗━━━┛"]);
}

#[test]
fn grid_slices_write_through() {
    let config = CellConfig::from(UserProperties { span_height: 3, span_width: 2, ..UserProperties::default() });
    let mut grid = Grid::new(&config);
    {
        let mut all = grid.slice_mut();
        let sub = all.slice_mut(1..3, 0..1);
        increase_to_size(sub.heights, 5);
    }
    assert_eq!(grid.heights, vec![0, 3, 2]);
    let mut all = grid.slice_mut();
    increase_to_size(all.widths, 4);
    assert_eq!(all.get_bound(), Bound::new(4, 3));
}

#[test]
fn line_endings_are_split_like_std() {
    assert_eq!(wrap(&"a\r\nb\n".to_string(), 0, 0, Alignment::Left), vec!["a", "b"]);
    assert_eq!(wrap(&"x\n\ny".to_string(), 0, 1, Alignment::Left), vec![" x ", "  ", " y "]);
    assert_eq!(wrap(&"c\rd".to_string(), 0, 0, Alignment::Left), vec!["c\rd"]);
    let empty: Vec<String> = vec![];
    assert_eq!(wrap(&"".to_string(), 0, 0, Alignment::Left), empty);
}
