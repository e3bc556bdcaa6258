use cli_tables::{Border, BorderFragment, CellBorder, Orientation, Width};

#[test]
fn fragment_created() {
    let fragment = BorderFragment::new(5, Width::Light, Width::Empty, Width::Empty);
    assert_eq!(5, fragment.length);
    assert_eq!("╶────", fragment.render_view(&Width::Empty, Orientation::Horizontal));
    assert_eq!("╷││││", fragment.render_view(&Width::Empty, Orientation::Vertical));
}

#[test]
fn fragment_start_pieces() {
    let fragment = BorderFragment::new(5, Width::Light, Width::Light, Width::Heavy);
    assert_eq!("╅────", fragment.render_view(&Width::Heavy, Orientation::Horizontal));
    assert_eq!("╄││││", fragment.render_view(&Width::Heavy, Orientation::Vertical));
}

#[test]
fn border_created() {
    let border = Border::default_top(10, Width::Heavy);
    assert_eq!("┏━━━━━━━━┓", border.render_view(Orientation::Horizontal));
}

#[test]
fn border_add_after() {
    let border1 = Border::default_top(10, Width::Heavy);
    let border2 = Border::default_bottom(5, Width::Light);
    let border = border1.add_after(&border2);
    assert_eq!("┏━━━━━━━━╅───┘", border.render_view(Orientation::Horizontal));
}

#[test]
fn border_combine() {
    let border1 = Border::default_top(10, Width::Heavy);
    let border2 = Border::default_top(5, Width::Light);
    let border3 = Border::default_bottom(7, Width::Light);
    let border4 = Border::default_bottom(8, Width::Heavy);

    let combine_border1 = border1.add_after(&border2);
    assert_eq!("┏━━━━━━━━┱───┐", combine_border1.render_view(Orientation::Horizontal));

    let combine_border2 = border3.add_after(&border4);
    assert_eq!("└─────┺━━━━━━┛", combine_border2.render_view(Orientation::Horizontal));

    let final_border = combine_border1.combine(&combine_border2);
    assert_eq!("┢━━━━━┻━━┳━━━┩", final_border.render_view(Orientation::Horizontal));
}

#[test]
fn block_consumes_everything() {
    let border1 = Border::default_top(4, Width::Light);
    let border2 = Border::default_top(6, Width::Block);
    let border3 = Border::default_top(6, Width::Light);
    let border4 = Border::default_bottom(7, Width::Light);
    let border5 = Border::default_bottom(8, Width::Light);

    let combine_border1 = border1.add_after(&border2).add_after(&border3);
    let combine_border2 = border4.add_after(&border5);

    let final_border = combine_border1.combine(&combine_border2);
    assert_eq!("├──██████────┤", final_border.render_view(Orientation::Horizontal));
}

#[test]
fn full_border() {
    let cell = CellBorder::atomic(5, 15, Width::Heavy);
    assert_eq!(
        vec![
            "┏━━━━━━━━━━━━━┓",
            "┃             ┃",
            "┃             ┃",
            "┃             ┃",
            "┗━━━━━━━━━━━━━┛"
        ],
        cell.render_view_empty()
    );
}

#[test]
fn cell_combination_horizontal() {
    let cell1 = CellBorder::atomic(5, 15, Width::Heavy);
    let cell2 = CellBorder::atomic(5, 10, Width::Light);
    let (cell, border) = cell1.add_horizontal(&cell2);
    assert_eq!("┱┃┃┃┹", border.render_view(Orientation::Vertical));
    assert_eq!(
        vec![
            "┏━━━━━━━━━━━━━┱────────┐",
            "┃                      │",
            "┃                      │",
            "┃                      │",
            "┗━━━━━━━━━━━━━┹────────┘"
        ],
        cell.render_view_empty()
    );
}

#[test]
fn cell_combination_vertical() {
    let cell1 = CellBorder::atomic(5, 15, Width::Light);
    let cell2 = CellBorder::atomic(6, 15, Width::Heavy);
    let (cell, border) = cell1.add_vertical(&cell2);
    assert_eq!("┢━━━━━━━━━━━━━┪", border.render_view(Orientation::Horizontal));
    assert_eq!(
        vec![
            "┌─────────────┐",
            "│             │",
            "│             │",
            "│             │",
            "┢             ┪",
            "┃             ┃",
            "┃             ┃",
            "┃             ┃",
            "┃             ┃",
            "┗━━━━━━━━━━━━━┛"
        ],
        cell.render_view_empty()
    );
}

#[test]
fn cell_combination_complex() {
    let cell1 = CellBorder::atomic(5, 8, Width::Light);
    let cell2 = CellBorder::atomic(5, 8, Width::Heavy);
    let cell3 = CellBorder::atomic(6, 15, Width::Light);

    let (cell_complex, border) = cell1.add_horizontal(&cell2);
    assert_eq!("┲┃┃┃┺", border.render_view(Orientation::Vertical));

    let (cell_final, border) = cell_complex.add_vertical(&cell3);
    assert_eq!("├──────┺━━━━━━┩", border.render_view(Orientation::Horizontal));

    assert_eq!(
        vec![
            "┌──────┲━━━━━━┓",
            "│             ┃",
            "│             ┃",
            "│             ┃",
            "├             ┩",
            "│             │",
            "│             │",
            "│             │",
            "│             │",
            "└─────────────┘"
        ],
        cell_final.render_view_empty()
    );
}
