//! Rendering of nested rectangular cells into box-drawing text, with borders
//! of different weights merged into the right glyph at every junction.
pub mod border;
pub mod cell_border;
pub mod cells;
pub mod config;
pub mod grid;
pub mod text;
pub mod width;

pub use border::{Border, BorderFragment, Cross, Orientation};
pub use cell_border::CellBorder;
pub use cells::{CellView, Col, DrawCell, Row, Table, TextCell};
pub use config::{
    gcd, lcm, max, Alignment, Bound, CellBounds, CellConfig, Horizontal, Justify, UserProperties,
    Vertical,
};
pub use grid::{increase_to_size, Grid, GridSlice, GridSliceMut};
pub use text::{box_align, pad, wrap};
pub use width::Width;
