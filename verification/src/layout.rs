//! Cells, coordinates, houses (rows, columns, blocks), values and the
//! bit sets built over them.

pub mod bits;
pub mod coord;

pub use coord::Coord;
pub mod text;
pub mod cell;

pub use cell::Cell;
pub mod set_lemmas;
pub mod cell_set;

pub use cell_set::CellSet;
pub mod known;
pub mod value;

pub use known::{Known, KnownLike};
pub use value::Value;
pub mod known_set;

pub use known_set::KnownSet;
pub mod shape;
pub mod house;
pub mod house_set;
pub mod any_house;

pub use house::{House, HouseLike};
pub use house_set::{HouseSet, HouseSetLike};
pub use shape::{Shape, ShapeTrait};
pub mod bit;

pub use bit::Bit;
pub mod rectangle;

pub use rectangle::{Rectangle, RectangleIter};
pub mod grid;

pub use grid::Grid;
