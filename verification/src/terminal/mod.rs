pub mod grid;
pub mod selection;
