//! A memory-mapped text-mode display driver: a character-cell writer that
//! renders printable ASCII with packed colour attributes into a fixed
//! 25-row by 80-column grid of volatile cells, with line wrapping and
//! vertical scrolling.

pub mod colour;
pub mod surface;
pub mod writer;
