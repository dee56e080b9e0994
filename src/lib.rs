//! Exact integer geometry for checking a figure placed inside a polygonal hole.

pub mod geometry;
pub mod segment;
pub mod polygon;
pub mod boundary;
pub mod penalty;
pub mod parse;
