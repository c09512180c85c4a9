//! Panelizes an SVG document: the visible top-level children of the input are
//! replicated across an X-by-Y grid of translated groups, and the canvas and
//! view box are enlarged to span the grid.
//!
//! All numeric work is done on exact decimal and rational values, so the
//! contracts state the results of every stage of the pipeline precisely.
//! Dimension numerals are plain decimals of at most twelve digits; that cap
//! keeps every later product inside machine integers and is the one limit
//! this library adds to the format it reads.

pub mod decimal;
pub mod grid;
pub mod length;
pub mod node;
pub mod panelize;
pub mod render;
pub mod viewbox;
