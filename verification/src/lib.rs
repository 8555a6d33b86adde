//! Core of a hierarchical-archive browser: a parser that rebuilds a tree of
//! named groups and typed datasets from a flat, pre-order textual listing,
//! path algebra for navigating that tree, a shape classifier for datasets,
//! and a cache that maps slice locators to decoded RGBA images.

pub mod errors;
pub mod listing;
pub mod page;
pub mod path;
pub mod shape;
pub mod slice;
pub mod text;
pub mod tree;

use vstd::prelude::*;

verus! {

} // verus!
