//! Verified core of a C-structure memory-layout visualizer.
//!
//! The crate has two halves: a layout engine that resolves an ordered list of
//! integer fields to byte offsets, padding spans and a total size under
//! natural-alignment rules, and an address-grid module that computes which
//! cells of an infinite multi-resolution byte-address grid are visible in a
//! pixel viewport.  A host UI owns the field list, calls these functions each
//! frame, and draws the returned geometry.

pub mod grid;
pub mod labels;
pub mod layout;
pub mod state;
