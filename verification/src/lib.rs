//! Lienzo: the pixel engine, the document model and the tool logic of a
//! small Paint-like editor, with their contracts.
use vstd::prelude::*;

pub mod color;
pub mod canvas;
pub mod grid;
pub mod fill;
pub mod chars;
pub mod lang;
pub mod shapes;
pub mod doc;
pub mod theme;
pub mod ui;
pub mod view;
pub mod session;
pub mod gesture;

verus! {

} // verus!
