//! The verified core of a 3D editor for expression term graphs.

use vstd::prelude::*;

pub mod caret;
pub mod cell;
pub mod common;
pub mod diagnostics;
pub mod editor;
pub mod evaluation;
pub mod infer;
pub mod keys;
pub mod labels;
pub mod marks;
pub mod model;
pub mod panel;
pub mod picking;
pub mod prompt;
pub mod selection;
pub mod removal;
pub mod render;
pub mod seed;
pub mod sources;
pub mod suggest;
pub mod target;
pub mod text;
pub mod text_edit;
pub mod text_field;
pub mod view;
pub mod wiring;

verus! {

} // verus!
