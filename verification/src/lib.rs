//! Host banner rendering: colour specifications, bitmap fonts, host
//! information lines and command-line option handling.
use vstd::prelude::*;

pub mod text;
pub mod colors;
pub mod fonts;
pub mod sys;
pub mod cli;

verus! {

} // verus!
