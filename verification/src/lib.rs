//! Verified core of the dotfiles installer's terminal front end.

pub mod animations;
pub mod runner;
pub mod state;
pub mod text;
pub mod theme;
pub mod view;

use vstd::prelude::*;

verus! {

} // verus!
