use vstd::prelude::*;

pub mod config;
pub mod filter;
pub mod parser;
pub mod text;
pub mod theme;
pub mod tui;

verus! {

} // verus!
