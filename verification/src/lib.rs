//! Swing R's verified core: the rules of the 9 / 20 / 200 EMA reversal screener, the FINDR
//! universe and screener decisions, and the text handling they rest on.

use vstd::prelude::*;

pub mod commands;
pub mod fetch;
pub mod findr;
pub mod series;
pub mod signal;
pub mod text;
pub mod universe;

verus! {

} // verus!
