use vstd::prelude::*;

pub mod bandwidth;
pub mod cli;
pub mod cycle;
pub mod decimal;
pub mod dns;
pub mod jitter;
pub mod ping;
pub mod text;

verus! {

} // verus!
