use vstd::prelude::*;

pub mod decimal;
pub mod path;
pub mod archive;
pub mod units;
pub mod catalog;
pub mod render;
pub mod dispatch;
pub mod zipread;
pub mod clock;

verus! {

} // verus!
