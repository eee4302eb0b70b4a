use vstd::prelude::*;

pub mod check;
pub mod exchange;
pub mod gas;
pub mod package;
pub mod sas;
pub mod wire;

verus! {

} // verus!
