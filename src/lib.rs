use vstd::prelude::*;

pub mod leaves;
mod random;
pub mod registry;
pub mod field;
pub mod streamline;
pub mod render;

verus! {

} // verus!
