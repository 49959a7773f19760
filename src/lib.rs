use vstd::prelude::*;

pub mod error;
pub mod projects;
pub mod codec;
pub mod order;
pub mod ids;
pub mod branch;
pub mod target;
pub mod sessions;
pub mod reader;
pub mod laws;

verus! {

} // verus!
