use vstd::prelude::*;

pub mod catalog;
pub mod components;
pub mod inherit;
pub mod json;
pub mod resolve;
pub mod systems;
pub mod tables;
pub mod text;
pub mod tiles;

verus! {

} // verus!
