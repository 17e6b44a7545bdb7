use vstd::prelude::*;

pub mod cubesphere;
pub mod input;
pub mod scene_graph;

verus! {

} // verus!
