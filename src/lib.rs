//! The core of a ray tracer, on an integer grid: scene objects and their
//! exact ray tests, axis-aligned bounding boxes with the slab test, a k-d tree
//! over objects that prunes queries by box, the scene description, and the
//! parts of the tile renderer that place samples and assemble the image.
use vstd::prelude::*;

pub mod types;
pub mod object;
pub mod env;
pub mod partition;
pub mod kdtree;
pub mod tracer;
pub mod render;

verus! {

} // verus!
