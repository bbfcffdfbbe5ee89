pub mod address;
pub mod index;
pub mod level;
pub mod show;
pub mod universe;

use vstd::prelude::*;

verus! {

/// The number of DMX channels (addresses) in one universe.
pub const CHANNELS_PER_UNIVERSE: usize = 512;

} // verus!
