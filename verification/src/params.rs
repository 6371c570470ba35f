//! Tunable constants of the routing layer.

use vstd::prelude::*;

verus! {

/// Maximum number of nodes that a single k-bucket can hold.
pub const MAX_BUCKET_SIZE: usize = 4;

/// Number of nodes contacted in parallel during a lookup round.
pub const ALPHA: usize = 3;

} // verus!
