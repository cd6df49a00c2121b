use vstd::prelude::*;

verus! {

/// Why an engine refuses a size or a plane.
#[derive(Clone, Copy, Debug, PartialEq, Eq, Structural)]
pub enum BlurError {
    /// A width or height of zero, or an area no plane can have on this machine.
    InvalidDimension,
    /// A resize asked for more samples than the engine was built with.
    CapacityExceeded,
    /// A plane whose length is not the engine's width times its height.
    DimensionMismatch,
}

} // verus!
