use vstd::prelude::*;

verus! {

/// The reach of the recursive Gaussian kernel.
///
/// Of the filter's coefficients only the radius decides which samples are
/// touched; the resonator gains and feedbacks scale what is read and never
/// move it.
#[derive(Clone, Copy, Debug, PartialEq, Eq, Structural)]
pub struct RecursiveGaussian {
    pub radius: usize,
}

/// The first position the recurrence visits. The right tap of position `n`
/// is `n + radius - 1`, so no sample is seen before `1 - radius`; a scan also
/// never starts after position 0, which it has to emit.
pub open spec fn scan_start(radius: int) -> int {
    if radius >= 1 {
        1 - radius
    } else {
        0
    }
}

/// The sample at `i` of a line of `len` samples, or nothing where the line
/// is zero padded.
pub open spec fn tap(i: int, len: int) -> Option<usize> {
    if 0 <= i < len {
        Some(i as usize)
    } else {
        None
    }
}

impl RecursiveGaussian {
    /// A kernel that reaches `radius` samples to either side.
    pub fn new(radius: usize) -> (kernel: Self)
        ensures
            kernel.radius == radius,
    {
        RecursiveGaussian { radius }
    }

    /// Steps taken before position 0, during which nothing is emitted.
    pub fn warmup_len(&self) -> (len: usize)
        ensures
            len == -scan_start(self.radius as int),
    {
        if self.radius >= 1 {
            self.radius - 1
        } else {
            0
        }
    }
}

} // verus!
