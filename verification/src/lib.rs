//! Access planning for a recursive Gaussian blur.
//!
//! The blur approximates a Gaussian with three second-order resonators that
//! run along every row and then along every column of a row-major plane.
//! This crate holds everything about that filter that is integer work: which
//! samples feed each step of the recurrence, where zero padding applies, how
//! a row is cut into guarded steps and unguarded blocks, how columns are
//! grouped into strips, where the recurrence state lives in its ring buffer,
//! and when an engine accepts a plane at all. The arithmetic on the samples
//! is done by the caller that walks the plan.
//!
//! * [`blur`]: the engine, its sizes and what it refuses.
//! * [`horizontal`]: the plan of a row, serial and in blocks of four.
//! * [`strip`], [`vertical`], [`block`]: the strips of a plane, the scan of
//!   a strip, and what each vector of a strip touches in a step.
//! * [`unroll`]: the closed form of a block of four outputs.
//! * [`exact`], [`exact_strip`]: what the plans compute on whole numbers,
//!   where no rounding occurs, and that it is the serial recurrence along
//!   every row and down every column.

pub mod align;
pub mod block;
pub mod blur;
pub mod error;
pub mod exact;
pub mod exact_strip;
pub mod horizontal;
pub mod kernel;
pub mod strip;
pub mod unroll;
pub mod vertical;

pub use align::{div_ceil, round_up_to};
pub use blur::{Blur, BlurPlan, Pass, Task};
pub use block::{ring_chunk, vertical_block, VectorAccess, VertBlockInput, VertBlockOutput};
pub use error::BlurError;
pub use horizontal::{RowOp, RowStep};
pub use kernel::RecursiveGaussian;
pub use strip::Strip;
pub use unroll::shift_left_lanes;
pub use vertical::{plane_offset, BlockStep, Phase, VertStep};
