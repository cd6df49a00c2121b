use crate::error::BlurError;
use crate::horizontal::{blocked_scan, expand, op_within, row_scan, RowOp};
use crate::kernel::RecursiveGaussian;
use crate::strip::{strip_wf, strips, Strip};
use crate::vertical::{is_strip_plan, plan_within, BlockStep};
use vstd::prelude::*;

verus! {

/// A blur engine for planes of one size.
///
/// The engine remembers the kernel it was built with, the size of the planes
/// it currently accepts, and the number of samples its working buffer was
/// allocated with, which no later size may exceed.
#[derive(Clone, Copy, Debug, PartialEq, Eq)]
pub struct Blur {
    kernel: RecursiveGaussian,
    capacity: usize,
    width: usize,
    height: usize,
}

/// What an engine is, as numbers.
pub struct BlurModel {
    pub radius: nat,
    pub capacity: nat,
    pub width: nat,
    pub height: nat,
}

/// The passes over one plane: the plan that filters each of its rows into
/// the working buffer, and the strips whose scans filter the working buffer
/// into the output. All three planes of an image are blurred by the same
/// passes, one plane after the other, since they share the working buffer.
#[derive(Debug, PartialEq, Eq)]
pub struct BlurPlan {
    kernel: RecursiveGaussian,
    width: usize,
    height: usize,
    horizontal: Vec<RowOp>,
    strips: Vec<Strip>,
}

/// One of the two passes of the filter.
#[derive(Clone, Copy, Debug, PartialEq, Eq)]
pub enum Pass {
    /// Along the rows, from a plane of the image into the working buffer.
    Horizontal,
    /// Down the columns, from the working buffer into an output plane.
    Vertical,
}

/// One pass over one of the three planes of an image.
#[derive(Clone, Copy, Debug, PartialEq, Eq)]
pub struct Task {
    pub plane: usize,
    pub pass: Pass,
}

/// Planes of an image.
pub const PLANES: usize = 3;

/// The order of the passes over an image: plane after plane, each first
/// along its rows and then down its columns.
pub open spec fn schedule() -> Seq<Task> {
    Seq::new(
        (2 * PLANES) as nat,
        |i: int|
            Task {
                plane: (i / 2) as usize,
                pass: if i % 2 == 0 {
                    Pass::Horizontal
                } else {
                    Pass::Vertical
                },
            },
    )
}

/// The planes can share one working buffer: every plane is filtered along
/// its rows exactly once and down its columns exactly once, and what the
/// horizontal pass of a plane leaves in the buffer is read by the vertical
/// pass of the same plane before any other pass writes there.
pub proof fn lemma_schedule_shares_the_buffer()
    ensures
        schedule().len() == 2 * PLANES,
        forall|plane: int|
            0 <= plane < PLANES ==> {
                &&& (#[trigger] schedule()[2 * plane]) == (Task {
                    plane: plane as usize,
                    pass: Pass::Horizontal,
                })
                &&& schedule()[2 * plane + 1] == (Task {
                    plane: plane as usize,
                    pass: Pass::Vertical,
                })
            },
{
}

/// What a plan is, as numbers and sequences.
pub struct PlanModel {
    pub radius: nat,
    pub width: nat,
    pub height: nat,
    pub horizontal: Seq<RowOp>,
    pub strips: Seq<Strip>,
}

impl BlurModel {
    /// The working buffer, `width * height` samples long, fits in what was
    /// allocated.
    pub open spec fn wf(self) -> bool {
        &&& self.width * self.height <= self.capacity <= usize::MAX
        &&& self.width <= usize::MAX
        &&& self.height <= usize::MAX
        &&& self.radius <= usize::MAX
    }

    /// The engine for planes of `width` by `height` samples. Both must be
    /// positive, and a plane of that size must be addressable.
    pub open spec fn create(width: nat, height: nat, radius: nat) -> Result<BlurModel, BlurError> {
        if width == 0 || height == 0 || width * height > usize::MAX {
            Err(BlurError::InvalidDimension)
        } else {
            Ok(BlurModel { radius, capacity: width * height, width, height })
        }
    }

    /// The engine after a resize to `width` by `height`, which succeeds
    /// exactly when the new area fits in what was allocated.
    pub open spec fn resize(self, width: nat, height: nat) -> Result<BlurModel, BlurError> {
        if width * height > self.capacity {
            Err(BlurError::CapacityExceeded)
        } else {
            Ok(BlurModel { width, height, ..self })
        }
    }

    /// All three planes have the engine's area.
    pub open spec fn accepts(self, lens: Seq<usize>) -> bool {
        forall|i: int| 0 <= i < 3 ==> #[trigger] lens[i] == self.width * self.height
    }

    /// The passes over one plane of the engine's size.
    pub open spec fn passes(self) -> PlanModel {
        PlanModel {
            radius: self.radius,
            width: self.width,
            height: self.height,
            horizontal: blocked_scan(self.radius as int, self.width as int),
            strips: strips(self.width as int),
        }
    }

    /// What a blur of planes of the lengths `lens` comes to.
    pub open spec fn blur(self, lens: Seq<usize>) -> Result<PlanModel, BlurError> {
        if self.accepts(lens) {
            Ok(self.passes())
        } else {
            Err(BlurError::DimensionMismatch)
        }
    }
}

impl PlanModel {
    /// The plan holds the passes of a kernel over planes that can be
    /// addressed.
    pub open spec fn wf(self) -> bool {
        &&& self.width * self.height <= usize::MAX
        &&& self.width <= usize::MAX
        &&& self.height <= usize::MAX
        &&& self.radius <= usize::MAX
        &&& self.horizontal == blocked_scan(self.radius as int, self.width as int)
        &&& self.strips == strips(self.width as int)
    }
}

/// The outcome of building an engine, as a model.
pub open spec fn built(r: Result<Blur, BlurError>) -> Result<BlurModel, BlurError> {
    match r {
        Ok(engine) => Ok(engine@),
        Err(e) => Err(e),
    }
}

/// The outcome of a blur, as a model.
pub open spec fn planned(r: Result<BlurPlan, BlurError>) -> Result<PlanModel, BlurError> {
    match r {
        Ok(plan) => Ok(plan@),
        Err(e) => Err(e),
    }
}

impl View for Blur {
    type V = BlurModel;

    closed spec fn view(&self) -> BlurModel {
        BlurModel {
            radius: self.kernel.radius as nat,
            capacity: self.capacity as nat,
            width: self.width as nat,
            height: self.height as nat,
        }
    }
}

impl View for BlurPlan {
    type V = PlanModel;

    closed spec fn view(&self) -> PlanModel {
        PlanModel {
            radius: self.kernel.radius as nat,
            width: self.width as nat,
            height: self.height as nat,
            horizontal: self.horizontal@,
            strips: self.strips@,
        }
    }
}

impl Blur {
    #[verifier::type_invariant]
    spec fn fits_allocation(&self) -> bool {
        self.width * self.height <= self.capacity
    }

    /// Creates the engine for planes of `width` by `height` samples that
    /// are blurred with `kernel`.
    pub fn new(width: usize, height: usize, kernel: RecursiveGaussian) -> (r: Result<
        Blur,
        BlurError,
    >)
        ensures
            built(r) == BlurModel::create(width as nat, height as nat, kernel.radius as nat),
            r is Err <==> width == 0 || height == 0 || width * height > usize::MAX,
            r matches Err(e) ==> e == BlurError::InvalidDimension,
            r matches Ok(engine) ==> engine@.wf(),
    {
        if width == 0 || height == 0 {
            return Err(BlurError::InvalidDimension);
        }
        match width.checked_mul(height) {
            Some(area) => Ok(Blur { kernel, capacity: area, width, height }),
            None => Err(BlurError::InvalidDimension),
        }
    }

    /// Width of the planes that the engine accepts.
    pub fn width(&self) -> (w: usize)
        ensures
            w == self@.width,
    {
        self.width
    }

    /// Height of the planes that the engine accepts.
    pub fn height(&self) -> (h: usize)
        ensures
            h == self@.height,
    {
        self.height
    }

    /// Samples that the working buffer was allocated with.
    pub fn capacity(&self) -> (c: usize)
        ensures
            c == self@.capacity,
            self@.wf(),
    {
        proof {
            use_type_invariant(self);
        }
        self.capacity
    }

    /// The kernel that the engine was built with.
    pub fn kernel(&self) -> (k: RecursiveGaussian)
        ensures
            k.radius == self@.radius,
    {
        self.kernel
    }

    /// Length of the working buffer, and of every plane that the engine
    /// accepts.
    pub fn plane_len(&self) -> (len: usize)
        ensures
            len == self@.width * self@.height,
            self@.wf(),
    {
        proof {
            use_type_invariant(self);
        }
        self.width * self.height
    }

    /// Changes the size of the planes that the engine accepts.
    ///
    /// The working buffer is cut to the new area and never grows beyond
    /// what it was allocated with: a size of a larger area is refused and
    /// leaves the engine as it was.
    pub fn shrink_to(&mut self, width: usize, height: usize) -> (r: Result<(), BlurError>)
        ensures
            match old(self)@.resize(width as nat, height as nat) {
                Ok(resized) => r is Ok && final(self)@ == resized,
                Err(e) => r == Err::<(), BlurError>(e) && final(self)@ == old(self)@,
            },
            r is Err <==> width * height > old(self)@.capacity,
            r matches Err(e) ==> e == BlurError::CapacityExceeded,
            final(self)@.wf(),
    {
        proof {
            use_type_invariant(&*self);
        }
        let fits: bool = match width.checked_mul(height) {
            Some(area) => area <= self.capacity,
            None => false,
        };
        if fits {
            *self = Blur { kernel: self.kernel, capacity: self.capacity, width, height };
            Ok(())
        } else {
            Err(BlurError::CapacityExceeded)
        }
    }

    /// Plans the passes over one plane of the engine's size.
    fn blur_plane(&self) -> (plan: BlurPlan)
        ensures
            plan@ == self@.passes(),
    {
        proof {
            use_type_invariant(self);
        }
        BlurPlan {
            kernel: self.kernel,
            width: self.width,
            height: self.height,
            horizontal: self.kernel.fast_gaussian_horizontal(self.width),
            strips: self.kernel.fast_gaussian_vertical(self.width),
        }
    }

    /// Compares the three planes of an image with the engine's size and
    /// plans their blur.
    ///
    /// `lens` holds the length of each plane. A plane of any other length
    /// than the engine's width times its height is refused; nothing is cut
    /// or padded to fit.
    pub fn blur(&self, lens: [usize; 3]) -> (r: Result<BlurPlan, BlurError>)
        ensures
            planned(r) == self@.blur(lens@),
            r is Err <==> exists|i: int|
                0 <= i < 3 && #[trigger] lens@[i] != self@.width * self@.height,
            r matches Err(e) ==> e == BlurError::DimensionMismatch,
            r matches Ok(plan) ==> plan@.wf(),
    {
        let area: usize = self.plane_len();
        if lens[0] != area || lens[1] != area || lens[2] != area {
            return Err(BlurError::DimensionMismatch);
        }
        Ok(self.blur_plane())
    }
}

impl BlurPlan {
    #[verifier::type_invariant]
    spec fn holds_passes(&self) -> bool {
        &&& self.width * self.height <= usize::MAX
        &&& self.horizontal@ == blocked_scan(self.kernel.radius as int, self.width as int)
        &&& self.strips@ == strips(self.width as int)
    }

    /// The kernel whose passes these are.
    pub fn kernel(&self) -> (k: RecursiveGaussian)
        ensures
            k.radius == self@.radius,
    {
        self.kernel
    }

    /// Width of the planes that the passes run over.
    pub fn width(&self) -> (w: usize)
        ensures
            w == self@.width,
    {
        self.width
    }

    /// Height of the planes that the passes run over.
    pub fn height(&self) -> (h: usize)
        ensures
            h == self@.height,
    {
        self.height
    }

    /// The passes over the three planes of an image, in the order in which
    /// they share the working buffer.
    pub fn schedule(&self) -> (tasks: Vec<Task>)
        ensures
            tasks@ == schedule(),
    {
        let mut tasks: Vec<Task> = Vec::new();
        let mut plane: usize = 0;
        while plane < PLANES
            invariant
                plane <= PLANES,
                tasks@ =~= schedule().take(2 * plane),
            decreases PLANES - plane,
        {
            tasks.push(Task { plane, pass: Pass::Horizontal });
            tasks.push(Task { plane, pass: Pass::Vertical });
            plane += 1;
        }
        assert(schedule().take(2 * PLANES as int) =~= schedule());
        tasks
    }

    /// The plan of the horizontal pass over one row, with offsets that
    /// count from the start of the row. It stands for the serial scan of
    /// the row and names no offset outside it.
    pub fn horizontal(&self) -> (ops: &Vec<RowOp>)
        ensures
            ops@ == self@.horizontal,
            self@.wf(),
            expand(ops@) == row_scan(self@.radius as int, self@.width as int),
            forall|i: int|
                0 <= i < ops@.len() ==> op_within(#[trigger] ops@[i], self@.width as int),
    {
        proof {
            use_type_invariant(self);
            crate::horizontal::lemma_blocks_expand_to_serial(
                self.kernel.radius as int,
                self.width as int,
            );
            crate::horizontal::lemma_blocked_scan_within(
                self.kernel.radius as int,
                self.width as int,
            );
        }
        &self.horizontal
    }

    /// The strips of the vertical pass, from left to right.
    pub fn strips(&self) -> (tiles: &Vec<Strip>)
        ensures
            tiles@ == self@.strips,
            self@.wf(),
    {
        proof {
            use_type_invariant(self);
        }
        &self.strips
    }

    /// Offset of the first sample of `row`, or nothing where the plane has
    /// no such row. The whole row lies inside the plane.
    pub fn row_start(&self, row: usize) -> (start: Option<usize>)
        ensures
            start is Some <==> row < self@.height,
            start matches Some(s) ==> s == row * self@.width && s + self@.width <= self@.width
                * self@.height,
    {
        proof {
            use_type_invariant(self);
        }
        if row < self.height {
            assert(row * self.width + self.width <= self.width * self.height)
                by (nonlinear_arith)
                requires
                    row < self.height,
            ;
            Some(row * self.width)
        } else {
            None
        }
    }

    /// The scan of the strip with index `index`, or nothing where the plane
    /// has no such strip. No access of the scan leaves the plane.
    pub fn vertical_strip(&self, index: usize) -> (scan: Option<Vec<BlockStep>>)
        ensures
            scan is Some <==> index < self@.strips.len(),
            scan matches Some(plan) ==> is_strip_plan(
                plan@,
                self@.strips[index as int],
                self@.radius as int,
                self@.width as int,
                self@.height as int,
            ) && plan_within(plan@, (self@.width * self@.height) as int),
    {
        proof {
            use_type_invariant(self);
            crate::strip::lemma_strips_tile(self.width as int);
        }
        if index < self.strips.len() {
            let strip: Strip = self.strips[index];
            Some(self.kernel.vertical_strip(&strip, self.width, self.height))
        } else {
            None
        }
    }
}

/// An engine that was built for a larger size and then resized blurs as an
/// engine that was built for the smaller size: the resize succeeds, and
/// both refuse the same planes and plan the same passes for those they
/// accept.
pub proof fn lemma_resized_engine_blurs_as_fresh(
    width: nat,
    height: nat,
    new_width: nat,
    new_height: nat,
    radius: nat,
    lens: Seq<usize>,
)
    requires
        BlurModel::create(width, height, radius) is Ok,
        BlurModel::create(new_width, new_height, radius) is Ok,
        new_width * new_height <= width * height,
    ensures
        BlurModel::create(width, height, radius)->Ok_0.resize(new_width, new_height) is Ok,
        BlurModel::create(width, height, radius)->Ok_0.resize(new_width, new_height)->Ok_0.blur(
            lens,
        ) == BlurModel::create(new_width, new_height, radius)->Ok_0.blur(lens),
{
}

} // verus!
