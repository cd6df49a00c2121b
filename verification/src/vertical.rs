use crate::block::{
    block_accesses, vertical_block, VectorAccess, VertBlockInput, VertBlockOutput, V_MOD,
};
use crate::kernel::{scan_start, RecursiveGaussian};
use crate::strip::{strip_wf, Strip, V_MAX_LANES, V_PREFETCH_ROWS};
use vstd::prelude::*;

verus! {

/// The part of a strip's scan that a row position falls in.
#[derive(Clone, Copy, Debug, PartialEq, Eq)]
pub enum Phase {
    /// Before row 0: the state is primed and nothing is written.
    Warmup,
    /// Rows whose upper tap lies above the plane.
    TopBorder,
    /// Rows whose taps, and the rows prefetched for them, all exist.
    Interior,
    /// The remaining rows; the lower tap may lie below the plane.
    BottomBorder,
}

/// One step of the recurrence down a strip.
#[derive(Clone, Copy, Debug, PartialEq, Eq)]
pub struct VertStep {
    pub phase: Phase,
    pub input: VertBlockInput,
    pub output: VertBlockOutput,
    /// In the interior, the offsets eight rows below each tap, worth a
    /// prefetch hint. Skipping the hint changes no sample.
    pub prefetch: Option<(usize, usize)>,
}

/// The part of the scan that position `n` falls in.
pub open spec fn phase_at(n: int, radius: int, height: int) -> Phase {
    if n < 0 {
        Phase::Warmup
    } else if n <= radius {
        Phase::TopBorder
    } else if n + radius - 1 + V_PREFETCH_ROWS < height {
        Phase::Interior
    } else {
        Phase::BottomBorder
    }
}

/// Offset of column `x` in `row`, or nothing where the row lies outside the
/// plane.
pub open spec fn row_offset(row: int, x: int, width: int, height: int) -> Option<usize> {
    if 0 <= row < height {
        Some((row * width + x) as usize)
    } else {
        None
    }
}

/// The step at row position `n` of the strip that starts at column `x`: it
/// reads the rows `n - radius - 1` and `n + radius - 1` and writes row `n`,
/// each only where it lies inside the plane.
pub open spec fn vert_step(n: int, x: int, radius: int, width: int, height: int) -> VertStep {
    let top = n - radius - 1;
    let bottom = n + radius - 1;
    VertStep {
        phase: phase_at(n, radius, height),
        input: match row_offset(top, x, width, height) {
            Some(t) => VertBlockInput::TwoInputs(t, row_offset(bottom, x, width, height)),
            None => VertBlockInput::SingleInput(row_offset(bottom, x, width, height)),
        },
        output: match row_offset(n, x, width, height) {
            Some(o) => VertBlockOutput::Store(o),
            None => VertBlockOutput::Discard,
        },
        prefetch: if phase_at(n, radius, height) is Interior {
            Some(
                (
                    ((top + V_PREFETCH_ROWS) * width + x) as usize,
                    ((bottom + V_PREFETCH_ROWS) * width + x) as usize,
                ),
            )
        } else {
            None
        },
    }
}

/// The scan of one strip: every row position from the first one the
/// recurrence visits down to the last row, in order.
pub open spec fn strip_scan(x: int, radius: int, width: int, height: int) -> Seq<VertStep> {
    Seq::new(
        (height - scan_start(radius)) as nat,
        |k: int| vert_step(scan_start(radius) + k, x, radius, width, height),
    )
}

/// From `offset` on, the rest of a row that starts at column `x` lies
/// inside the plane.
pub open spec fn row_tail_within(offset: usize, x: int, width: int, height: int) -> bool {
    offset + (width - x) <= width * height
}

/// Every offset that the step names leaves room for the rest of its row.
pub open spec fn step_within(step: VertStep, x: int, width: int, height: int) -> bool {
    &&& match step.input {
        VertBlockInput::SingleInput(bottom) => bottom matches Some(b) ==> row_tail_within(
            b,
            x,
            width,
            height,
        ),
        VertBlockInput::TwoInputs(top, bottom) => {
            &&& row_tail_within(top, x, width, height)
            &&& bottom matches Some(b) ==> row_tail_within(b, x, width, height)
        },
    }
    &&& step.output matches VertBlockOutput::Store(o) ==> row_tail_within(o, x, width, height)
    &&& step.prefetch matches Some((t, b)) ==> row_tail_within(t, x, width, height)
        && row_tail_within(b, x, width, height)
}

/// The shape of a step follows from its phase: the warm-up writes nothing,
/// both borders test one tap, and the interior has both taps and its
/// prefetch rows inside the plane.
pub open spec fn step_fits_phase(step: VertStep) -> bool {
    match step.phase {
        Phase::Warmup => step.input is SingleInput && step.output is Discard
            && step.prefetch is None,
        Phase::TopBorder => step.input is SingleInput && step.output is Store
            && step.prefetch is None,
        Phase::Interior => step.input matches VertBlockInput::TwoInputs(_, Some(_))
            && step.output is Store && step.prefetch is Some,
        Phase::BottomBorder => step.input is TwoInputs && step.output is Store
            && step.prefetch is None,
    }
}

/// One step of a strip together with what each of its vectors touches.
#[derive(Debug, PartialEq, Eq)]
pub struct BlockStep {
    pub step: VertStep,
    pub accesses: Vec<VectorAccess>,
}

/// The access reads and writes only samples of a plane of `plane_len`
/// samples.
pub open spec fn access_within(access: VectorAccess, plane_len: int) -> bool {
    &&& access.top matches Some(o) ==> o + access.lanes <= plane_len
    &&& access.bottom matches Some(o) ==> o + access.lanes <= plane_len
    &&& access.store matches Some(o) ==> o + access.lanes <= plane_len
}

/// `planned` is step number `k` of the scan of `strip`, counted from zero,
/// resolved for each of the strip's vectors.
pub open spec fn is_block_step(
    planned: BlockStep,
    k: int,
    strip: Strip,
    radius: int,
    width: int,
    height: int,
) -> bool {
    let step = strip_scan(strip.x as int, radius, width, height)[k];
    &&& planned.step == step
    &&& planned.accesses@ == block_accesses(strip, step.input, k + 1, step.output)
}

/// `plan` is the whole scan of `strip`, step by step.
pub open spec fn is_strip_plan(
    plan: Seq<BlockStep>,
    strip: Strip,
    radius: int,
    width: int,
    height: int,
) -> bool {
    &&& plan.len() == strip_scan(strip.x as int, radius, width, height).len()
    &&& forall|k: int|
        0 <= k < plan.len() ==> is_block_step(#[trigger] plan[k], k, strip, radius, width, height)
}

/// No access of `plan` leaves a plane of `plane_len` samples.
pub open spec fn plan_within(plan: Seq<BlockStep>, plane_len: int) -> bool {
    forall|k: int, v: int|
        0 <= k < plan.len() && 0 <= v < plan[k].accesses@.len() ==> access_within(
            #[trigger] plan[k].accesses@[v],
            plane_len,
        )
}

proof fn lemma_row_offset_within(row: int, x: int, width: int, height: int)
    requires
        0 <= row < height,
        0 <= x < width,
        width * height <= usize::MAX,
    ensures
        0 <= row * width + x,
        row * width + x + (width - x) <= width * height,
        row_offset(row, x, width, height) == Some((row * width + x) as usize),
        (row * width + x) as usize == row * width + x,
{
    assert(row * width + width <= width * height) by (nonlinear_arith)
        requires
            0 <= row < height,
            0 <= width,
    ;
    assert(0 <= row * width) by (nonlinear_arith)
        requires
            0 <= row,
            0 <= width,
    ;
}

/// Every step of a strip's scan stays inside the plane and has the shape of
/// its phase.
pub proof fn lemma_strip_scan_sound(x: int, radius: int, width: int, height: int)
    requires
        0 <= radius,
        0 <= x < width,
        0 <= height,
        width * height <= usize::MAX,
    ensures
        forall|i: int|
            0 <= i < strip_scan(x, radius, width, height).len() ==> {
                let step = #[trigger] strip_scan(x, radius, width, height)[i];
                step_within(step, x, width, height) && step_fits_phase(step)
            },
{
    let scan = strip_scan(x, radius, width, height);
    assert forall|i: int| 0 <= i < scan.len() implies step_within(
        #[trigger] scan[i],
        x,
        width,
        height,
    ) && step_fits_phase(scan[i]) by {
        let n = scan_start(radius) + i;
        let top = n - radius - 1;
        let bottom = n + radius - 1;
        if 0 <= top < height {
            lemma_row_offset_within(top, x, width, height);
        }
        if 0 <= bottom < height {
            lemma_row_offset_within(bottom, x, width, height);
        }
        if 0 <= n {
            lemma_row_offset_within(n, x, width, height);
        }
        if phase_at(n, radius, height) is Interior {
            lemma_row_offset_within(top + V_PREFETCH_ROWS, x, width, height);
            lemma_row_offset_within(bottom + V_PREFETCH_ROWS, x, width, height);
        }
    }
}

/// A scan writes every row of its strip exactly once and in order: the step
/// for row position `n` is the only one that writes row `n`, and the steps
/// before row 0 write nothing.
pub proof fn lemma_strip_scan_writes_each_row_once(x: int, radius: int, width: int, height: int)
    requires
        0 <= radius,
        0 <= x < width,
        0 <= height,
        width * height <= usize::MAX,
    ensures
        strip_scan(x, radius, width, height).len() == height - scan_start(radius),
        forall|k: int|
            0 <= k < strip_scan(x, radius, width, height).len() ==> (#[trigger] strip_scan(
                x,
                radius,
                width,
                height,
            )[k]).output == if k + scan_start(radius) >= 0 {
                VertBlockOutput::Store(((k + scan_start(radius)) * width + x) as usize)
            } else {
                VertBlockOutput::Discard
            },
{
}

/// Offset of column `x` in `row` of a row-major plane.
pub fn plane_offset(row: usize, x: usize, width: usize, height: usize) -> (offset: usize)
    requires
        row < height,
        x < width,
        width * height <= usize::MAX,
    ensures
        offset == row * width + x,
        row_offset(row as int, x as int, width as int, height as int) == Some(offset),
        row_tail_within(offset, x as int, width as int, height as int),
{
    proof {
        lemma_row_offset_within(row as int, x as int, width as int, height as int);
    }
    row * width + x
}

impl RecursiveGaussian {
    /// The steps of the strip that starts at column `x`, for a plane of
    /// `width` by `height` samples, row position by row position.
    ///
    /// A strip is scanned in four phases; see [`Phase`].
    pub fn strip_steps(&self, x: usize, width: usize, height: usize) -> (steps: Vec<VertStep>)
        requires
            x < width,
            width * height <= usize::MAX,
        ensures
            steps@ == strip_scan(x as int, self.radius as int, width as int, height as int),
            forall|i: int|
                0 <= i < steps@.len() ==> step_within(
                    #[trigger] steps@[i],
                    x as int,
                    width as int,
                    height as int,
                ) && step_fits_phase(steps@[i]),
    {
        let r: usize = self.radius;
        let warm: usize = self.warmup_len();
        let ghost s = scan_start(r as int);
        let mut steps: Vec<VertStep> = Vec::new();
        let mut j: usize = 0;
        while j < warm
            invariant
                j <= warm,
                warm == -s,
                s == scan_start(r as int),
                x < width,
                width * height <= usize::MAX,
                steps@ =~= Seq::new(
                    j as nat,
                    |k: int| vert_step(s + k, x as int, r as int, width as int, height as int),
                ),
            decreases warm - j,
        {
            let bottom: Option<usize> = if j < height {
                Some(plane_offset(j, x, width, height))
            } else {
                None
            };
            steps.push(
                VertStep {
                    phase: Phase::Warmup,
                    input: VertBlockInput::SingleInput(bottom),
                    output: VertBlockOutput::Discard,
                    prefetch: None,
                },
            );
            j += 1;
        }
        let top_end: usize = if r < height {
            r + 1
        } else {
            height
        };
        let mut n: usize = 0;
        while n < top_end
            invariant
                n <= top_end <= height,
                top_end <= r + 1,
                top_end == height || top_end == r + 1,
                s == scan_start(r as int),
                x < width,
                width * height <= usize::MAX,
                steps@ =~= Seq::new(
                    (n - s) as nat,
                    |k: int| vert_step(s + k, x as int, r as int, width as int, height as int),
                ),
            decreases top_end - n,
        {
            let bottom: Option<usize> = if r == 0 {
                None
            } else if r - 1 < height - n {
                Some(plane_offset(n + (r - 1), x, width, height))
            } else {
                None
            };
            let out: usize = plane_offset(n, x, width, height);
            steps.push(
                VertStep {
                    phase: Phase::TopBorder,
                    input: VertBlockInput::SingleInput(bottom),
                    output: VertBlockOutput::Store(out),
                    prefetch: None,
                },
            );
            n += 1;
        }
        while height - n > V_PREFETCH_ROWS - 1 && height - n - (V_PREFETCH_ROWS - 1) > r
            invariant
                n <= height,
                n == height || n > r,
                s == scan_start(r as int),
                x < width,
                width * height <= usize::MAX,
                steps@ =~= Seq::new(
                    (n - s) as nat,
                    |k: int| vert_step(s + k, x as int, r as int, width as int, height as int),
                ),
            decreases height - n,
        {
            let top: usize = n - r - 1;
            let bottom: usize = n - 1 + r;
            let input = VertBlockInput::TwoInputs(
                plane_offset(top, x, width, height),
                Some(plane_offset(bottom, x, width, height)),
            );
            let out: usize = plane_offset(n, x, width, height);
            let ahead = (
                plane_offset(top + V_PREFETCH_ROWS, x, width, height),
                plane_offset(bottom + V_PREFETCH_ROWS, x, width, height),
            );
            steps.push(
                VertStep {
                    phase: Phase::Interior,
                    input,
                    output: VertBlockOutput::Store(out),
                    prefetch: Some(ahead),
                },
            );
            n += 1;
        }
        while n < height
            invariant
                n <= height,
                n == height || n > r,
                n < height ==> n + r - 1 + V_PREFETCH_ROWS >= height,
                s == scan_start(r as int),
                x < width,
                width * height <= usize::MAX,
                steps@ =~= Seq::new(
                    (n - s) as nat,
                    |k: int| vert_step(s + k, x as int, r as int, width as int, height as int),
                ),
            decreases height - n,
        {
            let top: usize = n - r - 1;
            let bottom: Option<usize> = if r == 0 {
                Some(plane_offset(n - 1, x, width, height))
            } else if r - 1 < height - n {
                Some(plane_offset(n + (r - 1), x, width, height))
            } else {
                None
            };
            let out: usize = plane_offset(n, x, width, height);
            steps.push(
                VertStep {
                    phase: Phase::BottomBorder,
                    input: VertBlockInput::TwoInputs(plane_offset(top, x, width, height), bottom),
                    output: VertBlockOutput::Store(out),
                    prefetch: None,
                },
            );
            n += 1;
        }
        proof {
            lemma_strip_scan_sound(x as int, r as int, width as int, height as int);
        }
        steps
    }

    /// The scan of one strip of the vertical pass over a plane of `width`
    /// by `height` samples.
    ///
    /// The resonator state is zero when the scan starts. Step number `k`
    /// of the result is the step at row position `k` past the first one the
    /// recurrence visits, with the ring buffer turned `k + 1` times.
    pub fn vertical_strip(&self, strip: &Strip, width: usize, height: usize) -> (plan: Vec<
        BlockStep,
    >)
        requires
            strip_wf(*strip),
            strip.x + strip.lanes <= width,
            width * height <= usize::MAX,
        ensures
            is_strip_plan(plan@, *strip, self.radius as int, width as int, height as int),
            plan_within(plan@, width * height),
    {
        let steps = self.strip_steps(strip.x, width, height);
        let mut plan: Vec<BlockStep> = Vec::new();
        let mut ctr: usize = 0;
        let mut k: usize = 0;
        while k < steps.len()
            invariant
                k <= steps.len(),
                plan@.len() == k,
                ctr < V_MOD,
                ctr == k % 4,
                strip_wf(*strip),
                strip.x + strip.lanes <= width,
                width * height <= usize::MAX,
                steps@ == strip_scan(
                    strip.x as int,
                    self.radius as int,
                    width as int,
                    height as int,
                ),
                forall|i: int|
                    0 <= i < steps@.len() ==> step_within(
                        #[trigger] steps@[i],
                        strip.x as int,
                        width as int,
                        height as int,
                    ),
                forall|i: int|
                    0 <= i < k ==> is_block_step(
                        #[trigger] plan@[i],
                        i,
                        *strip,
                        self.radius as int,
                        width as int,
                        height as int,
                    ),
                forall|i: int, v: int|
                    0 <= i < k && 0 <= v < plan@[i].accesses@.len() ==> access_within(
                        #[trigger] plan@[i].accesses@[v],
                        width * height,
                    ),
            decreases steps.len() - k,
        {
            let step: VertStep = steps[k];
            let accesses = vertical_block(strip, &step.input, &mut ctr, &step.output);
            assert(accesses@ =~= block_accesses(*strip, step.input, k + 1, step.output));
            assert forall|v: int| 0 <= v < accesses@.len() implies access_within(
                #[trigger] accesses@[v],
                width * height,
            ) by {
                assert(accesses@[v].lanes + V_MAX_LANES * v <= strip.lanes);
            }
            if ctr == V_MOD {
                ctr = 0;
            }
            plan.push(BlockStep { step, accesses });
            k += 1;
        }
        plan
    }
}

} // verus!
