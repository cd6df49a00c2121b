use crate::align::{div_ceil_spec, round_up_spec, round_up_to};
use crate::kernel::{scan_start, tap, RecursiveGaussian};
use vstd::prelude::*;

verus! {

/// One step of the recurrence along a row: the two samples whose sum drives
/// the resonators, and the place that receives their output. Offsets count
/// from the start of the row. A tap of `None` lies in the zero padding and
/// contributes zero; an `out` of `None` means the step only advances the
/// resonator state.
#[derive(Clone, Copy, Debug, PartialEq, Eq)]
pub struct RowStep {
    pub left: Option<usize>,
    pub right: Option<usize>,
    pub out: Option<usize>,
}

/// One entry of a row's plan.
#[derive(Clone, Copy, Debug, PartialEq, Eq)]
pub enum RowOp {
    /// A single step whose taps were tested against the row's ends.
    Single(RowStep),
    /// Four consecutive steps, none of which touches the padding, so they
    /// can be evaluated together without a test. The fields are the offsets
    /// of the first of the four; lane `i` uses each offset plus `i`.
    Quad { left: usize, right: usize, out: usize },
}

/// The step at position `n` of a row of `width` samples: it reads
/// `n - radius - 1` and `n + radius - 1` and writes `n`, each only where it
/// lies inside the row.
pub open spec fn row_step(n: int, radius: int, width: int) -> RowStep {
    RowStep {
        left: tap(n - radius - 1, width),
        right: tap(n + radius - 1, width),
        out: tap(n, width),
    }
}

/// The serial scan of a row: every position from the first one the
/// recurrence visits up to the last sample, in order.
pub open spec fn row_scan(radius: int, width: int) -> Seq<RowStep> {
    Seq::new(
        (width - scan_start(radius)) as nat,
        |k: int| row_step(scan_start(radius) + k, radius, width),
    )
}

/// The first multiple of four above `radius`. From here on the left tap
/// `n - radius - 1` cannot fall before the row.
pub open spec fn first_aligned(radius: int) -> int {
    round_up_spec(radius + 1, 4)
}

/// Where the guarded steps at the start of a row end.
pub open spec fn prologue_end(radius: int, width: int) -> int {
    if first_aligned(radius) < width {
        first_aligned(radius)
    } else {
        width
    }
}

/// How far beyond its first position a block of four reaches: its last
/// right tap is at `n + radius + 2`, its last output at `n + 3`.
pub open spec fn quad_reach(radius: int) -> int {
    if radius >= 1 {
        radius + 2
    } else {
        3
    }
}

/// Number of unguarded blocks of four in a row.
pub open spec fn quad_count(radius: int, width: int) -> int {
    let p = prologue_end(radius, width);
    if p + quad_reach(radius) < width {
        div_ceil_spec(width - quad_reach(radius) - p, 4)
    } else {
        0
    }
}

/// Where the unguarded blocks end and the guarded steps resume.
pub open spec fn interior_end(radius: int, width: int) -> int {
    prologue_end(radius, width) + 4 * quad_count(radius, width)
}

/// Guarded steps for the positions `from..to`.
pub open spec fn single_run(from: int, to: int, radius: int, width: int) -> Seq<RowOp> {
    Seq::new((to - from) as nat, |k: int| RowOp::Single(row_step(from + k, radius, width)))
}

/// The unguarded block that starts at position `n`.
pub open spec fn quad_at(n: int, radius: int) -> RowOp {
    RowOp::Quad {
        left: (n - radius - 1) as usize,
        right: (n + radius - 1) as usize,
        out: n as usize,
    }
}

/// `count` unguarded blocks, the first at position `from`.
pub open spec fn quad_run(from: int, count: int, radius: int) -> Seq<RowOp> {
    Seq::new(count as nat, |j: int| quad_at(from + 4 * j, radius))
}

/// The plan of a row in its three parts: guarded steps up to the first
/// aligned position, blocks of four while a whole block stays inside the
/// row, guarded steps for what is left.
pub open spec fn blocked_scan(radius: int, width: int) -> Seq<RowOp> {
    single_run(scan_start(radius), prologue_end(radius, width), radius, width) + quad_run(
        prologue_end(radius, width),
        quad_count(radius, width),
        radius,
    ) + single_run(interior_end(radius, width), width, radius, width)
}

/// The serial steps that one plan entry stands for.
pub open spec fn expand_op(op: RowOp) -> Seq<RowStep> {
    match op {
        RowOp::Single(step) => seq![step],
        RowOp::Quad { left, right, out } => Seq::new(
            4,
            |lane: int|
                RowStep {
                    left: Some((left + lane) as usize),
                    right: Some((right + lane) as usize),
                    out: Some((out + lane) as usize),
                },
        ),
    }
}

/// The serial steps that a plan stands for, in order.
pub open spec fn expand(ops: Seq<RowOp>) -> Seq<RowStep>
    decreases ops.len(),
{
    if ops.len() == 0 {
        Seq::empty()
    } else {
        expand(ops.drop_last()) + expand_op(ops.last())
    }
}

/// Every offset that the entry names lies inside a row of `width` samples.
pub open spec fn op_within(op: RowOp, width: int) -> bool {
    match op {
        RowOp::Single(step) => {
            &&& step.left matches Some(i) ==> i < width
            &&& step.right matches Some(i) ==> i < width
            &&& step.out matches Some(i) ==> i < width
        },
        RowOp::Quad { left, right, out } => {
            &&& left + 3 < width
            &&& right + 3 < width
            &&& out + 3 < width
        },
    }
}

proof fn lemma_expand_concat(a: Seq<RowOp>, b: Seq<RowOp>)
    ensures
        expand(a + b) =~= expand(a) + expand(b),
    decreases b.len(),
{
    if b.len() == 0 {
        assert(a + b =~= a);
    } else {
        lemma_expand_concat(a, b.drop_last());
        assert((a + b).drop_last() =~= a + b.drop_last());
        assert((a + b).last() == b.last());
    }
}

proof fn lemma_expand_singles(from: int, to: int, radius: int, width: int)
    requires
        from <= to,
    ensures
        expand(single_run(from, to, radius, width)) =~= Seq::new(
            (to - from) as nat,
            |k: int| row_step(from + k, radius, width),
        ),
    decreases to - from,
{
    if from < to {
        lemma_expand_singles(from, to - 1, radius, width);
        assert(single_run(from, to, radius, width).drop_last() =~= single_run(
            from,
            to - 1,
            radius,
            width,
        ));
    }
}

proof fn lemma_expand_quads(from: int, count: int, radius: int, width: int)
    requires
        0 <= radius,
        width <= usize::MAX,
        0 <= count,
        radius < from,
        count > 0 ==> from + 4 * (count - 1) + quad_reach(radius) < width,
    ensures
        expand(quad_run(from, count, radius)) =~= Seq::new(
            (4 * count) as nat,
            |k: int| row_step(from + k, radius, width),
        ),
    decreases count,
{
    if count > 0 {
        lemma_expand_quads(from, count - 1, radius, width);
        assert(quad_run(from, count, radius).drop_last() =~= quad_run(from, count - 1, radius));
        let n = from + 4 * (count - 1);
        assert(quad_run(from, count, radius).last() == quad_at(n, radius));
        assert(expand_op(quad_at(n, radius)) =~= Seq::new(
            4,
            |lane: int| row_step(n + lane, radius, width),
        ));
    }
}

/// The blocked plan of a row stands for exactly its serial scan: cutting a
/// row into guarded steps and unguarded blocks changes neither which
/// samples feed a position nor the order of the positions.
pub proof fn lemma_blocks_expand_to_serial(radius: int, width: int)
    requires
        0 <= radius,
        0 <= width <= usize::MAX,
    ensures
        expand(blocked_scan(radius, width)) == row_scan(radius, width),
{
    let s = scan_start(radius);
    let p = prologue_end(radius, width);
    let c = quad_count(radius, width);
    let e = interior_end(radius, width);
    crate::align::lemma_round_up_is_least_multiple(radius + 1, 4);
    let head = single_run(s, p, radius, width);
    let body = quad_run(p, c, radius);
    let tail = single_run(e, width, radius, width);
    lemma_expand_concat(head + body, tail);
    lemma_expand_concat(head, body);
    lemma_expand_singles(s, p, radius, width);
    lemma_expand_singles(e, width, radius, width);
    if c > 0 {
        lemma_expand_quads(p, c, radius, width);
    } else {
        assert(body =~= Seq::<RowOp>::empty());
    }
    assert(expand(blocked_scan(radius, width)) =~= row_scan(radius, width));
}

/// No entry of a blocked plan names an offset outside the row.
pub proof fn lemma_blocked_scan_within(radius: int, width: int)
    requires
        0 <= radius,
        0 <= width <= usize::MAX,
    ensures
        forall|i: int|
            0 <= i < blocked_scan(radius, width).len() ==> op_within(
                #[trigger] blocked_scan(radius, width)[i],
                width,
            ),
{
    crate::align::lemma_round_up_is_least_multiple(radius + 1, 4);
}

/// A scan writes every position of its row exactly once and in order: the
/// step for position `n` is the only one that writes `n`, and the steps
/// before position 0 write nothing. No sample of the row is left as it was.
pub proof fn lemma_row_scan_writes_each_position_once(radius: int, width: int)
    requires
        0 <= radius,
        0 <= width <= usize::MAX,
    ensures
        row_scan(radius, width).len() == width - scan_start(radius),
        forall|k: int|
            0 <= k < row_scan(radius, width).len() ==> (#[trigger] row_scan(radius, width)[k]).out
                == if k + scan_start(radius) >= 0 {
                Some((k + scan_start(radius)) as usize)
            } else {
                None
            },
{
}

impl RecursiveGaussian {
    /// The guarded step at position `n` of a row.
    pub fn step_at(&self, n: usize, width: usize) -> (step: RowStep)
        requires
            n < width,
        ensures
            step == row_step(n as int, self.radius as int, width as int),
    {
        let r: usize = self.radius;
        let left: Option<usize> = if n > r {
            Some(n - r - 1)
        } else {
            None
        };
        let right: Option<usize> = if r == 0 {
            if n >= 1 {
                Some(n - 1)
            } else {
                None
            }
        } else if r - 1 < width - n {
            Some(n + (r - 1))
        } else {
            None
        };
        RowStep { left, right, out: Some(n) }
    }

    /// The serial plan of one row: one guarded step for each position.
    pub fn horizontal_serial(&self, width: usize) -> (steps: Vec<RowStep>)
        ensures
            steps@ == row_scan(self.radius as int, width as int),
    {
        let warm: usize = self.warmup_len();
        let ghost s = scan_start(self.radius as int);
        let mut steps: Vec<RowStep> = Vec::new();
        let mut j: usize = 0;
        while j < warm
            invariant
                j <= warm,
                warm == -s,
                s == scan_start(self.radius as int),
                steps@ =~= Seq::new(
                    j as nat,
                    |k: int| row_step(s + k, self.radius as int, width as int),
                ),
            decreases warm - j,
        {
            let right: Option<usize> = if j < width {
                Some(j)
            } else {
                None
            };
            steps.push(RowStep { left: None, right, out: None });
            j += 1;
        }
        let mut n: usize = 0;
        while n < width
            invariant
                n <= width,
                s == scan_start(self.radius as int),
                steps@ =~= Seq::new(
                    (n - s) as nat,
                    |k: int| row_step(s + k, self.radius as int, width as int),
                ),
            decreases width - n,
        {
            let step = self.step_at(n, width);
            steps.push(step);
            n += 1;
        }
        steps
    }

    /// The plan of the horizontal pass over one row of `width` samples.
    ///
    /// Every row of a plane is filtered by the same plan, with the offsets
    /// taken from the start of that row; the resonator state is zero when
    /// the plan starts.
    pub fn fast_gaussian_horizontal(&self, width: usize) -> (ops: Vec<RowOp>)
        ensures
            ops@ == blocked_scan(self.radius as int, width as int),
            expand(ops@) == row_scan(self.radius as int, width as int),
            forall|i: int| 0 <= i < ops@.len() ==> op_within(#[trigger] ops@[i], width as int),
    {
        let r: usize = self.radius;
        let warm: usize = self.warmup_len();
        let ghost s = scan_start(r as int);
        let ghost p = prologue_end(r as int, width as int);
        let mut ops: Vec<RowOp> = Vec::new();
        let mut j: usize = 0;
        while j < warm
            invariant
                j <= warm,
                warm == -s,
                s == scan_start(r as int),
                r == self.radius,
                ops@ =~= single_run(s, s + j, r as int, width as int),
            decreases warm - j,
        {
            let right: Option<usize> = if j < width {
                Some(j)
            } else {
                None
            };
            ops.push(RowOp::Single(RowStep { left: None, right, out: None }));
            j += 1;
        }
        let first: usize = if r / 4 >= width / 4 {
            width
        } else {
            round_up_to(r + 1, 4)
        };
        let mut n: usize = 0;
        while n < first
            invariant
                n <= first <= width,
                s == scan_start(r as int),
                r == self.radius,
                ops@ =~= single_run(s, n as int, r as int, width as int),
            decreases first - n,
        {
            let step = self.step_at(n, width);
            ops.push(RowOp::Single(step));
            n += 1;
        }
        let ghost mut c: int = 0;
        while width - n > 3 && width - n - 2 > r
            invariant
                n <= width,
                n == p + 4 * c,
                0 <= c,
                p == prologue_end(r as int, width as int),
                p == width || r < p,
                c > 0 ==> n - 4 + quad_reach(r as int) < width,
                s == scan_start(r as int),
                r == self.radius,
                ops@ =~= single_run(s, p, r as int, width as int) + quad_run(p, c, r as int),
            decreases width - n,
        {
            ops.push(RowOp::Quad { left: n - r - 1, right: n - 1 + r, out: n });
            proof {
                c = c + 1;
            }
            n += 4;
        }
        let ghost e = interior_end(r as int, width as int);
        let ghost head = ops@;
        while n < width
            invariant
                e <= n <= width,
                s == scan_start(r as int),
                r == self.radius,
                ops@ =~= head + single_run(e, n as int, r as int, width as int),
            decreases width - n,
        {
            let step = self.step_at(n, width);
            ops.push(RowOp::Single(step));
            n += 1;
        }
        proof {
            lemma_blocks_expand_to_serial(r as int, width as int);
            lemma_blocked_scan_within(r as int, width as int);
        }
        ops
    }
}

} // verus!
