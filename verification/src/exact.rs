use crate::horizontal::{
    blocked_scan, expand, expand_op, lemma_blocked_scan_within, lemma_blocks_expand_to_serial,
    op_within, row_scan, RowOp, RowStep,
};
use crate::unroll::{lemma_unrolled_is_serial, resonate, unrolled};
use vstd::prelude::*;

verus! {

/// The two coefficients of one resonator, as whole numbers: the arithmetic
/// of this module never rounds.
pub struct Resonator {
    pub gain: int,
    pub feedback: int,
}

/// What a resonator remembers between steps: its last output and the one
/// before it.
pub struct Memory {
    pub prev: int,
    pub prev2: int,
}

/// A resonator before its first step.
pub open spec fn at_rest() -> Memory {
    Memory { prev: 0, prev2: 0 }
}

/// The sample that a tap reads: zero in the padding.
pub open spec fn sample(row: Seq<int>, at: Option<usize>) -> int {
    match at {
        Some(i) => row[i as int],
        None => 0,
    }
}

/// The sum of both taps of a step.
pub open spec fn drive(step: RowStep, row: Seq<int>) -> int {
    sample(row, step.left) + sample(row, step.right)
}

/// One step of the recurrence
/// `y[n] = gain * x - feedback * y[n - 1] - y[n - 2]`.
pub open spec fn advance(r: Resonator, m: Memory, x: int) -> Memory {
    Memory { prev: r.gain * x - r.feedback * m.prev - m.prev2, prev2: m.prev }
}

/// The memory of a resonator after it has taken `steps` one by one.
pub open spec fn serial_memory(r: Resonator, steps: Seq<RowStep>, row: Seq<int>) -> Memory
    decreases steps.len(),
{
    if steps.len() == 0 {
        at_rest()
    } else {
        advance(r, serial_memory(r, steps.drop_last(), row), drive(steps.last(), row))
    }
}

/// The output of a resonator at each of `steps`, taken one by one.
pub open spec fn serial_values(r: Resonator, steps: Seq<RowStep>, row: Seq<int>) -> Seq<int> {
    Seq::new(steps.len(), |k: int| serial_memory(r, steps.take(k + 1), row).prev)
}

/// The four sums that drive a block.
pub open spec fn quad_drive(left: usize, right: usize, row: Seq<int>) -> Seq<int> {
    Seq::new(4, |lane: int| row[left + lane] + row[right + lane])
}

/// The memory of a resonator after one plan entry. A block leaves its last
/// two lanes behind.
pub open spec fn advance_op(r: Resonator, m: Memory, op: RowOp, row: Seq<int>) -> Memory {
    match op {
        RowOp::Single(step) => advance(r, m, drive(step, row)),
        RowOp::Quad { left, right, out } => Memory {
            prev: unrolled(r.gain, r.feedback, m.prev, m.prev2, quad_drive(left, right, row), 3),
            prev2: unrolled(r.gain, r.feedback, m.prev, m.prev2, quad_drive(left, right, row), 2),
        },
    }
}

/// The outputs of one plan entry. A block gives its four outputs in closed
/// form, each straight from the inputs and the memory before the block.
pub open spec fn op_values(r: Resonator, m: Memory, op: RowOp, row: Seq<int>) -> Seq<int> {
    match op {
        RowOp::Single(step) => seq![advance(r, m, drive(step, row)).prev],
        RowOp::Quad { left, right, out } => Seq::new(
            4,
            |lane: int|
                unrolled(r.gain, r.feedback, m.prev, m.prev2, quad_drive(left, right, row), lane),
        ),
    }
}

/// The memory of a resonator after it has run a plan.
pub open spec fn blocked_memory(r: Resonator, ops: Seq<RowOp>, row: Seq<int>) -> Memory
    decreases ops.len(),
{
    if ops.len() == 0 {
        at_rest()
    } else {
        advance_op(r, blocked_memory(r, ops.drop_last(), row), ops.last(), row)
    }
}

/// The outputs of a resonator that runs a plan, in the order of the
/// positions that the plan visits.
pub open spec fn blocked_values(r: Resonator, ops: Seq<RowOp>, row: Seq<int>) -> Seq<int>
    decreases ops.len(),
{
    if ops.len() == 0 {
        Seq::empty()
    } else {
        blocked_values(r, ops.drop_last(), row) + op_values(
            r,
            blocked_memory(r, ops.drop_last(), row),
            ops.last(),
            row,
        )
    }
}

proof fn lemma_serial_push(r: Resonator, steps: Seq<RowStep>, step: RowStep, row: Seq<int>)
    ensures
        serial_memory(r, steps.push(step), row) == advance(
            r,
            serial_memory(r, steps, row),
            drive(step, row),
        ),
{
    assert(steps.push(step).drop_last() =~= steps);
}

/// The outputs of the steps taken so far do not change when more steps
/// follow.
proof fn lemma_serial_values_extend(
    r: Resonator,
    steps: Seq<RowStep>,
    more: Seq<RowStep>,
    row: Seq<int>,
)
    ensures
        serial_values(r, steps + more, row).take(steps.len() as int) =~= serial_values(
            r,
            steps,
            row,
        ),
{
    let longer = serial_values(r, steps + more, row).take(steps.len() as int);
    let shorter = serial_values(r, steps, row);
    assert forall|k: int| 0 <= k < steps.len() implies longer[k] == shorter[k] by {
        assert((steps + more).take(k + 1) =~= steps.take(k + 1));
    }
}

/// Four serial steps from the memory `m`, driven by the four sums of a
/// block, arrive at the closed form of every lane.
proof fn lemma_quad_steps(
    r: Resonator,
    steps: Seq<RowStep>,
    left: usize,
    right: usize,
    out: usize,
    row: Seq<int>,
    lane: int,
)
    requires
        0 <= lane < 4,
        left + 3 <= usize::MAX,
        right + 3 <= usize::MAX,
        out + 3 <= usize::MAX,
    ensures
        ({
            let m = serial_memory(r, steps, row);
            let after = serial_memory(
                r,
                steps + expand_op(RowOp::Quad { left, right, out }).take(lane + 1),
                row,
            );
            let x = quad_drive(left, right, row);
            &&& after.prev == unrolled(r.gain, r.feedback, m.prev, m.prev2, x, lane)
            &&& after.prev2 == if lane == 0 {
                m.prev
            } else {
                unrolled(r.gain, r.feedback, m.prev, m.prev2, x, lane - 1)
            }
        }),
    decreases lane,
{
    let m = serial_memory(r, steps, row);
    let quad = expand_op(RowOp::Quad { left, right, out });
    let x = quad_drive(left, right, row);
    let before = steps + quad.take(lane);
    assert(steps + quad.take(lane + 1) =~= before.push(quad[lane]));
    lemma_serial_push(r, before, quad[lane], row);
    assert(drive(quad[lane], row) == x[lane]);
    lemma_unrolled_is_serial(r.gain, r.feedback, m.prev, m.prev2, x, lane);
    if lane == 0 {
        assert(before =~= steps);
    } else {
        lemma_quad_steps(r, steps, left, right, out, row, lane - 1);
        lemma_unrolled_is_serial(r.gain, r.feedback, m.prev, m.prev2, x, lane - 1);
        if lane >= 2 {
            lemma_unrolled_is_serial(r.gain, r.feedback, m.prev, m.prev2, x, lane - 2);
        }
    }
    reveal_with_fuel(resonate, 2);
}

/// In exact arithmetic a plan computes what the serial steps it stands for
/// compute: the same outputs in the same order, and the same memory at the
/// end. Evaluating four outputs at once in closed form is only another way
/// to step the recurrence.
pub proof fn lemma_blocked_is_serial(r: Resonator, ops: Seq<RowOp>, row: Seq<int>)
    requires
        row.len() <= usize::MAX,
        forall|i: int| 0 <= i < ops.len() ==> op_within(#[trigger] ops[i], row.len() as int),
    ensures
        blocked_memory(r, ops, row) == serial_memory(r, expand(ops), row),
        blocked_values(r, ops, row) == serial_values(r, expand(ops), row),
    decreases ops.len(),
{
    if ops.len() == 0 {
        assert(blocked_values(r, ops, row) =~= serial_values(r, expand(ops), row));
    } else {
        let init = ops.drop_last();
        let op = ops.last();
        lemma_blocked_is_serial(r, init, row);
        let steps = expand(init);
        let done = steps.len() as int;
        let m = serial_memory(r, steps, row);
        let all = steps + expand_op(op);
        assert(expand(ops) == all);
        lemma_serial_values_extend(r, steps, expand_op(op), row);
        assert(op_within(op, row.len() as int));
        match op {
            RowOp::Single(step) => {
                assert(all =~= steps.push(step));
                lemma_serial_push(r, steps, step, row);
                assert(all.take(done + 1) =~= all);
            },
            RowOp::Quad { left, right, out } => {
                let quad = expand_op(op);
                assert forall|lane: int| 0 <= lane < 4 implies #[trigger] serial_memory(
                    r,
                    all.take(done + lane + 1),
                    row,
                ).prev == op_values(r, m, op, row)[lane] by {
                    lemma_quad_steps(r, steps, left, right, out, row, lane);
                    assert(all.take(done + lane + 1) =~= steps + quad.take(lane + 1));
                }
                lemma_quad_steps(r, steps, left, right, out, row, 3);
                assert(quad.take(4) =~= quad);
            },
        }
        let lhs = blocked_values(r, ops, row);
        let rhs = serial_values(r, all, row);
        assert(lhs.len() == rhs.len());
        assert forall|k: int| 0 <= k < lhs.len() implies lhs[k] == rhs[k] by {
            if k < done {
                assert(rhs.take(done)[k] == rhs[k]);
            } else {
                let lane = k - done;
                assert(all.take(done + lane + 1) == all.take(k + 1));
            }
        }
        assert(lhs =~= rhs);
    }
}

/// In exact arithmetic the three-part plan of a row computes the raw
/// recurrence of the serial scan: at every position `n`, in order,
/// `y[n] = gain * (x[n - radius - 1] + x[n + radius - 1]) - feedback * y[n - 1] - y[n - 2]`
/// with samples outside the row taken as zero.
pub proof fn lemma_blocked_row_is_serial_row(
    r: Resonator,
    radius: int,
    width: int,
    row: Seq<int>,
)
    requires
        0 <= radius,
        0 <= width <= usize::MAX,
        row.len() == width,
    ensures
        blocked_values(r, blocked_scan(radius, width), row) == serial_values(
            r,
            row_scan(radius, width),
            row,
        ),
        blocked_memory(r, blocked_scan(radius, width), row) == serial_memory(
            r,
            row_scan(radius, width),
            row,
        ),
{
    lemma_blocked_scan_within(radius, width);
    lemma_blocks_expand_to_serial(radius, width);
    lemma_blocked_is_serial(r, blocked_scan(radius, width), row);
}

} // verus!
