use crate::block::{
    block_accesses, ring_offset, ring_slot, shifted, VectorAccess, VertBlockInput,
    VertBlockOutput, RING_CHUNK,
};
use crate::exact::{advance, drive, sample, serial_memory, serial_values, Memory, Resonator};
use crate::horizontal::{row_scan, RowStep};
use crate::kernel::scan_start;
use crate::strip::{lanes_in, strip_wf, Strip};
use crate::vertical::{is_strip_plan, row_offset, strip_scan, vert_step, BlockStep};
use vstd::prelude::*;

verus! {

/// The column `x` of a row-major plane, from top to bottom.
pub open spec fn column(plane: Seq<int>, x: int, width: int, height: int) -> Seq<int> {
    Seq::new(height as nat, |y: int| plane[y * width + x])
}

/// The sum of both taps of one lane of a vector. Lanes outside the plane
/// are driven by zero.
pub open spec fn lane_drive(a: VectorAccess, plane: Seq<int>, lane: int) -> int {
    if lane < a.lanes {
        sample(plane, shifted(a.top, lane)) + sample(plane, shifted(a.bottom, lane))
    } else {
        0
    }
}

/// What one lane of a vector computes from the state in `ring`: one step of
/// the recurrence.
pub open spec fn lane_value(
    r: Resonator,
    ring: Seq<int>,
    a: VectorAccess,
    plane: Seq<int>,
    lane: int,
) -> int {
    r.gain * lane_drive(a, plane, lane) - r.feedback * ring[a.previous + lane] - ring[a.before
        + lane]
}

/// A resonator's chunk of the ring buffer after one vector has taken its
/// step: its four lanes are written at once.
pub open spec fn apply_access(
    r: Resonator,
    ring: Seq<int>,
    a: VectorAccess,
    plane: Seq<int>,
) -> Seq<int> {
    Seq::new(
        ring.len(),
        |i: int|
            if a.current <= i < a.current + 4 {
                lane_value(r, ring, a, plane, i - a.current)
            } else {
                ring[i]
            },
    )
}

/// The chunk after the vectors of a step have taken it one after the other.
pub open spec fn apply_block(
    r: Resonator,
    ring: Seq<int>,
    accesses: Seq<VectorAccess>,
    plane: Seq<int>,
) -> Seq<int>
    decreases accesses.len(),
{
    if accesses.len() == 0 {
        ring
    } else {
        apply_access(r, apply_block(r, ring, accesses.drop_last(), plane), accesses.last(), plane)
    }
}

/// The chunk after the steps of `plan`, which starts on zeros.
pub open spec fn ring_after(r: Resonator, plan: Seq<BlockStep>, plane: Seq<int>) -> Seq<int>
    decreases plan.len(),
{
    if plan.len() == 0 {
        Seq::new(RING_CHUNK as nat, |i: int| 0int)
    } else {
        apply_block(r, ring_after(r, plan.drop_last(), plane), plan.last().accesses@, plane)
    }
}

/// What lane `lane` of vector `v` computes in step `k` of `plan`, after the
/// steps before it and the vectors to its left.
pub open spec fn strip_value(
    r: Resonator,
    plan: Seq<BlockStep>,
    plane: Seq<int>,
    k: int,
    v: int,
    lane: int,
) -> int {
    lane_value(
        r,
        apply_block(r, ring_after(r, plan.take(k), plane), plan[k].accesses@.take(v), plane),
        plan[k].accesses@[v],
        plane,
        lane,
    )
}

/// The output of the serial scan of column `c` at step `j`; zero before the
/// scan starts.
pub open spec fn column_value(
    r: Resonator,
    radius: int,
    width: int,
    height: int,
    plane: Seq<int>,
    c: int,
    j: int,
) -> int {
    if j >= 0 {
        serial_values(r, row_scan(radius, height), column(plane, c, width, height))[j]
    } else {
        0
    }
}

spec fn cell(ring: Seq<int>, slot: int, v: int, lane: int) -> int {
    ring[ring_offset(slot, v) + lane]
}

/// Before step `k` the ring holds, for every column of the strip, the last
/// two outputs of that column's serial scan.
spec fn ring_holds(
    ring: Seq<int>,
    r: Resonator,
    strip: Strip,
    radius: int,
    width: int,
    height: int,
    plane: Seq<int>,
    k: int,
) -> bool {
    &&& ring.len() == RING_CHUNK
    &&& forall|v: int, lane: int|
        0 <= v < strip.vectors && 0 <= lane < lanes_in(strip, v) ==> #[trigger] cell(
            ring,
            ring_slot(k, 0),
            v,
            lane,
        ) == column_value(r, radius, width, height, plane, strip.x + 4 * v + lane, k - 1)
            && cell(ring, ring_slot(k, 1), v, lane) == column_value(
            r,
            radius,
            width,
            height,
            plane,
            strip.x + 4 * v + lane,
            k - 2,
        )
}

/// The vectors of a step write the slot of that step and nothing else, each
/// from the state that the ring held before the step.
proof fn lemma_apply_block(
    r: Resonator,
    ring: Seq<int>,
    strip: Strip,
    input: VertBlockInput,
    ctr: int,
    output: VertBlockOutput,
    plane: Seq<int>,
    m: int,
)
    requires
        ring.len() == RING_CHUNK,
        strip_wf(strip),
        0 <= m <= strip.vectors,
    ensures
        ({
            let acc = block_accesses(strip, input, ctr, output);
            let after = apply_block(r, ring, acc.take(m), plane);
            &&& after.len() == RING_CHUNK
            &&& forall|s: int, u: int, lane: int|
                0 <= s < 4 && 0 <= u < 4 && 0 <= lane < 4 ==> #[trigger] cell(after, s, u, lane)
                    == if s == ring_slot(ctr, 0) && u < m {
                    lane_value(r, ring, acc[u], plane, lane)
                } else {
                    cell(ring, s, u, lane)
                }
        }),
    decreases m,
{
    let acc = block_accesses(strip, input, ctr, output);
    if m == 0 {
        assert(acc.take(0) =~= Seq::<VectorAccess>::empty());
    } else {
        lemma_apply_block(r, ring, strip, input, ctr, output, plane, m - 1);
        let before = apply_block(r, ring, acc.take(m - 1), plane);
        let a = acc[m - 1];
        assert(acc.take(m).drop_last() =~= acc.take(m - 1));
        assert(acc.take(m).last() == a);
        let after = apply_block(r, ring, acc.take(m), plane);
        assert(after == apply_access(r, before, a, plane));
        let s0 = ring_slot(ctr, 0);
        let s1 = ring_slot(ctr, 1);
        let s2 = ring_slot(ctr, 2);
        assert(a.current == 16 * s0 + 4 * (m - 1));
        assert(a.previous == 16 * s1 + 4 * (m - 1));
        assert(a.before == 16 * s2 + 4 * (m - 1));
        assert forall|s: int, u: int, lane: int|
            0 <= s < 4 && 0 <= u < 4 && 0 <= lane < 4 implies #[trigger] cell(after, s, u, lane)
            == if s == s0 && u < m {
            lane_value(r, ring, acc[u], plane, lane)
        } else {
            cell(ring, s, u, lane)
        } by {
            let i = 16 * s + 4 * u + lane;
            assert(cell(after, s, u, lane) == after[i]);
            if s == s0 && u == m - 1 {
                assert(a.current <= i < a.current + 4);
                assert(after[i] == lane_value(r, before, a, plane, lane));
                assert(before[a.previous + lane] == cell(before, s1, u, lane));
                assert(before[a.before + lane] == cell(before, s2, u, lane));
                assert(ring[a.previous + lane] == cell(ring, s1, u, lane));
                assert(ring[a.before + lane] == cell(ring, s2, u, lane));
            } else {
                assert(!(a.current <= i < a.current + 4));
                assert(after[i] == before[i]);
                assert(before[i] == cell(before, s, u, lane));
            }
        }
    }
}

/// The memory of a serial scan after `k` steps is its last two outputs.
proof fn lemma_memory_is_last_two(r: Resonator, steps: Seq<RowStep>, row: Seq<int>, k: int)
    requires
        0 <= k <= steps.len(),
    ensures
        serial_memory(r, steps.take(k), row) == (Memory {
            prev: if k >= 1 {
                serial_values(r, steps, row)[k - 1]
            } else {
                0
            },
            prev2: if k >= 2 {
                serial_values(r, steps, row)[k - 2]
            } else {
                0
            },
        }),
{
    reveal_with_fuel(serial_memory, 2);
    if k >= 1 {
        assert(steps.take(k).drop_last() =~= steps.take(k - 1));
        assert(serial_values(r, steps, row)[k - 1] == serial_memory(r, steps.take(k), row).prev);
        if k >= 2 {
            assert(serial_values(r, steps, row)[k - 2] == serial_memory(
                r,
                steps.take(k - 1),
                row,
            ).prev);
        } else {
            assert(steps.take(0).len() == 0);
        }
    }
}

/// A lane of a strip is driven by what drives the serial scan of its
/// column.
proof fn lemma_lane_drive(
    strip: Strip,
    radius: int,
    width: int,
    height: int,
    plane: Seq<int>,
    k: int,
    v: int,
    lane: int,
)
    requires
        strip_wf(strip),
        strip.x + strip.lanes <= width,
        width * height <= usize::MAX,
        0 <= radius,
        0 <= height,
        0 <= k < height - scan_start(radius),
        0 <= v < strip.vectors,
        0 <= lane < lanes_in(strip, v),
    ensures
        ({
            let step = strip_scan(strip.x as int, radius, width, height)[k];
            let a = block_accesses(strip, step.input, k + 1, step.output)[v];
            lane_drive(a, plane, lane) == drive(
                row_scan(radius, height)[k],
                column(plane, strip.x + 4 * v + lane, width, height),
            )
        }),
{
    let x = strip.x as int;
    let index = 4 * v + lane;
    let c = x + index;
    let n = scan_start(radius) + k;
    let step = vert_step(n, x, radius, width, height);
    assert(strip_scan(x, radius, width, height)[k] == step);
    let a = block_accesses(strip, step.input, k + 1, step.output)[v];
    let col = column(plane, c, width, height);
    let top = n - radius - 1;
    let bottom = n + radius - 1;
    let scanned = row_scan(radius, height)[k];
    assert(scanned == crate::horizontal::row_step(n, radius, height));
    assert(a.lanes == lanes_in(strip, v));
    assert(a.top == step.input.taps(4 * v).0);
    assert(a.bottom == step.input.taps(4 * v).1);
    if 0 <= top < height {
        lemma_row_in_plane(top, x, index, width, height);
        let t = (top * width + x) as usize;
        assert(row_offset(top, x, width, height) == Some(t));
        assert(a.top == Some((t + 4 * v) as usize));
        assert(shifted(a.top, lane) == Some((top * width + c) as usize));
        assert(col[top] == plane[top * width + c]);
        assert(sample(plane, shifted(a.top, lane)) == sample(col, scanned.left));
    } else {
        assert(row_offset(top, x, width, height) is None);
        assert(a.top is None);
        assert(scanned.left is None);
    }
    if 0 <= bottom < height {
        lemma_row_in_plane(bottom, x, index, width, height);
        let b = (bottom * width + x) as usize;
        assert(row_offset(bottom, x, width, height) == Some(b));
        assert(a.bottom == Some((b + 4 * v) as usize));
        assert(shifted(a.bottom, lane) == Some((bottom * width + c) as usize));
        assert(col[bottom] == plane[bottom * width + c]);
        assert(sample(plane, shifted(a.bottom, lane)) == sample(col, scanned.right));
    } else {
        assert(row_offset(bottom, x, width, height) is None);
        assert(a.bottom is None);
        assert(scanned.right is None);
    }
}

proof fn lemma_row_in_plane(row: int, x: int, index: int, width: int, height: int)
    requires
        0 <= row < height,
        0 <= x,
        0 <= index,
        x + index < width,
        width * height <= usize::MAX,
    ensures
        0 <= row * width + x,
        row * width + x + index < width * height,
        row * width + (x + index) == row * width + x + index,
        row < usize::MAX,
{
    assert(height <= width * height) by (nonlinear_arith)
        requires
            0 <= height,
            1 <= width,
    ;
    assert(row * width + width <= width * height) by (nonlinear_arith)
        requires
            0 <= row < height,
            0 <= width,
    ;
    assert(0 <= row * width) by (nonlinear_arith)
        requires
            0 <= row,
            0 <= width,
    ;
}

proof fn lemma_ring_holds(
    r: Resonator,
    plan: Seq<BlockStep>,
    strip: Strip,
    radius: int,
    width: int,
    height: int,
    plane: Seq<int>,
    k: int,
)
    requires
        is_strip_plan(plan, strip, radius, width, height),
        strip_wf(strip),
        strip.x + strip.lanes <= width,
        width * height <= usize::MAX,
        0 <= radius,
        0 <= height,
        0 <= k <= plan.len(),
    ensures
        ring_holds(ring_after(r, plan.take(k), plane), r, strip, radius, width, height, plane, k),
    decreases k,
{
    if k == 0 {
        assert(plan.take(0) =~= Seq::<BlockStep>::empty());
    } else {
        let j = k - 1;
        lemma_ring_holds(r, plan, strip, radius, width, height, plane, j);
        let ring = ring_after(r, plan.take(j), plane);
        assert(plan.take(k).drop_last() =~= plan.take(j));
        assert(plan.take(k).last() == plan[j]);
        let step = strip_scan(strip.x as int, radius, width, height)[j];
        let acc = block_accesses(strip, step.input, j + 1, step.output);
        assert(plan[j].accesses@ == acc);
        assert(acc.take(strip.vectors as int) =~= acc);
        lemma_apply_block(
            r,
            ring,
            strip,
            step.input,
            j + 1,
            step.output,
            plane,
            strip.vectors as int,
        );
        let after = ring_after(r, plan.take(k), plane);
        assert(after == apply_block(r, ring, acc, plane));
        assert forall|v: int, lane: int|
            0 <= v < strip.vectors && 0 <= lane < lanes_in(strip, v) implies #[trigger] cell(
            after,
            ring_slot(k, 0),
            v,
            lane,
        ) == column_value(r, radius, width, height, plane, strip.x + 4 * v + lane, k - 1) && cell(
            after,
            ring_slot(k, 1),
            v,
            lane,
        ) == column_value(r, radius, width, height, plane, strip.x + 4 * v + lane, k - 2) by {
            let c = strip.x + 4 * v + lane;
            assert(ring_slot(k, 0) == ring_slot(j + 1, 0));
            assert(ring_slot(k, 1) == ring_slot(j, 0));
            assert(ring_slot(k, 1) != ring_slot(j + 1, 0));
            assert(cell(after, ring_slot(k, 0), v, lane) == lane_value(
                r,
                ring,
                acc[v],
                plane,
                lane,
            ));
            lemma_step_value(r, ring, strip, radius, width, height, plane, j, v, lane);
            assert(cell(after, ring_slot(k, 1), v, lane) == cell(ring, ring_slot(j, 0), v, lane));
            assert(cell(ring, ring_slot(j, 0), v, lane) == column_value(
                r,
                radius,
                width,
                height,
                plane,
                c,
                j - 1,
            ));
        }
    }
}

/// From a ring that holds the last two outputs of every column, a lane
/// computes the next output of its column.
proof fn lemma_step_value(
    r: Resonator,
    ring: Seq<int>,
    strip: Strip,
    radius: int,
    width: int,
    height: int,
    plane: Seq<int>,
    k: int,
    v: int,
    lane: int,
)
    requires
        ring_holds(ring, r, strip, radius, width, height, plane, k),
        strip_wf(strip),
        strip.x + strip.lanes <= width,
        width * height <= usize::MAX,
        0 <= radius,
        0 <= height,
        0 <= k < height - scan_start(radius),
        0 <= v < strip.vectors,
        0 <= lane < lanes_in(strip, v),
    ensures
        ({
            let step = strip_scan(strip.x as int, radius, width, height)[k];
            let a = block_accesses(strip, step.input, k + 1, step.output)[v];
            lane_value(r, ring, a, plane, lane) == column_value(
                r,
                radius,
                width,
                height,
                plane,
                strip.x + 4 * v + lane,
                k,
            )
        }),
{
    let c = strip.x + 4 * v + lane;
    let step = strip_scan(strip.x as int, radius, width, height)[k];
    let a = block_accesses(strip, step.input, k + 1, step.output)[v];
    let scan = row_scan(radius, height);
    let col = column(plane, c, width, height);
    lemma_lane_drive(strip, radius, width, height, plane, k, v, lane);
    lemma_memory_is_last_two(r, scan, col, k);
    assert(scan.take(k + 1).drop_last() =~= scan.take(k));
    assert(scan.take(k + 1).last() == scan[k]);
    assert(serial_values(r, scan, col)[k] == advance(
        r,
        serial_memory(r, scan.take(k), col),
        drive(scan[k], col),
    ).prev);
    assert(ring[a.previous + lane] == cell(ring, ring_slot(k, 0), v, lane));
    assert(ring[a.before + lane] == cell(ring, ring_slot(k, 1), v, lane));
}

/// What a lane computes in step `k` belongs to the row at position
/// `scan_start + k` of its column, and is stored at that sample once the
/// row lies in the plane.
pub proof fn lemma_strip_stores_in_place(
    plan: Seq<BlockStep>,
    strip: Strip,
    radius: int,
    width: int,
    height: int,
    k: int,
    v: int,
    lane: int,
)
    requires
        is_strip_plan(plan, strip, radius, width, height),
        strip_wf(strip),
        strip.x + strip.lanes <= width,
        width * height <= usize::MAX,
        0 <= radius,
        0 <= height,
        0 <= k < plan.len(),
        0 <= v < strip.vectors,
        0 <= lane < lanes_in(strip, v),
    ensures
        shifted(plan[k].accesses@[v].store, lane) == if scan_start(radius) + k >= 0 {
            Some(((scan_start(radius) + k) * width + strip.x + 4 * v + lane) as usize)
        } else {
            None
        },
{
    let x = strip.x as int;
    let n = scan_start(radius) + k;
    let step = vert_step(n, x, radius, width, height);
    assert(strip_scan(x, radius, width, height)[k] == step);
    let a = block_accesses(strip, step.input, k + 1, step.output)[v];
    assert(plan[k].accesses@[v] == a);
    assert(a.store == step.output.place(4 * v));
    if n >= 0 {
        lemma_row_in_plane(n, x, 4 * v + lane, width, height);
        let o = (n * width + x) as usize;
        assert(row_offset(n, x, width, height) == Some(o));
        assert(a.store == Some((o + 4 * v) as usize));
    } else {
        assert(row_offset(n, x, width, height) is None);
    }
}

/// In exact arithmetic the scan of a strip, with its state in the ring
/// buffer, computes the serial recurrence down each of its columns: what
/// lane `lane` of vector `v` computes in step `k` is the output of the serial
/// scan of the column `strip.x + 4 * v + lane` at that step. Columns do not
/// disturb one another, and the ring never loses an output that is still to
/// be read.
pub proof fn lemma_strip_is_serial_columns(
    r: Resonator,
    plan: Seq<BlockStep>,
    strip: Strip,
    radius: int,
    width: int,
    height: int,
    plane: Seq<int>,
    k: int,
    v: int,
    lane: int,
)
    requires
        is_strip_plan(plan, strip, radius, width, height),
        strip_wf(strip),
        strip.x + strip.lanes <= width,
        width * height <= usize::MAX,
        plane.len() == width * height,
        0 <= radius,
        0 <= height,
        0 <= k < plan.len(),
        0 <= v < strip.vectors,
        0 <= lane < lanes_in(strip, v),
    ensures
        strip_value(r, plan, plane, k, v, lane) == serial_values(
            r,
            row_scan(radius, height),
            column(plane, strip.x + 4 * v + lane, width, height),
        )[k],
{
    lemma_ring_holds(r, plan, strip, radius, width, height, plane, k);
    let ring = ring_after(r, plan.take(k), plane);
    let step = strip_scan(strip.x as int, radius, width, height)[k];
    let acc = block_accesses(strip, step.input, k + 1, step.output);
    assert(plan[k].accesses@ == acc);
    lemma_apply_block(r, ring, strip, step.input, k + 1, step.output, plane, v);
    let local = apply_block(r, ring, acc.take(v), plane);
    let a = acc[v];
    let s1 = ring_slot(k + 1, 1);
    let s2 = ring_slot(k + 1, 2);
    assert(a.previous + lane == ring_offset(s1, v) + lane);
    assert(a.before + lane == ring_offset(s2, v) + lane);
    assert(local[a.previous + lane] == cell(local, s1, v, lane));
    assert(local[a.before + lane] == cell(local, s2, v, lane));
    assert(ring[a.previous + lane] == cell(ring, s1, v, lane));
    assert(ring[a.before + lane] == cell(ring, s2, v, lane));
    assert(lane_value(r, local, a, plane, lane) == lane_value(r, ring, a, plane, lane));
    lemma_step_value(r, ring, strip, radius, width, height, plane, k, v, lane);
}

} // verus!
