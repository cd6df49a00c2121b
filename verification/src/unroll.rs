use vstd::prelude::*;

verus! {

/// Outputs that one unrolled block computes together.
pub const UNROLL: usize = 4;

/// One resonator, stepped serially: the output at step `j` of a block whose
/// inputs are `inputs` and whose two outputs before the block were `prev`
/// and, before that, `prev2`.
///
/// `y[j] = gain * x[j] - feedback * y[j - 1] - y[j - 2]`
pub open spec fn resonate(
    gain: int,
    feedback: int,
    prev: int,
    prev2: int,
    inputs: Seq<int>,
    j: int,
) -> int
    decreases j + 2,
{
    if j <= -2 {
        prev2
    } else if j == -1 {
        prev
    } else {
        gain * inputs[j] - feedback * resonate(gain, feedback, prev, prev2, inputs, j - 1)
            - resonate(gain, feedback, prev, prev2, inputs, j - 2)
    }
}

/// Weight of the output before the block in the output of lane `lane`.
pub open spec fn mul_prev(feedback: int, lane: int) -> int {
    let d = feedback;
    if lane == 0 {
        -d
    } else if lane == 1 {
        d * d - 1
    } else if lane == 2 {
        -(d * d * d) + 2 * d
    } else {
        d * d * d * d - 3 * (d * d) + 1
    }
}

/// Weight of the output two before the block in the output of lane `lane`.
pub open spec fn mul_prev2(feedback: int, lane: int) -> int {
    let d = feedback;
    if lane == 0 {
        -1
    } else if lane == 1 {
        d
    } else if lane == 2 {
        -(d * d) + 1
    } else {
        d * d * d - 2 * d
    }
}

/// Weight in an output of the input that lies `lane` steps before it.
pub open spec fn mul_in(gain: int, feedback: int, lane: int) -> int {
    let n = gain;
    let d = feedback;
    if lane == 0 {
        n
    } else if lane == 1 {
        -d * n
    } else if lane == 2 {
        d * d * n - n
    } else {
        -(d * d * d) * n + 2 * d * n
    }
}

/// The lane of a vector that lands in lane `lane` when the vector is moved
/// up by `lanes` lanes, or nothing where a zero moves in.
pub open spec fn lane_source(lanes: int, lane: int) -> Option<usize> {
    if lanes <= lane {
        Some((lane - lanes) as usize)
    } else {
        None
    }
}

/// Weight of input `k` of a block in the output of lane `lane`: the input
/// weights moved up by `k` lanes, since an input cannot reach an output
/// before it.
pub open spec fn input_weight(gain: int, feedback: int, k: int, lane: int) -> int {
    match lane_source(k, lane) {
        Some(source) => mul_in(gain, feedback, source as int),
        None => 0,
    }
}

/// The output of lane `lane` of a block in closed form: each of the four
/// inputs and each of the two outputs before the block, times its weight.
pub open spec fn unrolled(
    gain: int,
    feedback: int,
    prev: int,
    prev2: int,
    inputs: Seq<int>,
    lane: int,
) -> int {
    input_weight(gain, feedback, 0, lane) * inputs[0] + input_weight(gain, feedback, 1, lane)
        * inputs[1] + input_weight(gain, feedback, 2, lane) * inputs[2] + input_weight(
        gain,
        feedback,
        3,
        lane,
    ) * inputs[3] + mul_prev(feedback, lane) * prev + mul_prev2(feedback, lane) * prev2
}

/// A weighted sum of the four inputs of a block and the two outputs before
/// it.
spec fn mix(c: Seq<int>, x: Seq<int>) -> int {
    c[0] * x[0] + c[1] * x[1] + c[2] * x[2] + c[3] * x[3] + c[4] * x[4] + c[5] * x[5]
}

/// One step of the recurrence, taken on the weights: the weights of
/// `gain * e - feedback * a - b`.
spec fn step_weights(gain: int, feedback: int, e: Seq<int>, a: Seq<int>, b: Seq<int>) -> Seq<int> {
    Seq::new(6, |k: int| gain * e[k] - feedback * a[k] - b[k])
}

proof fn lemma_step_term(gain: int, feedback: int, e: int, a: int, b: int, x: int)
    ensures
        (gain * e - feedback * a - b) * x == gain * (e * x) - feedback * (a * x) - b * x,
{
    assert((gain * e - feedback * a - b) * x == gain * (e * x) - feedback * (a * x) - b * x)
        by (nonlinear_arith);
}

proof fn lemma_scale_sum(k: int, t0: int, t1: int, t2: int, t3: int, t4: int, t5: int)
    ensures
        k * (t0 + t1 + t2 + t3 + t4 + t5) == k * t0 + k * t1 + k * t2 + k * t3 + k * t4 + k * t5,
{
    assert(k * (t0 + t1 + t2 + t3 + t4 + t5) == k * t0 + k * t1 + k * t2 + k * t3 + k * t4 + k
        * t5) by (nonlinear_arith);
}

/// A step of the recurrence on weighted sums is the weighted sum of the
/// stepped weights.
proof fn lemma_step_mix(
    gain: int,
    feedback: int,
    e: Seq<int>,
    a: Seq<int>,
    b: Seq<int>,
    x: Seq<int>,
)
    requires
        e.len() == 6,
        a.len() == 6,
        b.len() == 6,
        x.len() == 6,
    ensures
        gain * mix(e, x) - feedback * mix(a, x) - mix(b, x) == mix(
            step_weights(gain, feedback, e, a, b),
            x,
        ),
{
    lemma_scale_sum(
        gain,
        e[0] * x[0],
        e[1] * x[1],
        e[2] * x[2],
        e[3] * x[3],
        e[4] * x[4],
        e[5] * x[5],
    );
    lemma_scale_sum(
        feedback,
        a[0] * x[0],
        a[1] * x[1],
        a[2] * x[2],
        a[3] * x[3],
        a[4] * x[4],
        a[5] * x[5],
    );
    lemma_step_term(gain, feedback, e[0], a[0], b[0], x[0]);
    lemma_step_term(gain, feedback, e[1], a[1], b[1], x[1]);
    lemma_step_term(gain, feedback, e[2], a[2], b[2], x[2]);
    lemma_step_term(gain, feedback, e[3], a[3], b[3], x[3]);
    lemma_step_term(gain, feedback, e[4], a[4], b[4], x[4]);
    lemma_step_term(gain, feedback, e[5], a[5], b[5], x[5]);
}

/// The weights of the closed form in lane `lane`, in the order of `mix`.
spec fn lane_weights(gain: int, feedback: int, lane: int) -> Seq<int> {
    seq![
        input_weight(gain, feedback, 0, lane),
        input_weight(gain, feedback, 1, lane),
        input_weight(gain, feedback, 2, lane),
        input_weight(gain, feedback, 3, lane),
        mul_prev(feedback, lane),
        mul_prev2(feedback, lane),
    ]
}

/// The weights that pick one of the six terms of `mix`.
spec fn unit(k: int) -> Seq<int> {
    Seq::new(6, |i: int| if i == k { 1int } else { 0int })
}

/// The weights of each lane follow from those of the two lanes before it by
/// one step of the recurrence.
proof fn lemma_lane_weights_step(gain: int, feedback: int, lane: int)
    requires
        0 <= lane < UNROLL,
    ensures
        lane_weights(gain, feedback, lane) =~= step_weights(
            gain,
            feedback,
            unit(lane),
            lane_before(gain, feedback, lane, 1),
            lane_before(gain, feedback, lane, 2),
        ),
{
    let n = gain;
    let d = feedback;
    let w = lane_weights(n, d, lane);
    let e = unit(lane);
    let a = lane_before(n, d, lane, 1);
    let b = lane_before(n, d, lane, 2);
    let s = step_weights(n, d, e, a, b);
    assert forall|k: int| 0 <= k < 6 implies w[k] == s[k] by {
        assert(s[k] == n * e[k] - d * a[k] - b[k]);
        lemma_weights_step_at(n, d, lane, k, e[k], a[k], b[k]);
    }
}

/// The weights of the output `back` steps before lane `lane`: those of an
/// earlier lane, or of one of the two outputs before the block.
spec fn lane_before(gain: int, feedback: int, lane: int, back: int) -> Seq<int> {
    if lane - back >= 0 {
        lane_weights(gain, feedback, lane - back)
    } else if lane - back == -1 {
        unit(4)
    } else {
        unit(5)
    }
}

proof fn lemma_weights_step_at(n: int, d: int, lane: int, k: int, e: int, a: int, b: int)
    requires
        0 <= lane < UNROLL,
        0 <= k < 6,
        e == unit(lane)[k],
        a == lane_before(n, d, lane, 1)[k],
        b == lane_before(n, d, lane, 2)[k],
    ensures
        lane_weights(n, d, lane)[k] == n * e - d * a - b,
{
    if lane == 0 {
        assert(n * (1) - d * (0) - (0) == n) by (nonlinear_arith);
        assert(n * (0) - d * (0) - (0) == 0) by (nonlinear_arith);
        assert(n * (0) - d * (0) - (0) == 0) by (nonlinear_arith);
        assert(n * (0) - d * (0) - (0) == 0) by (nonlinear_arith);
        assert(n * (0) - d * (1) - (0) == -d) by (nonlinear_arith);
        assert(n * (0) - d * (0) - (1) == -1) by (nonlinear_arith);
    }
    if lane == 1 {
        assert(n * (0) - d * (n) - (0) == -d * n) by (nonlinear_arith);
        assert(n * (1) - d * (0) - (0) == n) by (nonlinear_arith);
        assert(n * (0) - d * (0) - (0) == 0) by (nonlinear_arith);
        assert(n * (0) - d * (0) - (0) == 0) by (nonlinear_arith);
        assert(n * (0) - d * (-d) - (1) == d * d - 1) by (nonlinear_arith);
        assert(n * (0) - d * (-1) - (0) == d) by (nonlinear_arith);
    }
    if lane == 2 {
        assert(n * (0) - d * (-d * n) - (n) == d * d * n - n) by (nonlinear_arith);
        assert(n * (0) - d * (n) - (0) == -d * n) by (nonlinear_arith);
        assert(n * (1) - d * (0) - (0) == n) by (nonlinear_arith);
        assert(n * (0) - d * (0) - (0) == 0) by (nonlinear_arith);
        assert(n * (0) - d * (d * d - 1) - (-d) == -(d * d * d) + 2 * d) by (nonlinear_arith);
        assert(n * (0) - d * (d) - (-1) == -(d * d) + 1) by (nonlinear_arith);
    }
    if lane == 3 {
        assert(n * (0) - d * (d * d * n - n) - (-d * n) == -(d * d * d) * n + 2 * d * n) by (nonlinear_arith);
        assert(n * (0) - d * (-d * n) - (n) == d * d * n - n) by (nonlinear_arith);
        assert(n * (0) - d * (n) - (0) == -d * n) by (nonlinear_arith);
        assert(n * (1) - d * (0) - (0) == n) by (nonlinear_arith);
        assert(n * (0) - d * (-(d * d * d) + 2 * d) - (d * d - 1) == d * d * d * d - 3 * (d * d) + 1) by (nonlinear_arith);
        assert(n * (0) - d * (-(d * d) + 1) - (d) == d * d * d - 2 * d) by (nonlinear_arith);
    }
}

proof fn lemma_mix_unit(k: int, x: Seq<int>)
    requires
        0 <= k < 6,
        x.len() == 6,
    ensures
        mix(unit(k), x) == x[k],
{
    let c = unit(k);
    assert forall|i: int| 0 <= i < 6 implies c[i] * x[i] == if i == k {
        x[i]
    } else {
        0
    } by {
        assert(c[i] == 1 || c[i] == 0);
        assert(1 * x[i] == x[i] && 0 * x[i] == 0);
    }
    assert(c[0] * x[0] + c[1] * x[1] + c[2] * x[2] + c[3] * x[3] + c[4] * x[4] + c[5] * x[5]
        == x[k]);
}

/// In exact arithmetic the closed form of a block is the serial recurrence:
/// every lane of an unrolled block holds what stepping the resonator one
/// sample at a time arrives at.
pub proof fn lemma_unrolled_is_serial(
    gain: int,
    feedback: int,
    prev: int,
    prev2: int,
    inputs: Seq<int>,
    lane: int,
)
    requires
        inputs.len() == UNROLL,
        0 <= lane < UNROLL,
    ensures
        unrolled(gain, feedback, prev, prev2, inputs, lane) == resonate(
            gain,
            feedback,
            prev,
            prev2,
            inputs,
            lane,
        ),
    decreases lane,
{
    let x = seq![inputs[0], inputs[1], inputs[2], inputs[3], prev, prev2];
    assert(unrolled(gain, feedback, prev, prev2, inputs, lane) == mix(
        lane_weights(gain, feedback, lane),
        x,
    ));
    lemma_mix_unit(lane, x);
    lemma_mix_unit(4, x);
    lemma_mix_unit(5, x);
    lemma_lane_weights_step(gain, feedback, lane);
    if lane >= 1 {
        lemma_unrolled_is_serial(gain, feedback, prev, prev2, inputs, lane - 1);
    }
    if lane >= 2 {
        lemma_unrolled_is_serial(gain, feedback, prev, prev2, inputs, lane - 2);
    }
    let a = lane_before(gain, feedback, lane, 1);
    let b = lane_before(gain, feedback, lane, 2);
    let y1 = resonate(gain, feedback, prev, prev2, inputs, lane - 1);
    let y2 = resonate(gain, feedback, prev, prev2, inputs, lane - 2);
    if lane >= 1 {
        assert(unrolled(gain, feedback, prev, prev2, inputs, lane - 1) == mix(a, x));
    }
    if lane >= 2 {
        assert(unrolled(gain, feedback, prev, prev2, inputs, lane - 2) == mix(b, x));
    }
    assert(mix(a, x) == y1);
    assert(mix(b, x) == y2);
    assert(mix(unit(lane), x) == inputs[lane]);
    lemma_step_mix(gain, feedback, unit(lane), a, b, x);
    assert(resonate(gain, feedback, prev, prev2, inputs, lane) == gain * inputs[lane] - feedback
        * y1 - y2);
}

/// The lane that lands in lane `lane` of a vector of four when the vector
/// is moved up by `lanes` lanes; `None` where a zero moves in.
pub fn shift_left_lanes(lanes: usize, lane: usize) -> (source: Option<usize>)
    requires
        lanes <= UNROLL,
        lane < UNROLL,
    ensures
        source == lane_source(lanes as int, lane as int),
        source matches Some(s) ==> s < UNROLL,
{
    if lanes <= lane {
        Some(lane - lanes)
    } else {
        None
    }
}

} // verus!
