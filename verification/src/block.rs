use crate::strip::{lanes_in, strip_wf, Strip, V_CACHE_LINE_VECTORS, V_MAX_LANES, V_TOTAL_LANES};
use vstd::prelude::*;

verus! {

/// Steps of history that the ring buffer has room for.
pub const V_MOD: usize = 4;

/// Samples that the ring buffer holds for one resonator.
pub const RING_CHUNK: usize = 64;

/// Samples in the ring buffer: one chunk for each of the three resonators.
pub const RING_LEN: usize = 192;

/// Where a step of a strip reads. Every offset is that of the strip's first
/// column in the tapped row; `None` in place of the lower row stands for a
/// row of zeros.
#[derive(Clone, Copy, Debug, PartialEq, Eq)]
pub enum VertBlockInput {
    /// Only the lower tap can exist.
    SingleInput(Option<usize>),
    /// The upper tap exists; the sum of both rows drives the resonators.
    TwoInputs(usize, Option<usize>),
}

/// Where a step of a strip writes.
#[derive(Clone, Copy, Debug, PartialEq, Eq)]
pub enum VertBlockOutput {
    /// The step only advances the state.
    Discard,
    /// Offset of the strip's first column in the row that is written.
    Store(usize),
}

/// What one vector of a strip touches during one step: where its taps and
/// its output lie in the plane, and where its resonator state lies in each
/// resonator's chunk of the ring buffer.
#[derive(Clone, Copy, Debug, PartialEq, Eq)]
pub struct VectorAccess {
    /// Offset of the upper tap, where the step has one.
    pub top: Option<usize>,
    /// Offset of the lower tap; `None` reads zeros.
    pub bottom: Option<usize>,
    /// Offset that receives the summed output, where the step writes.
    pub store: Option<usize>,
    /// Columns of this vector that lie inside the plane.
    pub lanes: usize,
    /// Ring offset that receives this step's state.
    pub current: usize,
    /// Ring offset of the state one step back.
    pub previous: usize,
    /// Ring offset of the state two steps back.
    pub before: usize,
}

/// The slot of the ring that holds the state written `back` steps before
/// step number `ctr`.
pub open spec fn ring_slot(ctr: int, back: int) -> int {
    (ctr - back) % 4
}

/// Offset of a vector's state inside a resonator's chunk.
pub open spec fn ring_offset(slot: int, vector: int) -> int {
    V_TOTAL_LANES * slot + V_MAX_LANES * vector
}

impl VertBlockInput {
    /// The offsets stay in range when moved `index` columns to the right.
    pub open spec fn fits(&self, index: int) -> bool {
        match *self {
            VertBlockInput::SingleInput(bottom) => bottom matches Some(b) ==> b + index
                <= usize::MAX,
            VertBlockInput::TwoInputs(top, bottom) => {
                &&& top + index <= usize::MAX
                &&& bottom matches Some(b) ==> b + index <= usize::MAX
            },
        }
    }

    /// The taps `index` columns into the strip: the upper one where the
    /// step has it, and the lower one.
    pub open spec fn taps(&self, index: int) -> (Option<usize>, Option<usize>) {
        match *self {
            VertBlockInput::SingleInput(bottom) => (None, shifted(bottom, index)),
            VertBlockInput::TwoInputs(top, bottom) => (
                Some((top + index) as usize),
                shifted(bottom, index),
            ),
        }
    }

    /// Where the vector that starts `index` columns into the strip reads.
    pub fn get(&self, index: usize) -> (taps: (Option<usize>, Option<usize>))
        requires
            self.fits(index as int),
        ensures
            taps == self.taps(index as int),
    {
        match *self {
            VertBlockInput::SingleInput(bottom) => (None, shift(bottom, index)),
            VertBlockInput::TwoInputs(top, bottom) => (Some(top + index), shift(bottom, index)),
        }
    }
}

impl VertBlockOutput {
    /// The offset stays in range when moved `index` columns to the right.
    pub open spec fn fits(&self, index: int) -> bool {
        *self matches VertBlockOutput::Store(o) ==> o + index <= usize::MAX
    }

    /// The place `index` columns into the strip, where the step writes.
    pub open spec fn place(&self, index: int) -> Option<usize> {
        match *self {
            VertBlockOutput::Discard => None,
            VertBlockOutput::Store(o) => Some((o + index) as usize),
        }
    }

    /// Where the vector that starts `index` columns into the strip writes.
    pub fn write(&self, index: usize) -> (place: Option<usize>)
        requires
            self.fits(index as int),
        ensures
            place == self.place(index as int),
    {
        match *self {
            VertBlockOutput::Discard => None,
            VertBlockOutput::Store(o) => Some(o + index),
        }
    }
}

/// An offset moved `index` columns to the right; padding stays padding.
pub open spec fn shifted(offset: Option<usize>, index: int) -> Option<usize> {
    match offset {
        Some(o) => Some((o + index) as usize),
        None => None,
    }
}

fn shift(offset: Option<usize>, index: usize) -> (moved: Option<usize>)
    requires
        offset matches Some(o) ==> o + index <= usize::MAX,
    ensures
        moved == shifted(offset, index as int),
{
    match offset {
        Some(o) => Some(o + index),
        None => None,
    }
}

/// What vector `vector` of `strip` touches in step number `ctr`.
pub open spec fn vector_access(
    strip: Strip,
    input: VertBlockInput,
    ctr: int,
    output: VertBlockOutput,
    vector: int,
) -> VectorAccess {
    VectorAccess {
        top: input.taps(V_MAX_LANES * vector).0,
        bottom: input.taps(V_MAX_LANES * vector).1,
        store: output.place(V_MAX_LANES * vector),
        lanes: lanes_in(strip, vector) as usize,
        current: ring_offset(ring_slot(ctr, 0), vector) as usize,
        previous: ring_offset(ring_slot(ctr, 1), vector) as usize,
        before: ring_offset(ring_slot(ctr, 2), vector) as usize,
    }
}

/// What the vectors of `strip` touch in step number `ctr`, from left to
/// right.
pub open spec fn block_accesses(
    strip: Strip,
    input: VertBlockInput,
    ctr: int,
    output: VertBlockOutput,
) -> Seq<VectorAccess> {
    Seq::new(strip.vectors as nat, |v: int| vector_access(strip, input, ctr, output, v))
}

/// Two vectors of state in a chunk do not overlap.
pub open spec fn apart(offset_a: int, offset_b: int) -> bool {
    offset_a + V_MAX_LANES <= offset_b || offset_b + V_MAX_LANES <= offset_a
}

/// The ring buffer keeps two steps of history. What vector `v` writes in
/// step `ctr` is what it reads as its previous state in the next step and
/// as the state before that in the step after; until then no vector `u` of
/// the strip writes over it, and no step writes where it reads.
pub proof fn lemma_ring_keeps_history(ctr: int, v: int, u: int)
    requires
        0 <= v < V_CACHE_LINE_VECTORS,
        0 <= u < V_CACHE_LINE_VECTORS,
    ensures
        0 <= ring_slot(ctr, 0) < V_MOD,
        ring_offset(ring_slot(ctr + 1, 1), v) == ring_offset(ring_slot(ctr, 0), v),
        ring_offset(ring_slot(ctr + 2, 2), v) == ring_offset(ring_slot(ctr, 0), v),
        apart(ring_offset(ring_slot(ctr + 1, 0), u), ring_offset(ring_slot(ctr, 0), v)),
        apart(ring_offset(ring_slot(ctr + 2, 0), u), ring_offset(ring_slot(ctr, 0), v)),
        apart(ring_offset(ring_slot(ctr, 0), u), ring_offset(ring_slot(ctr, 1), v)),
        apart(ring_offset(ring_slot(ctr, 0), u), ring_offset(ring_slot(ctr, 2), v)),
{
}

/// The state of every vector has four samples of its own inside a chunk:
/// offsets of different slots or vectors are at least a vector apart, and
/// none runs past the chunk.
pub proof fn lemma_ring_offsets_apart(slot_a: int, vector_a: int, slot_b: int, vector_b: int)
    requires
        0 <= slot_a < V_MOD,
        0 <= slot_b < V_MOD,
        0 <= vector_a < V_CACHE_LINE_VECTORS,
        0 <= vector_b < V_CACHE_LINE_VECTORS,
        slot_a != slot_b || vector_a != vector_b,
    ensures
        0 <= ring_offset(slot_a, vector_a),
        ring_offset(slot_a, vector_a) + V_MAX_LANES <= RING_CHUNK,
        ring_offset(slot_a, vector_a) + V_MAX_LANES <= ring_offset(slot_b, vector_b)
            || ring_offset(slot_b, vector_b) + V_MAX_LANES <= ring_offset(slot_a, vector_a),
{
}

/// Start of the chunk that holds the state of resonator `resonance`.
pub fn ring_chunk(resonance: usize) -> (start: usize)
    requires
        resonance < 3,
    ensures
        start == resonance * RING_CHUNK,
        start + RING_CHUNK <= RING_LEN,
{
    resonance * RING_CHUNK
}

/// Plans one step of the recurrence for every vector of a strip, and counts
/// the step.
///
/// `ctr` is the number of steps that the strip has taken; it is zero before
/// the first step, when the ring buffer holds zeros.
pub fn vertical_block(
    strip: &Strip,
    input: &VertBlockInput,
    ctr: &mut usize,
    output: &VertBlockOutput,
) -> (accesses: Vec<VectorAccess>)
    requires
        strip_wf(*strip),
        *old(ctr) < usize::MAX,
        input.fits(strip.lanes as int),
        output.fits(strip.lanes as int),
    ensures
        *final(ctr) == *old(ctr) + 1,
        accesses@ == block_accesses(*strip, *input, *final(ctr) as int, *output),
        forall|v: int|
            0 <= v < accesses@.len() ==> {
                let a = #[trigger] accesses@[v];
                &&& 1 <= a.lanes <= V_MAX_LANES
                &&& V_MAX_LANES * v + a.lanes <= strip.lanes
                &&& a.current + V_MAX_LANES <= RING_CHUNK
                &&& a.previous + V_MAX_LANES <= RING_CHUNK
                &&& a.before + V_MAX_LANES <= RING_CHUNK
            },
{
    *ctr += 1;
    let n_0: usize = *ctr % V_MOD;
    let n_1: usize = (n_0 + 3) % V_MOD;
    let n_2: usize = (n_0 + 2) % V_MOD;
    let mut accesses: Vec<VectorAccess> = Vec::new();
    let mut idx_vec: usize = 0;
    while idx_vec < strip.vectors
        invariant
            idx_vec <= strip.vectors,
            strip_wf(*strip),
            input.fits(strip.lanes as int),
            output.fits(strip.lanes as int),
            n_0 == ring_slot(*ctr as int, 0),
            n_1 == ring_slot(*ctr as int, 1),
            n_2 == ring_slot(*ctr as int, 2),
            accesses@ =~= Seq::new(
                idx_vec as nat,
                |v: int| vector_access(*strip, *input, *ctr as int, *output, v),
            ),
        decreases strip.vectors - idx_vec,
    {
        let index: usize = idx_vec * V_MAX_LANES;
        let taps = input.get(index);
        let rest: usize = strip.lanes - index;
        let lanes: usize = if rest < V_MAX_LANES {
            rest
        } else {
            V_MAX_LANES
        };
        accesses.push(
            VectorAccess {
                top: taps.0,
                bottom: taps.1,
                store: output.write(index),
                lanes,
                current: V_TOTAL_LANES * n_0 + index,
                previous: V_TOTAL_LANES * n_1 + index,
                before: V_TOTAL_LANES * n_2 + index,
            },
        );
        idx_vec += 1;
    }
    accesses
}

} // verus!
