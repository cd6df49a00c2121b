use crate::align::div_ceil_spec;
use crate::kernel::RecursiveGaussian;
use vstd::prelude::*;

verus! {

/// Columns that one vector covers.
pub const V_MAX_LANES: usize = 4;

/// Vectors in one cache line.
pub const V_CACHE_LINE_VECTORS: usize = 4;

/// Columns of a full strip: the samples of one cache line of 64 bytes.
pub const V_TOTAL_LANES: usize = 16;

/// Rows by which the interior of a strip looks ahead with its prefetch hint.
pub const V_PREFETCH_ROWS: usize = 8;

/// A group of neighbouring columns that the vertical pass scans together.
#[derive(Clone, Copy, Debug, PartialEq, Eq)]
pub struct Strip {
    /// First column of the strip.
    pub x: usize,
    /// Vectors that the strip is processed in.
    pub vectors: usize,
    /// Columns of the strip that lie inside the plane.
    pub lanes: usize,
}

/// A strip whose vectors each cover at least one column of the plane.
pub open spec fn strip_wf(strip: Strip) -> bool {
    &&& 1 <= strip.vectors <= V_CACHE_LINE_VECTORS
    &&& 4 * (strip.vectors - 1) < strip.lanes <= 4 * strip.vectors
}

/// Columns of vector `vector` of a strip that lie inside the plane.
pub open spec fn lanes_in(strip: Strip, vector: int) -> int {
    if strip.lanes - 4 * vector < 4 {
        strip.lanes - 4 * vector
    } else {
        4
    }
}

/// The strip with index `i` of a plane `width` columns wide: strips of a
/// whole cache line while one fits, then strips of one vector.
pub open spec fn strip_at(i: int, width: int) -> Strip {
    let full = width / 16;
    if i < full {
        Strip { x: (16 * i) as usize, vectors: 4, lanes: 16 }
    } else {
        let x = 16 * full + 4 * (i - full);
        Strip {
            x: x as usize,
            vectors: 1,
            lanes: if width - x < 4 {
                (width - x) as usize
            } else {
                4
            },
        }
    }
}

/// Number of strips of a plane `width` columns wide.
pub open spec fn strip_count(width: int) -> int {
    width / 16 + div_ceil_spec(width % 16, 4)
}

/// The strips of a plane, from left to right.
pub open spec fn strips(width: int) -> Seq<Strip> {
    Seq::new(strip_count(width) as nat, |i: int| strip_at(i, width))
}

/// The strips of a plane cut its columns into consecutive, non-empty
/// groups: the first starts at column 0, each next one starts where the one
/// before it ends, and the last ends at the last column. Every vector of a
/// strip covers at least one column.
pub proof fn lemma_strips_tile(width: int)
    requires
        0 <= width <= usize::MAX,
    ensures
        forall|i: int|
            0 <= i < strips(width).len() ==> {
                let s = #[trigger] strips(width)[i];
                &&& strip_wf(s)
                &&& s.x + s.lanes <= width
                &&& i == 0 ==> s.x == 0
                &&& i + 1 < strips(width).len() ==> s.x + s.lanes == strips(width)[i + 1].x
                &&& i + 1 == strips(width).len() ==> s.x + s.lanes == width
            },
        width > 0 ==> strips(width).len() > 0,
        width == 0 ==> strips(width).len() == 0,
{
}

impl RecursiveGaussian {
    /// The strips of the vertical pass over a plane `width` columns wide.
    pub fn fast_gaussian_vertical(&self, width: usize) -> (tiles: Vec<Strip>)
        ensures
            tiles@ == strips(width as int),
            forall|i: int|
                0 <= i < tiles@.len() ==> strip_wf(#[trigger] tiles@[i]) && tiles@[i].x
                    + tiles@[i].lanes <= width,
    {
        let mut tiles: Vec<Strip> = Vec::new();
        let mut x: usize = 0;
        while width - x >= V_TOTAL_LANES
            invariant
                x <= width,
                x % 16 == 0,
                tiles@ =~= Seq::new((x / 16) as nat, |i: int| strip_at(i, width as int)),
            decreases width - x,
        {
            tiles.push(Strip { x, vectors: V_CACHE_LINE_VECTORS, lanes: V_TOTAL_LANES });
            x += V_TOTAL_LANES;
        }
        let ghost full = width as int / 16;
        let ghost mut i: int = full;
        while x < width
            invariant
                x <= width,
                full == width as int / 16,
                full <= i,
                x == if 16 * full + 4 * (i - full) < width {
                    16 * full + 4 * (i - full)
                } else {
                    width as int
                },
                i <= strip_count(width as int),
                x == width ==> i == strip_count(width as int),
                tiles@ =~= Seq::new(i as nat, |i: int| strip_at(i, width as int)),
            decreases width - x,
        {
            let lanes: usize = if width - x < V_MAX_LANES {
                width - x
            } else {
                V_MAX_LANES
            };
            tiles.push(Strip { x, vectors: 1, lanes });
            x += lanes;
            proof {
                i = i + 1;
            }
        }
        proof {
            lemma_strips_tile(width as int);
        }
        tiles
    }
}

} // verus!
