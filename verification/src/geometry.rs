//! The layout of a star polygon on the regular n-gon.
//!
//! The vertices of `{n/k}` are the `n` points that divide the unit circle into
//! equal arcs, counted from the point at angle 0. A point is named by its
//! number `j`, which stands for the angle `j/n` of a full turn. From these
//! numbers a host computes coordinates for whatever scale it draws at; which
//! point is joined to which is settled here.
use vstd::prelude::*;
use vstd::arithmetic::div_mod::*;
use crate::notation::PolygonSpec;

verus! {

/// A line from one point of the n-gon to another, each named by its number.
#[derive(Clone, Copy, Debug, PartialEq, Eq, Structural)]
pub struct Segment {
    pub from: usize,
    pub to: usize,
}

/// The drawing of one polygon: its vertices in order, and one edge for each.
#[derive(Debug)]
pub struct GeneratedShape {
    /// Into how many equal arcs the circle is divided.
    pub order: usize,
    /// The number of each vertex.
    pub vertices: Vec<usize>,
    /// The edge that leaves each vertex.
    pub edges: Vec<Segment>,
}

/// The vertex that the edge from vertex `i` leads to: the one `k` steps ahead,
/// counted round the circle.
pub open spec fn target_of(spec: PolygonSpec, i: int) -> int
    recommends
        spec.n > 0,
{
    (i + spec.k) % (spec.n as int)
}

/// The vertices of a polygon: the points 0, 1, .., n - 1.
pub open spec fn vertices_of(spec: PolygonSpec) -> Seq<usize> {
    Seq::new(spec.n as nat, |i: int| i as usize)
}

/// The edges of a polygon: from each vertex to its target.
pub open spec fn edges_of(spec: PolygonSpec) -> Seq<Segment> {
    Seq::new(spec.n as nat, |i: int| Segment { from: i as usize, to: target_of(spec, i) as usize })
}

/// The target of a vertex is a vertex.
pub proof fn lemma_target_in_range(spec: PolygonSpec, i: int)
    requires
        0 <= i < spec.n,
    ensures
        0 <= target_of(spec, i) < spec.n,
{
}

/// With step 1 every edge leads to the next vertex, and the last one back to
/// the first: the outline of a simple regular polygon.
pub proof fn lemma_step_one_joins_neighbours(spec: PolygonSpec, i: int)
    requires
        spec.k == 1,
        0 <= i < spec.n,
    ensures
        target_of(spec, i) == if i + 1 < spec.n { i + 1 } else { 0 },
{
    if i + 1 < spec.n {
        lemma_small_mod((i + 1) as nat, spec.n as nat);
    } else {
        lemma_mod_self_0(spec.n as int);
    }
}

/// Only the step's remainder by the order counts: `{n/k}` and `{n/(k mod n)}`
/// join the same vertices.
pub proof fn lemma_step_wraps(spec: PolygonSpec, i: int)
    requires
        spec.n > 0,
        0 <= i < spec.n,
    ensures
        target_of(spec, i) == (i + spec.k % spec.n) % (spec.n as int),
{
    lemma_add_mod_noop_right(i, spec.k as int, spec.n as int);
}

/// Lays out the polygon `{n/k}`: `n` vertices, numbered as they lie round the
/// circle, and from each vertex the edge to the vertex `k` steps ahead. The
/// polygon of order 0 has neither vertices nor edges; that of order 1 has one
/// vertex and an edge from it to itself.
pub fn generate_shape(spec: &PolygonSpec) -> (shape: GeneratedShape)
    ensures
        shape.order == spec.n,
        shape.vertices@ == vertices_of(*spec),
        shape.edges@ == edges_of(*spec),
        shape.vertices@.len() == spec.n,
        shape.edges@.len() == spec.n,
{
    let n = spec.n;
    let mut vertices: Vec<usize> = Vec::new();
    let mut edges: Vec<Segment> = Vec::new();
    if n > 0 {
        let step = spec.k % n;
        let mut i: usize = 0;
        while i < n
            invariant
                n == spec.n,
                n > 0,
                step == spec.k % n,
                i <= n,
                vertices@.len() == i,
                edges@.len() == i,
                forall|j: int| 0 <= j < i ==> #[trigger] vertices@[j] == j,
                forall|j: int|
                    0 <= j < i ==> #[trigger] edges@[j] == (Segment {
                        from: j as usize,
                        to: target_of(*spec, j) as usize,
                    }),
            decreases n - i,
        {
            let to = if step < n - i {
                i + step
            } else {
                step - (n - i)
            };
            proof {
                lemma_step_wraps(*spec, i as int);
                if step < n - i {
                    lemma_small_mod((i + step) as nat, n as nat);
                } else {
                    lemma_mod_sub_multiples_vanish(i + step, n as int);
                    lemma_small_mod((i + step - n) as nat, n as nat);
                }
            }
            vertices.push(i);
            edges.push(Segment { from: i, to });
            i += 1;
        }
    }
    GeneratedShape { order: n, vertices, edges }
}

} // verus!
