//! Sutherland-Hodgman clipping of triangles against the six planes of the
//! view frustum, over vertex indices.
//!
//! The clipper never sees a position. For each pass the caller says which
//! vertices of the polygon lie inside the plane and which crossing edges
//! run parallel to it; the clipper decides which vertices the clipped
//! polygon has, numbers the vertices that the crossings add, and remembers
//! them so that an edge shared by two triangles is cut once.
use std::collections::HashMap;
use vstd::arithmetic::div_mod::{lemma_mod_self_0, lemma_small_mod};
use vstd::prelude::*;

verus! {

/// The six planes of the view frustum in clip space.
#[derive(Clone, Copy, Debug, PartialEq, Eq, Structural)]
pub enum ClipPlane {
    /// `x = w`.
    XP,
    /// `x = -w`.
    XN,
    /// `y = w`.
    YP,
    /// `y = -w`.
    YN,
    /// `z = w`.
    ZP,
    /// `z = -w`.
    ZN,
}

impl ClipPlane {
    /// Place of the plane in the order in which triangles are clipped.
    pub open spec fn index(self) -> int {
        match self {
            ClipPlane::XP => 0,
            ClipPlane::XN => 1,
            ClipPlane::YP => 2,
            ClipPlane::YN => 3,
            ClipPlane::ZP => 4,
            ClipPlane::ZN => 5,
        }
    }

    /// The plane at a place in the clipping order.
    pub open spec fn at(index: int) -> ClipPlane {
        if index == 0 {
            ClipPlane::XP
        } else if index == 1 {
            ClipPlane::XN
        } else if index == 2 {
            ClipPlane::YP
        } else if index == 3 {
            ClipPlane::YN
        } else if index == 4 {
            ClipPlane::ZP
        } else {
            ClipPlane::ZN
        }
    }

    /// Components `(x, y, z, w)` of the plane's normal. A point `p` is
    /// outside the plane when the dot product of the normal with `p` is
    /// positive.
    pub open spec fn normal_of(self) -> Seq<i8> {
        match self {
            ClipPlane::XP => seq![1i8, 0i8, 0i8, -1i8],
            ClipPlane::XN => seq![-1i8, 0i8, 0i8, -1i8],
            ClipPlane::YP => seq![0i8, 1i8, 0i8, -1i8],
            ClipPlane::YN => seq![0i8, -1i8, 0i8, -1i8],
            ClipPlane::ZP => seq![0i8, 0i8, 1i8, -1i8],
            ClipPlane::ZN => seq![0i8, 0i8, -1i8, -1i8],
        }
    }

    /// Place of the plane in the order in which triangles are clipped.
    pub fn ordinal(self) -> (index: usize)
        ensures
            index == self.index(),
            index < 6,
    {
        match self {
            ClipPlane::XP => 0,
            ClipPlane::XN => 1,
            ClipPlane::YP => 2,
            ClipPlane::YN => 3,
            ClipPlane::ZP => 4,
            ClipPlane::ZN => 5,
        }
    }

    /// The plane at a place in the clipping order.
    pub fn from_ordinal(index: usize) -> (plane: ClipPlane)
        requires
            index < 6,
        ensures
            plane == ClipPlane::at(index as int),
            plane.index() == index,
    {
        if index == 0 {
            ClipPlane::XP
        } else if index == 1 {
            ClipPlane::XN
        } else if index == 2 {
            ClipPlane::YP
        } else if index == 3 {
            ClipPlane::YN
        } else if index == 4 {
            ClipPlane::ZP
        } else {
            ClipPlane::ZN
        }
    }

    /// The six planes in clipping order.
    pub fn all() -> (planes: [ClipPlane; 6])
        ensures
            forall|i: int| 0 <= i < 6 ==> planes@[i] == ClipPlane::at(i),
            forall|i: int| 0 <= i < 6 ==> (#[trigger] planes@[i]).index() == i,
    {
        [ClipPlane::XP, ClipPlane::XN, ClipPlane::YP, ClipPlane::YN, ClipPlane::ZP, ClipPlane::ZN]
    }

    /// Components `(x, y, z, w)` of the plane's normal, which points out of
    /// the frustum.
    pub fn normal(self) -> (normal: [i8; 4])
        ensures
            normal@ == self.normal_of(),
    {
        let normal: [i8; 4] = match self {
            ClipPlane::XP => [1, 0, 0, -1],
            ClipPlane::XN => [-1, 0, 0, -1],
            ClipPlane::YP => [0, 1, 0, -1],
            ClipPlane::YN => [0, -1, 0, -1],
            ClipPlane::ZP => [0, 0, 1, -1],
            ClipPlane::ZN => [0, 0, -1, -1],
        };
        assert(normal@ =~= self.normal_of());
        normal
    }
}

/// An edge and the plane that cuts it. The edge is unordered: `low` is the
/// smaller of its two vertex indices.
pub struct EdgeKey {
    /// The smaller vertex index.
    pub low: usize,
    /// The larger vertex index.
    pub high: usize,
    /// The plane.
    pub plane: ClipPlane,
}

/// The key of the edge between `a` and `b`, in either direction.
pub open spec fn edge_key(a: usize, b: usize, plane: ClipPlane) -> EdgeKey {
    if a <= b {
        EdgeKey { low: a, high: b, plane }
    } else {
        EdgeKey { low: b, high: a, plane }
    }
}

/// A vertex that a pass added where an edge crosses the plane. The caller
/// places it on the segment from `from` to `to`.
#[derive(Clone, Copy, Debug, PartialEq, Eq, Structural)]
pub struct EdgeCut {
    /// Index of the edge's first vertex, in the polygon's direction.
    pub from: usize,
    /// Index of the edge's second vertex.
    pub to: usize,
    /// Index of the new vertex.
    pub vertex: usize,
}

/// What a pass has produced after some of the polygon's edges.
pub struct PassState {
    /// The clipped polygon so far.
    pub shape: Seq<usize>,
    /// Every cut made so far, by edge and plane.
    pub cuts: Map<EdgeKey, usize>,
    /// Number of vertices, the new ones included.
    pub vertex_count: nat,
    /// The vertices that this pass added, in the order of their indices.
    pub fresh: Seq<EdgeCut>,
}

/// The effect of one edge, from vertex `a` to vertex `b`, on a pass.
///
/// An edge with both ends on one side contributes `b` where `b` is inside.
/// An edge that crosses the plane contributes the vertex of its cut, a new
/// one unless the edge was cut by this plane before, and then `b` where `b`
/// is inside. A crossing edge that runs parallel to the plane is not cut:
/// it contributes `b` where `b` is outside, and `a` and `b` otherwise.
pub open spec fn clip_edge(
    state: PassState,
    plane: ClipPlane,
    a: usize,
    b: usize,
    a_in: bool,
    b_in: bool,
    parallel: bool,
) -> PassState {
    if a_in == b_in {
        if b_in {
            PassState { shape: state.shape.push(b), ..state }
        } else {
            state
        }
    } else if parallel {
        if b_in {
            PassState { shape: state.shape.push(a).push(b), ..state }
        } else {
            PassState { shape: state.shape.push(b), ..state }
        }
    } else {
        let key = edge_key(a, b, plane);
        let cut = if state.cuts.contains_key(key) {
            PassState { shape: state.shape.push(state.cuts[key]), ..state }
        } else {
            PassState {
                shape: state.shape.push(state.vertex_count as usize),
                cuts: state.cuts.insert(key, state.vertex_count as usize),
                vertex_count: state.vertex_count + 1,
                fresh: state.fresh.push(
                    EdgeCut { from: a, to: b, vertex: state.vertex_count as usize },
                ),
            }
        };
        if b_in {
            PassState { shape: cut.shape.push(b), ..cut }
        } else {
            cut
        }
    }
}

/// The outcome of the first `edges` edges of one pass of a polygon against
/// a plane. Edge `e` runs from `polygon[e]` to the next vertex, the last
/// edge back to `polygon[0]`; `inside[e]` says whether `polygon[e]` is
/// inside the plane, and `parallel[e]` whether edge `e` runs parallel to
/// it.
pub open spec fn clip_pass(
    polygon: Seq<usize>,
    inside: Seq<bool>,
    parallel: Seq<bool>,
    plane: ClipPlane,
    cuts: Map<EdgeKey, usize>,
    vertex_count: nat,
    edges: nat,
) -> PassState
    decreases edges,
{
    if edges == 0 {
        PassState { shape: Seq::empty(), cuts, vertex_count, fresh: Seq::empty() }
    } else {
        let e = (edges - 1) as int;
        let next = (e + 1) % (polygon.len() as int);
        clip_edge(
            clip_pass(polygon, inside, parallel, plane, cuts, vertex_count, (edges - 1) as nat),
            plane,
            polygon[e],
            polygon[next],
            inside[e],
            inside[next],
            parallel[e],
        )
    }
}

/// The triangles of a fan over a polygon: for every vertex after the first
/// but the last, the first vertex, that vertex and the one after it. A
/// polygon of fewer than three vertices has none.
pub open spec fn fan(polygon: Seq<usize>) -> Seq<usize> {
    if polygon.len() < 3 {
        Seq::empty()
    } else {
        Seq::new(
            (3 * (polygon.len() - 2)) as nat,
            |i: int|
                if i % 3 == 0 {
                    polygon[0]
                } else if i % 3 == 1 {
                    polygon[i / 3 + 1]
                } else {
                    polygon[i / 3 + 2]
                },
        )
    }
}

/// Mathematical content of a [`Clipper`].
pub struct ClipperView {
    /// Number of vertices that the geometry had before it was clipped.
    pub base: nat,
    /// Number of vertices now, those added by cuts included.
    pub vertex_count: nat,
    /// The vertex of every cut made so far, by edge and plane.
    pub cuts: Map<EdgeKey, usize>,
    /// The triangles emitted so far, three indices each.
    pub triangles: Seq<usize>,
}

impl ClipperView {
    /// Cuts and triangles name vertices that exist, and every cut vertex
    /// was added after the staged ones.
    pub open spec fn wf(self) -> bool {
        &&& self.base <= self.vertex_count <= usize::MAX
        &&& self.triangles.len() % 3 == 0
        &&& forall|i: int|
            0 <= i < self.triangles.len() ==> #[trigger] self.triangles[i] < self.vertex_count
        &&& forall|key: EdgeKey| #[trigger]
            self.cuts.contains_key(key) ==> self.base <= self.cuts[key] < self.vertex_count
    }

    /// Every index of the polygon names a vertex that exists.
    pub open spec fn holds(self, polygon: Seq<usize>) -> bool {
        forall|i: int| 0 <= i < polygon.len() ==> #[trigger] polygon[i] < self.vertex_count
    }
}

/// One number for an unordered edge: the smaller index in the upper half,
/// the larger in the lower.
pub open spec fn edge_code(low: usize, high: usize) -> u128 {
    (low * 0x1_0000_0000_0000_0000 + high) as u128
}

/// The state of one clipping run over a geometry: the vertices counted so
/// far, the cuts made, and the triangles that came out.
pub struct Clipper {
    base: usize,
    vertex_count: usize,
    caches: Vec<HashMap<u128, usize>>,
    triangles: Vec<usize>,
}

impl View for Clipper {
    type V = ClipperView;

    closed spec fn view(&self) -> ClipperView {
        ClipperView {
            base: self.base as nat,
            vertex_count: self.vertex_count as nat,
            cuts: Map::new(
                |key: EdgeKey|
                    self.caches@[key.plane.index()]@.contains_key(edge_code(key.low, key.high)),
                |key: EdgeKey| self.caches@[key.plane.index()]@[edge_code(key.low, key.high)],
            ),
            triangles: self.triangles@,
        }
    }
}

impl Clipper {
    /// The clipper has one cache for each plane.
    pub closed spec fn ready(&self) -> bool {
        self.caches@.len() == 6
    }

    /// The clipper is ready, and its cuts and triangles name vertices that
    /// exist.
    pub open spec fn wf(&self) -> bool {
        self.ready() && self@.wf()
    }

    /// A clipper for a geometry of `vertex_count` vertices, with no cut
    /// made and no triangle emitted.
    pub fn new(vertex_count: usize) -> (clipper: Clipper)
        ensures
            clipper.wf(),
            clipper@.base == vertex_count,
            clipper@.vertex_count == vertex_count,
            clipper@.cuts == Map::<EdgeKey, usize>::empty(),
            clipper@.triangles == Seq::<usize>::empty(),
    {
        let mut caches: Vec<HashMap<u128, usize>> = Vec::with_capacity(6);
        let mut i: usize = 0;
        while i < 6
            invariant
                i <= 6,
                caches@.len() == i,
                forall|k: int| 0 <= k < i ==> (#[trigger] caches@[k])@ == Map::<u128, usize>::empty(),
            decreases 6 - i,
        {
            caches.push(HashMap::new());
            i += 1;
        }
        let clipper = Clipper { base: vertex_count, vertex_count, caches, triangles: Vec::new() };
        assert(clipper@.cuts =~= Map::<EdgeKey, usize>::empty());
        clipper
    }

    /// Number of vertices, those added by cuts included.
    pub fn vertex_count(&self) -> (count: usize)
        ensures
            count == self@.vertex_count,
    {
        self.vertex_count
    }

    /// The triangles emitted so far, three indices each.
    pub fn triangles(&self) -> (triangles: &Vec<usize>)
        ensures
            triangles@ == self@.triangles,
    {
        &self.triangles
    }

    /// The vertex that cuts the edge between `a` and `b` at `plane`, if the
    /// edge was cut there.
    pub fn cut_vertex(&self, a: usize, b: usize, plane: ClipPlane) -> (vertex: Option<usize>)
        requires
            self.wf(),
        ensures
            vertex is Some <==> self@.cuts.contains_key(edge_key(a, b, plane)),
            vertex matches Some(found) ==> found == self@.cuts[edge_key(a, b, plane)],
    {
        let (low, high) = if a <= b {
            (a, b)
        } else {
            (b, a)
        };
        let code = encode_edge(low, high);
        match self.caches[plane.ordinal()].get(&code) {
            Some(found) => Some(*found),
            None => None,
        }
    }

    /// Emits the polygon as a fan of triangles around its first vertex. A
    /// polygon of fewer than three vertices emits nothing.
    pub fn emit_fan(&mut self, polygon: &Vec<usize>)
        requires
            old(self).wf(),
            old(self)@.holds(polygon@),
        ensures
            final(self).wf(),
            final(self)@ == (ClipperView {
                triangles: old(self)@.triangles + fan(polygon@),
                ..old(self)@
            }),
    {
        let n = polygon.len();
        if n < 3 {
            assert(self@.triangles =~= old(self)@.triangles + fan(polygon@));
            return ;
        }
        let fan_base = polygon[0];
        let ghost whole = fan(polygon@);
        let mut v: usize = 1;
        while v < n - 1
            invariant
                1 <= v <= n - 1,
                n == polygon@.len(),
                n >= 3,
                fan_base == polygon@[0],
                whole == fan(polygon@),
                self.ready(),
                self@.base == old(self)@.base,
                self@.vertex_count == old(self)@.vertex_count,
                self@.cuts == old(self)@.cuts,
                self@.triangles == old(self)@.triangles + whole.take(3 * (v - 1)),
                old(self)@.wf(),
                old(self)@.holds(polygon@),
            decreases n - v,
        {
            self.triangles.push(fan_base);
            self.triangles.push(polygon[v]);
            self.triangles.push(polygon[v + 1]);
            proof {
                let first = 3 * (v - 1);
                assert(whole[first] == polygon@[0]);
                assert(whole[first + 1] == polygon@[v as int]);
                assert(whole[first + 2] == polygon@[v + 1]);
                assert(self@.triangles =~= old(self)@.triangles + whole.take(3 * v));
            }
            v += 1;
        }
        assert(whole.take(3 * (n - 2)) =~= whole);
    }

    /// Ends the run and hands out its triangles.
    pub fn into_triangles(self) -> (triangles: Vec<usize>)
        ensures
            triangles@ == self@.triangles,
    {
        self.triangles
    }

    /// Clips a polygon against one plane.
    ///
    /// `inside[i]` says whether vertex `polygon[i]` lies inside the plane;
    /// `parallel[i]` says whether the edge from `polygon[i]` to the next
    /// vertex runs parallel to the plane, and is read only where that edge
    /// crosses it. Returns the clipped polygon and the vertices that were
    /// added, which the caller has to place: each on its edge, where the
    /// edge meets the plane, in the order given.
    #[verifier::loop_isolation(false)]
    pub fn clip_polygon(
        &mut self,
        plane: ClipPlane,
        polygon: &Vec<usize>,
        inside: &Vec<bool>,
        parallel: &Vec<bool>,
    ) -> (result: (Vec<usize>, Vec<EdgeCut>))
        requires
            old(self).wf(),
            old(self)@.holds(polygon@),
            inside@.len() == polygon@.len(),
            parallel@.len() == polygon@.len(),
            old(self)@.vertex_count + polygon@.len() <= usize::MAX,
        ensures
            final(self).wf(),
            final(self)@.base == old(self)@.base,
            final(self)@.triangles == old(self)@.triangles,
            final(self)@.holds(result.0@),
            ({
                let pass = clip_pass(
                    polygon@,
                    inside@,
                    parallel@,
                    plane,
                    old(self)@.cuts,
                    old(self)@.vertex_count,
                    polygon@.len(),
                );
                &&& result.0@ == pass.shape
                &&& result.1@ == pass.fresh
                &&& final(self)@.cuts == pass.cuts
                &&& final(self)@.vertex_count == pass.vertex_count
            }),
    {
        let n = polygon.len();
        let slot = plane.ordinal();
        let mut shape: Vec<usize> = Vec::new();
        let mut fresh: Vec<EdgeCut> = Vec::new();
        let ghost cuts0 = old(self)@.cuts;
        let ghost count0 = old(self)@.vertex_count;
        let mut e: usize = 0;
        while e < n
            invariant
                e <= n,
                self.wf(),
                self@.base == old(self)@.base,
                self@.triangles == old(self)@.triangles,
                self@.vertex_count <= count0 + e,
                count0 <= self@.vertex_count,
                self@.holds(shape@),
                (PassState {
                    shape: shape@,
                    cuts: self@.cuts,
                    vertex_count: self@.vertex_count,
                    fresh: fresh@,
                }) == clip_pass(polygon@, inside@, parallel@, plane, cuts0, count0, e as nat),
            decreases n - e,
        {
            let next = if e + 1 == n {
                0
            } else {
                e + 1
            };
            proof {
                if e + 1 == n {
                    lemma_mod_self_0(n as int);
                } else {
                    lemma_small_mod((e + 1) as nat, n as nat);
                }
                assert(next == (e + 1) % (n as int));
            }
            let a = polygon[e];
            let b = polygon[next];
            let a_in = inside[e];
            let b_in = inside[next];
            let ghost before = PassState {
                shape: shape@,
                cuts: self@.cuts,
                vertex_count: self@.vertex_count,
                fresh: fresh@,
            };
            if a_in == b_in {
                if b_in {
                    shape.push(b);
                }
            } else if parallel[e] {
                if b_in {
                    shape.push(a);
                    shape.push(b);
                } else {
                    shape.push(b);
                }
            } else {
                let (low, high) = if a <= b {
                    (a, b)
                } else {
                    (b, a)
                };
                let ghost key = edge_key(a, b, plane);
                let code = encode_edge(low, high);
                match self.cut_vertex(a, b, plane) {
                    Some(vertex) => {
                        assert(self@.cuts.contains_key(key) && self@.cuts[key] == vertex);
                        shape.push(vertex);
                    },
                    None => {
                        assert(!self@.cuts.contains_key(key));
                        let vertex = self.vertex_count;
                        self.caches[slot].insert(code, vertex);
                        self.vertex_count = vertex + 1;
                        fresh.push(EdgeCut { from: a, to: b, vertex });
                        shape.push(vertex);
                        proof {
                            assert forall|k: EdgeKey|
                                self@.cuts.contains_key(k) <==> before.cuts.insert(
                                    key,
                                    vertex,
                                ).contains_key(k) by {
                                lemma_edge_code_injective(k.low, k.high, low, high);
                            }
                            assert forall|k: EdgeKey| #[trigger]
                                self@.cuts.contains_key(k) implies self@.cuts[k]
                                == before.cuts.insert(key, vertex)[k] by {
                                lemma_edge_code_injective(k.low, k.high, low, high);
                            }
                            assert(self@.cuts =~= before.cuts.insert(key, vertex));
                        }
                    },
                }
                if b_in {
                    shape.push(b);
                }
            }
            e += 1;
        }
        (shape, fresh)
    }
}

/// The number that stands for an unordered edge in a cache.
fn encode_edge(low: usize, high: usize) -> (code: u128)
    ensures
        code == edge_code(low, high),
{
    (low as u128) * 0x1_0000_0000_0000_0000u128 + (high as u128)
}

/// Two edges with the same code are the same edge.
proof fn lemma_edge_code_injective(low1: usize, high1: usize, low2: usize, high2: usize)
    ensures
        edge_code(low1, high1) == edge_code(low2, high2) <==> low1 == low2 && high1 == high2,
{
}

/// The polygon turned by one place: it starts at the second vertex and
/// ends with the first.
pub open spec fn turned(polygon: Seq<usize>) -> Seq<usize> {
    Seq::new(polygon.len(), |i: int| polygon[(i + 1) % (polygon.len() as int)])
}

/// A pass over a polygon whose vertices all lie inside the plane keeps
/// every vertex, in order, starting at the second; it cuts nothing and
/// adds no vertex.
pub proof fn lemma_pass_keeps_inside_polygon(
    polygon: Seq<usize>,
    inside: Seq<bool>,
    parallel: Seq<bool>,
    plane: ClipPlane,
    cuts: Map<EdgeKey, usize>,
    vertex_count: nat,
)
    requires
        inside.len() == polygon.len(),
        forall|i: int| 0 <= i < inside.len() ==> inside[i],
    ensures
        clip_pass(polygon, inside, parallel, plane, cuts, vertex_count, polygon.len())
            == (PassState { shape: turned(polygon), cuts, vertex_count, fresh: Seq::empty() }),
{
    lemma_inside_edges(polygon, inside, parallel, plane, cuts, vertex_count, polygon.len());
    assert(turned(polygon).take(polygon.len() as int) =~= turned(polygon));
}

/// The first edges of a pass over a polygon that lies inside the plane.
proof fn lemma_inside_edges(
    polygon: Seq<usize>,
    inside: Seq<bool>,
    parallel: Seq<bool>,
    plane: ClipPlane,
    cuts: Map<EdgeKey, usize>,
    vertex_count: nat,
    edges: nat,
)
    requires
        inside.len() == polygon.len(),
        edges <= polygon.len(),
        forall|i: int| 0 <= i < inside.len() ==> inside[i],
    ensures
        clip_pass(polygon, inside, parallel, plane, cuts, vertex_count, edges) == (PassState {
            shape: turned(polygon).take(edges as int),
            cuts,
            vertex_count,
            fresh: Seq::empty(),
        }),
    decreases edges,
{
    if edges == 0 {
        assert(turned(polygon).take(0) =~= Seq::<usize>::empty());
    } else {
        let e = (edges - 1) as int;
        let n = polygon.len() as int;
        lemma_inside_edges(polygon, inside, parallel, plane, cuts, vertex_count, (edges - 1) as nat);
        if e + 1 == n {
            lemma_mod_self_0(n);
        } else {
            lemma_small_mod((e + 1) as nat, n as nat);
        }
        assert(turned(polygon).take(e).push(polygon[(e + 1) % n]) =~= turned(polygon).take(
            edges as int,
        ));
    }
}

/// Where the vertices and edges of a geometry lie with respect to the
/// planes.
pub struct Sides {
    /// Whether a vertex lies inside a plane.
    pub inside: spec_fn(usize, ClipPlane) -> bool,
    /// Whether the edge between two vertices runs parallel to a plane.
    pub parallel: spec_fn(usize, usize, ClipPlane) -> bool,
}

impl Sides {
    /// Whether the vertex lies inside the plane.
    pub open spec fn is_inside(self, vertex: usize, plane: ClipPlane) -> bool {
        (self.inside)(vertex, plane)
    }

    /// Whether the edge between the two vertices runs parallel to the
    /// plane.
    pub open spec fn is_parallel(self, a: usize, b: usize, plane: ClipPlane) -> bool {
        (self.parallel)(a, b, plane)
    }
}

/// For each vertex of the polygon, whether it lies inside the plane.
pub open spec fn inside_flags(polygon: Seq<usize>, sides: Sides, plane: ClipPlane) -> Seq<bool> {
    Seq::new(polygon.len(), |i: int| sides.is_inside(polygon[i], plane))
}

/// For each edge of the polygon, whether it runs parallel to the plane.
pub open spec fn parallel_flags(polygon: Seq<usize>, sides: Sides, plane: ClipPlane) -> Seq<bool> {
    Seq::new(
        polygon.len(),
        |i: int| sides.is_parallel(polygon[i], polygon[(i + 1) % (polygon.len() as int)], plane),
    )
}

/// The outcome of clipping a polygon against the first `planes` planes,
/// one pass after the other, each over what the pass before left. `fresh`
/// gathers the vertices that the passes added.
pub open spec fn clip_through(
    polygon: Seq<usize>,
    sides: Sides,
    cuts: Map<EdgeKey, usize>,
    vertex_count: nat,
    planes: nat,
) -> PassState
    decreases planes,
{
    if planes == 0 {
        PassState { shape: polygon, cuts, vertex_count, fresh: Seq::empty() }
    } else {
        let before = clip_through(polygon, sides, cuts, vertex_count, (planes - 1) as nat);
        let plane = ClipPlane::at(planes - 1);
        let pass = clip_pass(
            before.shape,
            inside_flags(before.shape, sides, plane),
            parallel_flags(before.shape, sides, plane),
            plane,
            before.cuts,
            before.vertex_count,
            before.shape.len(),
        );
        PassState { fresh: before.fresh + pass.fresh, ..pass }
    }
}

/// Clipping leaves a triangle alone that needs no clipping: when its three
/// vertices lie inside all six planes, the six passes and the fan give the
/// same triangle back, no vertex is added and no cut is made. So clipping
/// what was clipped before changes nothing.
pub proof fn lemma_inside_triangle_unchanged(
    a: usize,
    b: usize,
    c: usize,
    sides: Sides,
    cuts: Map<EdgeKey, usize>,
    vertex_count: nat,
)
    requires
        forall|plane: ClipPlane| #[trigger] sides.is_inside(a, plane),
        forall|plane: ClipPlane| #[trigger] sides.is_inside(b, plane),
        forall|plane: ClipPlane| #[trigger] sides.is_inside(c, plane),
    ensures
        fan(clip_through(seq![a, b, c], sides, cuts, vertex_count, 6).shape) == seq![a, b, c],
        clip_through(seq![a, b, c], sides, cuts, vertex_count, 6).cuts == cuts,
        clip_through(seq![a, b, c], sides, cuts, vertex_count, 6).vertex_count == vertex_count,
        clip_through(seq![a, b, c], sides, cuts, vertex_count, 6).fresh == Seq::<EdgeCut>::empty(),
{
    let t0 = seq![a, b, c];
    let t1 = seq![b, c, a];
    let t2 = seq![c, a, b];
    assert(turned(t0) =~= t1);
    assert(turned(t1) =~= t2);
    assert(turned(t2) =~= t0);
    let still = PassState { shape: t0, cuts, vertex_count, fresh: Seq::empty() };
    assert(clip_through(t0, sides, cuts, vertex_count, 0) == still);
    lemma_inside_pass_turns(t0, sides, cuts, vertex_count, 1);
    assert(clip_through(t0, sides, cuts, vertex_count, 1) == (PassState { shape: t1, ..still }));
    lemma_inside_pass_turns(t0, sides, cuts, vertex_count, 2);
    assert(clip_through(t0, sides, cuts, vertex_count, 2) == (PassState { shape: t2, ..still }));
    lemma_inside_pass_turns(t0, sides, cuts, vertex_count, 3);
    assert(clip_through(t0, sides, cuts, vertex_count, 3) == still);
    lemma_inside_pass_turns(t0, sides, cuts, vertex_count, 4);
    assert(clip_through(t0, sides, cuts, vertex_count, 4) == (PassState { shape: t1, ..still }));
    lemma_inside_pass_turns(t0, sides, cuts, vertex_count, 5);
    assert(clip_through(t0, sides, cuts, vertex_count, 5) == (PassState { shape: t2, ..still }));
    lemma_inside_pass_turns(t0, sides, cuts, vertex_count, 6);
    assert(clip_through(t0, sides, cuts, vertex_count, 6) == still);
    assert(fan(t0) =~= t0);
}

/// A pass over what the passes before left, where all of it lies inside
/// the plane, turns the polygon by one place and changes nothing else.
proof fn lemma_inside_pass_turns(
    polygon: Seq<usize>,
    sides: Sides,
    cuts: Map<EdgeKey, usize>,
    vertex_count: nat,
    planes: nat,
)
    requires
        planes >= 1,
        forall|i: int|
            0 <= i < clip_through(polygon, sides, cuts, vertex_count, (planes - 1) as nat).shape.len()
                ==> #[trigger] sides.is_inside(
                clip_through(polygon, sides, cuts, vertex_count, (planes - 1) as nat).shape[i],
                ClipPlane::at(planes - 1),
            ),
    ensures
        clip_through(polygon, sides, cuts, vertex_count, planes) == (PassState {
            shape: turned(
                clip_through(polygon, sides, cuts, vertex_count, (planes - 1) as nat).shape,
            ),
            ..clip_through(polygon, sides, cuts, vertex_count, (planes - 1) as nat)
        }),
{
    let before = clip_through(polygon, sides, cuts, vertex_count, (planes - 1) as nat);
    let plane = ClipPlane::at(planes - 1);
    lemma_pass_keeps_inside_polygon(
        before.shape,
        inside_flags(before.shape, sides, plane),
        parallel_flags(before.shape, sides, plane),
        plane,
        before.cuts,
        before.vertex_count,
    );
    assert(before.fresh + Seq::<EdgeCut>::empty() =~= before.fresh);
}

/// Every cut names a vertex from `base` on.
pub open spec fn cuts_from(cuts: Map<EdgeKey, usize>, base: nat) -> bool {
    forall|key: EdgeKey| #[trigger] cuts.contains_key(key) ==> cuts[key] >= base
}

/// A pass adds vertices at the end: the count of vertices does not go
/// down, and where the cuts named vertices from `base` on before, they do
/// so after.
proof fn lemma_pass_cuts_from(
    polygon: Seq<usize>,
    inside: Seq<bool>,
    parallel: Seq<bool>,
    plane: ClipPlane,
    cuts: Map<EdgeKey, usize>,
    vertex_count: nat,
    edges: nat,
    base: nat,
)
    requires
        cuts_from(cuts, base),
        base <= vertex_count,
        clip_pass(polygon, inside, parallel, plane, cuts, vertex_count, edges).vertex_count
            <= usize::MAX,
    ensures
        cuts_from(clip_pass(polygon, inside, parallel, plane, cuts, vertex_count, edges).cuts, base),
        vertex_count <= clip_pass(
            polygon,
            inside,
            parallel,
            plane,
            cuts,
            vertex_count,
            edges,
        ).vertex_count,
    decreases edges,
{
    if edges > 0 {
        let before = clip_pass(polygon, inside, parallel, plane, cuts, vertex_count, (edges - 1) as nat);
        lemma_pass_cuts_from(
            polygon,
            inside,
            parallel,
            plane,
            cuts,
            vertex_count,
            (edges - 1) as nat,
            base,
        );
    }
}

/// The passes add vertices at the end: the count of vertices does not go
/// down, and where the cuts named vertices from `base` on before, they do
/// so after.
proof fn lemma_through_cuts_from(
    polygon: Seq<usize>,
    sides: Sides,
    cuts: Map<EdgeKey, usize>,
    vertex_count: nat,
    planes: nat,
    base: nat,
)
    requires
        cuts_from(cuts, base),
        base <= vertex_count,
        clip_through(polygon, sides, cuts, vertex_count, planes).vertex_count <= usize::MAX,
    ensures
        cuts_from(clip_through(polygon, sides, cuts, vertex_count, planes).cuts, base),
        vertex_count <= clip_through(polygon, sides, cuts, vertex_count, planes).vertex_count,
    decreases planes,
{
    if planes > 0 {
        let before = clip_through(polygon, sides, cuts, vertex_count, (planes - 1) as nat);
        let plane = ClipPlane::at(planes - 1);
        lemma_pass_count_grows(
            before.shape,
            inside_flags(before.shape, sides, plane),
            parallel_flags(before.shape, sides, plane),
            plane,
            before.cuts,
            before.vertex_count,
            before.shape.len(),
        );
        lemma_through_cuts_from(polygon, sides, cuts, vertex_count, (planes - 1) as nat, base);
        lemma_pass_cuts_from(
            before.shape,
            inside_flags(before.shape, sides, plane),
            parallel_flags(before.shape, sides, plane),
            plane,
            before.cuts,
            before.vertex_count,
            before.shape.len(),
            base,
        );
    }
}

/// A pass never lowers the count of vertices.
proof fn lemma_pass_count_grows(
    polygon: Seq<usize>,
    inside: Seq<bool>,
    parallel: Seq<bool>,
    plane: ClipPlane,
    cuts: Map<EdgeKey, usize>,
    vertex_count: nat,
    edges: nat,
)
    ensures
        vertex_count <= clip_pass(
            polygon,
            inside,
            parallel,
            plane,
            cuts,
            vertex_count,
            edges,
        ).vertex_count,
    decreases edges,
{
    if edges > 0 {
        lemma_pass_count_grows(
            polygon,
            inside,
            parallel,
            plane,
            cuts,
            vertex_count,
            (edges - 1) as nat,
        );
    }
}

/// No vertex that lies outside a plane survives the clipping: where no
/// edge runs parallel to a plane, every vertex of the clipped polygon is
/// either one that a cut added, or a vertex of the polygon that lies
/// inside every plane it was clipped against.
pub proof fn lemma_clipped_vertices_are_inside(
    polygon: Seq<usize>,
    sides: Sides,
    cuts: Map<EdgeKey, usize>,
    vertex_count: nat,
    base: nat,
    planes: nat,
    i: int,
    p: int,
)
    requires
        cuts_from(cuts, base),
        base <= vertex_count,
        clip_through(polygon, sides, cuts, vertex_count, planes).vertex_count <= usize::MAX,
        forall|a: usize, b: usize, plane: ClipPlane| !#[trigger] sides.is_parallel(a, b, plane),
        0 <= i < clip_through(polygon, sides, cuts, vertex_count, planes).shape.len(),
        clip_through(polygon, sides, cuts, vertex_count, planes).shape[i] < base,
        0 <= p < planes,
    ensures
        sides.is_inside(
            clip_through(polygon, sides, cuts, vertex_count, planes).shape[i],
            ClipPlane::at(p),
        ),
        polygon.contains(clip_through(polygon, sides, cuts, vertex_count, planes).shape[i]),
    decreases planes,
{
    let before = clip_through(polygon, sides, cuts, vertex_count, (planes - 1) as nat);
    let after = clip_through(polygon, sides, cuts, vertex_count, planes);
    let plane = ClipPlane::at(planes - 1);
    let inside = inside_flags(before.shape, sides, plane);
    let parallel = parallel_flags(before.shape, sides, plane);
    let vertex = after.shape[i];
    lemma_pass_count_grows(
        before.shape,
        inside,
        parallel,
        plane,
        before.cuts,
        before.vertex_count,
        before.shape.len(),
    );
    lemma_through_cuts_from(polygon, sides, cuts, vertex_count, (planes - 1) as nat, base);
    lemma_through_cuts_from(polygon, sides, cuts, vertex_count, planes, base);
    lemma_pass_emits_inside_or_cut(
        before.shape,
        inside,
        parallel,
        plane,
        before.cuts,
        before.vertex_count,
        before.shape.len(),
        i,
    );
    if is_cut_vertex(after.cuts, plane, vertex) {
        let key = choose|key: EdgeKey| #[trigger]
            after.cuts.contains_key(key) && key.plane == plane && after.cuts[key] == vertex;
        assert(after.cuts[key] >= base);
    }
    let k = choose|k: int|
        0 <= k < before.shape.len() && inside[k] && #[trigger] before.shape[k] == vertex;
    if planes == 1 {
        assert(before.shape == polygon);
        assert(polygon[k] == vertex);
    } else {
        lemma_clipped_vertices_are_inside(polygon, sides, cuts, vertex_count, base, (planes - 1) as nat, k, 0);
        if p < planes - 1 {
            lemma_clipped_vertices_are_inside(
                polygon,
                sides,
                cuts,
                vertex_count,
                base,
                (planes - 1) as nat,
                k,
                p,
            );
        }
    }
}

/// Edge `e` of the polygon crosses the plane and runs parallel to it.
pub open spec fn is_parallel_crossing(inside: Seq<bool>, parallel: Seq<bool>, e: int) -> bool {
    inside[e] != inside[(e + 1) % (inside.len() as int)] && parallel[e]
}

/// The vertex is one of the polygon's that lies inside the plane.
pub open spec fn is_inside_vertex(polygon: Seq<usize>, inside: Seq<bool>, vertex: usize) -> bool {
    exists|k: int| 0 <= k < polygon.len() && inside[k] && #[trigger] polygon[k] == vertex
}

/// The vertex cuts some edge at the plane.
pub open spec fn is_cut_vertex(cuts: Map<EdgeKey, usize>, plane: ClipPlane, vertex: usize) -> bool {
    exists|key: EdgeKey| #[trigger]
        cuts.contains_key(key) && key.plane == plane && cuts[key] == vertex
}

/// Where no crossing edge runs parallel to the plane, every vertex of the
/// clipped polygon is a vertex of the polygon that lies inside the plane,
/// or the vertex of a cut at this plane. No vertex outside the plane
/// survives a pass.
pub proof fn lemma_pass_emits_inside_or_cut(
    polygon: Seq<usize>,
    inside: Seq<bool>,
    parallel: Seq<bool>,
    plane: ClipPlane,
    cuts: Map<EdgeKey, usize>,
    vertex_count: nat,
    edges: nat,
    i: int,
)
    requires
        inside.len() == polygon.len(),
        parallel.len() == polygon.len(),
        edges <= polygon.len(),
        forall|e: int| 0 <= e < polygon.len() ==> !is_parallel_crossing(inside, parallel, e),
        0 <= i < clip_pass(polygon, inside, parallel, plane, cuts, vertex_count, edges).shape.len(),
    ensures
        ({
            let pass = clip_pass(polygon, inside, parallel, plane, cuts, vertex_count, edges);
            is_inside_vertex(polygon, inside, pass.shape[i]) || is_cut_vertex(
                pass.cuts,
                plane,
                pass.shape[i],
            )
        }),
    decreases edges,
{
    let pass = clip_pass(polygon, inside, parallel, plane, cuts, vertex_count, edges);
    if edges > 0 {
        let e = (edges - 1) as int;
        let n = polygon.len() as int;
        let next = (e + 1) % n;
        if e + 1 == n {
            lemma_mod_self_0(n);
        } else {
            lemma_small_mod((e + 1) as nat, n as nat);
        }
        let before = clip_pass(polygon, inside, parallel, plane, cuts, vertex_count, (edges - 1) as nat);
        assert(!is_parallel_crossing(inside, parallel, e));
        let key = edge_key(polygon[e], polygon[next], plane);
        if i < before.shape.len() {
            lemma_pass_emits_inside_or_cut(
                polygon,
                inside,
                parallel,
                plane,
                cuts,
                vertex_count,
                (edges - 1) as nat,
                i,
            );
            assert(pass.shape[i] == before.shape[i]);
            if is_cut_vertex(before.cuts, plane, before.shape[i]) {
                let found = choose|found: EdgeKey| #[trigger]
                    before.cuts.contains_key(found) && found.plane == plane && before.cuts[found]
                        == before.shape[i];
                assert(pass.cuts.contains_key(found) && pass.cuts[found] == pass.shape[i]);
            }
        } else if inside[e] == inside[next] {
            assert(polygon[next] == pass.shape[i]);
        } else if i == before.shape.len() {
            assert(pass.cuts.contains_key(key) && key.plane == plane && pass.cuts[key]
                == pass.shape[i]);
        } else {
            assert(polygon[next] == pass.shape[i]);
        }
    }
}

} // verus!
