//! The working copy of a mesh for one draw call, at the level of indices:
//! its triangles, the culling of those that face away, and the run that
//! clips them against the view frustum.
use crate::pipeline::clip::{
    clip_pass, clip_through, fan, inside_flags, lemma_clipped_vertices_are_inside,
    lemma_inside_triangle_unchanged, parallel_flags, ClipPlane, Clipper, ClipperView, EdgeCut,
    Sides,
};
use crate::resources::mesh::{check_triangles, indices_in_range, valid_triangles, InvalidMesh, Mesh};
use vstd::prelude::*;

verus! {

/// Mathematical content of a [`Geometry`].
pub struct GeometryView {
    /// Id of the texture that the geometry is drawn with, if any.
    pub texture_id: Option<u32>,
    /// Number of vertices, those that clipping added included.
    pub vertex_count: nat,
    /// Three vertex indices for each triangle.
    pub triangles: Seq<usize>,
}

impl GeometryView {
    /// The index list is a list of triangles over the vertices.
    pub open spec fn wf(self) -> bool {
        valid_triangles(self.triangles, self.vertex_count)
    }

    /// The three indices of triangle `k`.
    pub open spec fn triangle(self, k: int) -> Seq<usize> {
        self.triangles.subrange(3 * k, 3 * k + 3)
    }

    /// The run that clips this geometry, before its first answer: at the
    /// first plane of the first triangle, with no cut made and no triangle
    /// emitted.
    pub open spec fn clip_start(self) -> ClipRunView {
        ClipRunView {
            texture_id: self.texture_id,
            source: self.triangles,
            triangle: 0,
            plane: 0,
            polygon: if self.triangles.len() >= 3 {
                self.triangle(0)
            } else {
                Seq::empty()
            },
            clipper: ClipperView {
                base: self.vertex_count,
                vertex_count: self.vertex_count,
                cuts: Map::empty(),
                triangles: Seq::empty(),
            },
        }
    }
}

/// Mathematical content of a [`ClipRun`].
pub struct ClipRunView {
    /// Id of the texture of the geometry that is clipped.
    pub texture_id: Option<u32>,
    /// The triangles that are clipped, three indices each.
    pub source: Seq<usize>,
    /// Number of triangles that are done.
    pub triangle: nat,
    /// Number of planes that the current triangle has been clipped
    /// against.
    pub plane: nat,
    /// What is left of the current triangle.
    pub polygon: Seq<usize>,
    /// The vertices counted, the cuts made and the triangles emitted so
    /// far.
    pub clipper: ClipperView,
}

impl ClipRunView {
    /// Number of triangles to clip.
    pub open spec fn count(self) -> nat {
        self.source.len() / 3
    }

    /// Every triangle is done.
    pub open spec fn finished(self) -> bool {
        self.triangle >= self.count()
    }

    /// The three indices of triangle `k` of the source.
    pub open spec fn source_triangle(self, k: int) -> Seq<usize> {
        self.source.subrange(3 * k, 3 * k + 3)
    }

    /// The run is at a plane of a triangle of its source, or finished, and
    /// names only vertices that exist.
    pub open spec fn wf(self) -> bool {
        &&& self.clipper.wf()
        &&& valid_triangles(self.source, self.clipper.base)
        &&& self.triangle <= self.count()
        &&& self.plane < 6
        &&& self.clipper.holds(self.polygon)
        &&& self.finished() ==> self.plane == 0 && self.polygon.len() == 0
    }

    /// The run after one answer: the polygon has gone through a pass
    /// against the current plane. After the sixth plane the polygon is
    /// emitted as a fan, and the run goes on to the next triangle.
    pub open spec fn step(self, inside: Seq<bool>, parallel: Seq<bool>) -> ClipRunView {
        let pass = clip_pass(
            self.polygon,
            inside,
            parallel,
            ClipPlane::at(self.plane as int),
            self.clipper.cuts,
            self.clipper.vertex_count,
            self.polygon.len(),
        );
        let clipper = ClipperView {
            cuts: pass.cuts,
            vertex_count: pass.vertex_count,
            ..self.clipper
        };
        if self.plane < 5 {
            ClipRunView { plane: (self.plane + 1) as nat, polygon: pass.shape, clipper, ..self }
        } else {
            ClipRunView {
                triangle: (self.triangle + 1) as nat,
                plane: 0,
                polygon: if self.triangle + 1 < self.count() {
                    self.source_triangle((self.triangle + 1) as int)
                } else {
                    Seq::empty()
                },
                clipper: ClipperView {
                    triangles: self.clipper.triangles + fan(pass.shape),
                    ..clipper
                },
                ..self
            }
        }
    }

    /// The vertices that an answer adds.
    pub open spec fn fresh(self, inside: Seq<bool>, parallel: Seq<bool>) -> Seq<EdgeCut> {
        clip_pass(
            self.polygon,
            inside,
            parallel,
            ClipPlane::at(self.plane as int),
            self.clipper.cuts,
            self.clipper.vertex_count,
            self.polygon.len(),
        ).fresh
    }

    /// The run after `steps` answers that say what `sides` says.
    pub open spec fn answered(self, sides: Sides, steps: nat) -> ClipRunView
        decreases steps,
    {
        if steps == 0 {
            self
        } else {
            let before = self.answered(sides, (steps - 1) as nat);
            let plane = ClipPlane::at(before.plane as int);
            before.step(
                inside_flags(before.polygon, sides, plane),
                parallel_flags(before.polygon, sides, plane),
            )
        }
    }
}

/// The triangles among the first `count` that are kept when only those
/// stay whose flag in `facing` is set.
pub open spec fn kept_triangles(triangles: Seq<usize>, facing: Seq<bool>, count: nat) -> Seq<usize>
    decreases count,
{
    if count == 0 {
        Seq::empty()
    } else {
        let k = (count - 1) as int;
        let rest = kept_triangles(triangles, facing, (count - 1) as nat);
        if facing[k] {
            rest + triangles.subrange(3 * k, 3 * k + 3)
        } else {
            rest
        }
    }
}

/// Number of flags set among the first `count`.
pub open spec fn facing_before(facing: Seq<bool>, count: nat) -> nat
    decreases count,
{
    if count == 0 {
        0
    } else {
        facing_before(facing, (count - 1) as nat) + if facing[count - 1] {
            1nat
        } else {
            0nat
        }
    }
}

/// Staging of one draw call: the number of vertices, the triangles over
/// them, and the texture. The vertices themselves stay with the caller,
/// in the same order.
#[derive(Clone)]
pub struct Geometry {
    texture_id: Option<u32>,
    vertex_count: usize,
    triangles: Vec<usize>,
}

impl View for Geometry {
    type V = GeometryView;

    closed spec fn view(&self) -> GeometryView {
        GeometryView {
            texture_id: self.texture_id,
            vertex_count: self.vertex_count as nat,
            triangles: self.triangles@,
        }
    }
}

impl Geometry {
    /// The index list is a list of triangles over the vertices.
    pub open spec fn wf(&self) -> bool {
        self@.wf()
    }

    /// A geometry of `vertex_count` vertices over a copy of the given
    /// triangles, if they are triangles over those vertices.
    pub fn new(vertex_count: usize, triangles: &Vec<usize>, texture_id: Option<u32>) -> (result:
        Result<Geometry, InvalidMesh>)
        ensures
            result is Ok <==> valid_triangles(triangles@, vertex_count as nat),
            result matches Ok(geometry) ==> geometry.wf() && geometry@ == (GeometryView {
                texture_id,
                vertex_count: vertex_count as nat,
                triangles: triangles@,
            }),
            triangles@.len() % 3 != 0 ==> result is Err && result->Err_0
                == (InvalidMesh::IndexCount { len: triangles.len() }),
            triangles@.len() % 3 == 0 && result is Err ==> {
                &&& result->Err_0 matches InvalidMesh::IndexOutOfRange { position, index }
                &&& position < triangles@.len()
                &&& index == triangles@[position as int]
                &&& index >= vertex_count
                &&& indices_in_range(triangles@.take(position as int), vertex_count as nat)
            },
    {
        match check_triangles(triangles, vertex_count) {
            Ok(()) => Ok(Geometry { texture_id, vertex_count, triangles: triangles.clone() }),
            Err(error) => Err(error),
        }
    }

    /// The geometry of a mesh: the same vertices, triangles and texture.
    pub fn from_mesh(mesh: &Mesh) -> (geometry: Geometry)
        requires
            mesh.wf(),
        ensures
            geometry.wf(),
            geometry@.texture_id == mesh@.texture_id,
            geometry@.vertex_count == mesh@.vertex_count,
            geometry@.triangles == mesh@.triangles,
    {
        Geometry {
            texture_id: mesh.texture_id(),
            vertex_count: mesh.vertex_count(),
            triangles: mesh.triangles().clone(),
        }
    }

    /// Drops every triangle that does not face the camera. `facing[k]`
    /// says whether triangle `k` does; the triangles that stay keep their
    /// order.
    pub fn cull_backface(&mut self, facing: &Vec<bool>)
        requires
            old(self).wf(),
            3 * facing@.len() == old(self)@.triangles.len(),
        ensures
            final(self).wf(),
            final(self)@.texture_id == old(self)@.texture_id,
            final(self)@.vertex_count == old(self)@.vertex_count,
            final(self)@.triangles == kept_triangles(
                old(self)@.triangles,
                facing@,
                facing@.len() as nat,
            ),
    {
        let count = facing.len();
        let mut triangles: Vec<usize> = Vec::with_capacity(self.triangles.len());
        let mut k: usize = 0;
        while k < count
            invariant
                k <= count,
                count == facing@.len(),
                3 * count == self.triangles@.len(),
                self.triangles@.len() <= usize::MAX,
                self == old(self),
                self.wf(),
                triangles@ == kept_triangles(self.triangles@, facing@, k as nat),
                triangles@.len() % 3 == 0,
                indices_in_range(triangles@, self.vertex_count as nat),
            decreases count - k,
        {
            if facing[k] {
                let start = 3 * k;
                let ghost earlier = triangles@;
                triangles.push(self.triangles[start]);
                triangles.push(self.triangles[start + 1]);
                triangles.push(self.triangles[start + 2]);
                assert(triangles@ =~= earlier + self.triangles@.subrange(3 * k, 3 * k + 3));
            }
            k += 1;
        }
        self.triangles = triangles;
    }

    /// Starts clipping the geometry against the view frustum. The run
    /// that comes back asks for each triangle and plane in turn where the
    /// vertices lie, and ends with the clipped geometry.
    pub fn clip_geometry(&self) -> (run: ClipRun)
        requires
            self.wf(),
        ensures
            run.wf(),
            run@ == self@.clip_start(),
    {
        let source = self.triangles.clone();
        let count = source.len() / 3;
        let mut polygon: Vec<usize> = Vec::with_capacity(3);
        if count > 0 {
            polygon.push(source[0]);
            polygon.push(source[1]);
            polygon.push(source[2]);
        }
        let run = ClipRun {
            texture_id: self.texture_id,
            source,
            triangle: 0,
            plane: 0,
            polygon,
            clipper: Clipper::new(self.vertex_count),
        };
        assert(run@.polygon =~= self@.clip_start().polygon);
        run
    }

    /// Number of triangles.
    pub fn triangle_count(&self) -> (count: usize)
        ensures
            count == self@.triangles.len() / 3,
    {
        self.triangles.len() / 3
    }

    /// Number of vertices, those that clipping added included.
    pub fn vertex_count(&self) -> (count: usize)
        ensures
            count == self@.vertex_count,
    {
        self.vertex_count
    }

    /// The vertex indices of the triangles, three each.
    pub fn triangles(&self) -> (triangles: &[usize])
        ensures
            triangles@ == self@.triangles,
    {
        self.triangles.as_slice()
    }

    /// Id of the texture that the geometry is drawn with, if any.
    pub fn texture_id(&self) -> (texture_id: Option<u32>)
        ensures
            texture_id == self@.texture_id,
    {
        self.texture_id
    }
}

/// A clipping run over a geometry. It takes the triangles one by one
/// through the six planes; for each pass the caller answers where the
/// vertices of the current polygon lie, and places the vertices that the
/// pass adds.
pub struct ClipRun {
    texture_id: Option<u32>,
    source: Vec<usize>,
    triangle: usize,
    plane: usize,
    polygon: Vec<usize>,
    clipper: Clipper,
}

impl View for ClipRun {
    type V = ClipRunView;

    closed spec fn view(&self) -> ClipRunView {
        ClipRunView {
            texture_id: self.texture_id,
            source: self.source@,
            triangle: self.triangle as nat,
            plane: self.plane as nat,
            polygon: self.polygon@,
            clipper: self.clipper@,
        }
    }
}

impl ClipRun {
    /// The clipper of the run is ready.
    pub closed spec fn ready(&self) -> bool {
        self.clipper.ready()
    }

    /// The run is ready, at a plane of a triangle of its source or
    /// finished, and names only vertices that exist.
    pub open spec fn wf(&self) -> bool {
        self.ready() && self@.wf()
    }

    /// The plane that the current polygon is to be clipped against next;
    /// `None` when every triangle is done.
    pub fn pending(&self) -> (plane: Option<ClipPlane>)
        requires
            self.wf(),
        ensures
            plane is None <==> self@.finished(),
            plane matches Some(next) ==> next == ClipPlane::at(self@.plane as int),
    {
        if self.triangle >= self.source.len() / 3 {
            None
        } else {
            Some(ClipPlane::from_ordinal(self.plane))
        }
    }

    /// What is left of the current triangle: the polygon that the next
    /// answer is about.
    pub fn polygon(&self) -> (polygon: &Vec<usize>)
        ensures
            polygon@ == self@.polygon,
    {
        &self.polygon
    }

    /// Number of vertices, those added by cuts included.
    pub fn vertex_count(&self) -> (count: usize)
        ensures
            count == self@.clipper.vertex_count,
    {
        self.clipper.vertex_count()
    }

    /// Clips the current polygon against the pending plane.
    ///
    /// `inside[i]` says whether vertex `i` of the polygon lies inside the
    /// plane; `parallel[i]` says whether the edge from vertex `i` to the
    /// next runs parallel to the plane, and is read only where that edge
    /// crosses it. Returns the vertices that were added, which the caller
    /// has to place: each on its edge, where the edge meets the plane, in
    /// the order given.
    pub fn answer(&mut self, inside: &Vec<bool>, parallel: &Vec<bool>) -> (cuts: Vec<EdgeCut>)
        requires
            old(self).wf(),
            !old(self)@.finished(),
            inside@.len() == old(self)@.polygon.len(),
            parallel@.len() == old(self)@.polygon.len(),
            old(self)@.clipper.vertex_count + old(self)@.polygon.len() <= usize::MAX,
        ensures
            final(self).wf(),
            final(self)@ == old(self)@.step(inside@, parallel@),
            cuts@ == old(self)@.fresh(inside@, parallel@),
    {
        let plane = ClipPlane::from_ordinal(self.plane);
        let (shape, cuts) = self.clipper.clip_polygon(plane, &self.polygon, inside, parallel);
        if self.plane < 5 {
            self.plane = self.plane + 1;
            self.polygon = shape;
        } else {
            self.clipper.emit_fan(&shape);
            let count = self.source.len() / 3;
            self.triangle = self.triangle + 1;
            self.plane = 0;
            let mut polygon: Vec<usize> = Vec::with_capacity(3);
            if self.triangle < count {
                let start = 3 * self.triangle;
                polygon.push(self.source[start]);
                polygon.push(self.source[start + 1]);
                polygon.push(self.source[start + 2]);
                assert(polygon@ =~= old(self)@.source_triangle((old(self)@.triangle + 1) as int));
            }
            self.polygon = polygon;
        }
        cuts
    }

    /// Ends the run: the geometry with the clipped triangles and the
    /// vertices counted, those added by cuts included.
    pub fn finish(self) -> (geometry: Geometry)
        requires
            self.wf(),
            self@.finished(),
        ensures
            geometry.wf(),
            geometry@.texture_id == self@.texture_id,
            geometry@.vertex_count == self@.clipper.vertex_count,
            geometry@.triangles == self@.clipper.triangles,
    {
        let vertex_count = self.clipper.vertex_count();
        Geometry {
            texture_id: self.texture_id,
            vertex_count,
            triangles: self.clipper.into_triangles(),
        }
    }
}

/// Six answers take a triangle through the six planes: when they say
/// what `sides` says, the run emits the fan over what clipping the
/// triangle against all six planes leaves, has made the cuts and counted
/// the vertices of that clipping, and is at the first plane of the next
/// triangle.
pub proof fn lemma_six_answers_clip_a_triangle(run: ClipRunView, sides: Sides)
    requires
        run.wf(),
        !run.finished(),
        run.plane == 0,
    ensures
        ({
            let through = clip_through(
                run.polygon,
                sides,
                run.clipper.cuts,
                run.clipper.vertex_count,
                6,
            );
            let end = run.answered(sides, 6);
            &&& end.triangle == run.triangle + 1
            &&& end.plane == 0
            &&& end.polygon == (if run.triangle + 1 < run.count() {
                run.source_triangle((run.triangle + 1) as int)
            } else {
                Seq::empty()
            })
            &&& end.source == run.source
            &&& end.texture_id == run.texture_id
            &&& end.clipper.base == run.clipper.base
            &&& end.clipper.triangles == run.clipper.triangles + fan(through.shape)
            &&& end.clipper.cuts == through.cuts
            &&& end.clipper.vertex_count == through.vertex_count
        }),
{
    lemma_answers_follow_the_planes(run, sides, 5);
    let before = run.answered(sides, 5);
    assert(run.answered(sides, 6) == before.step(
        inside_flags(before.polygon, sides, ClipPlane::at(5)),
        parallel_flags(before.polygon, sides, ClipPlane::at(5)),
    ));
}

/// The first answers about a triangle take its polygon through the first
/// planes.
proof fn lemma_answers_follow_the_planes(run: ClipRunView, sides: Sides, steps: nat)
    requires
        run.plane == 0,
        steps <= 5,
    ensures
        ({
            let through = clip_through(
                run.polygon,
                sides,
                run.clipper.cuts,
                run.clipper.vertex_count,
                steps,
            );
            run.answered(sides, steps) == (ClipRunView {
                plane: steps,
                polygon: through.shape,
                clipper: ClipperView {
                    cuts: through.cuts,
                    vertex_count: through.vertex_count,
                    ..run.clipper
                },
                ..run
            })
        }),
    decreases steps,
{
    if steps > 0 {
        lemma_answers_follow_the_planes(run, sides, (steps - 1) as nat);
    }
}

/// Clipping what needs no clipping changes nothing: where the three
/// vertices of the current triangle lie inside all six planes, the six
/// answers about it emit that triangle as it is, make no cut and add no
/// vertex.
pub proof fn lemma_run_keeps_inside_triangle(run: ClipRunView, sides: Sides)
    requires
        run.wf(),
        !run.finished(),
        run.plane == 0,
        run.polygon.len() == 3,
        forall|i: int, plane: ClipPlane|
            0 <= i < 3 ==> #[trigger] sides.is_inside(run.polygon[i], plane),
    ensures
        run.answered(sides, 6) == (ClipRunView {
            triangle: run.triangle + 1,
            polygon: if run.triangle + 1 < run.count() {
                run.source_triangle((run.triangle + 1) as int)
            } else {
                Seq::empty()
            },
            clipper: ClipperView {
                triangles: run.clipper.triangles + run.polygon,
                ..run.clipper
            },
            ..run
        }),
{
    let a = run.polygon[0];
    let b = run.polygon[1];
    let c = run.polygon[2];
    assert(run.polygon =~= seq![a, b, c]);
    lemma_inside_triangle_unchanged(a, b, c, sides, run.clipper.cuts, run.clipper.vertex_count);
    lemma_six_answers_clip_a_triangle(run, sides);
}

/// The triangles that a run emits for a triangle hold no vertex that lies
/// outside a plane: where no edge runs parallel to a plane, every index of
/// the fan that six answers emit names either a vertex that a cut added,
/// or a vertex of the triangle that lies inside all six planes.
pub proof fn lemma_run_emits_inside_or_cut(run: ClipRunView, sides: Sides, i: int, p: int)
    requires
        run.wf(),
        !run.finished(),
        run.plane == 0,
        forall|a: usize, b: usize, plane: ClipPlane| !#[trigger] sides.is_parallel(a, b, plane),
        clip_through(
            run.polygon,
            sides,
            run.clipper.cuts,
            run.clipper.vertex_count,
            6,
        ).vertex_count <= usize::MAX,
        0 <= i < run.answered(sides, 6).clipper.triangles.len() - run.clipper.triangles.len(),
        0 <= p < 6,
    ensures
        ({
            let vertex = run.answered(sides, 6).clipper.triangles[run.clipper.triangles.len() + i];
            vertex >= run.clipper.base || (run.polygon.contains(vertex) && sides.is_inside(
                vertex,
                ClipPlane::at(p),
            ))
        }),
{
    let through = clip_through(run.polygon, sides, run.clipper.cuts, run.clipper.vertex_count, 6);
    lemma_six_answers_clip_a_triangle(run, sides);
    let emitted = fan(through.shape);
    let vertex = emitted[i];
    assert(run.answered(sides, 6).clipper.triangles[run.clipper.triangles.len() + i] == vertex);
    let at = if i % 3 == 0 {
        0
    } else if i % 3 == 1 {
        i / 3 + 1
    } else {
        i / 3 + 2
    };
    assert(through.shape[at] == vertex);
    if vertex < run.clipper.base {
        lemma_clipped_vertices_are_inside(
            run.polygon,
            sides,
            run.clipper.cuts,
            run.clipper.vertex_count,
            run.clipper.base,
            6,
            at,
            p,
        );
    }
}

/// Answers given one after the other add up.
proof fn lemma_answers_add_up(run: ClipRunView, sides: Sides, first: nat, then: nat)
    ensures
        run.answered(sides, first + then) == run.answered(sides, first).answered(sides, then),
    decreases then,
{
    if then > 0 {
        lemma_answers_add_up(run, sides, first, (then - 1) as nat);
        assert((first + then - 1) as nat == first + (then - 1) as nat);
    }
}

/// The run over a geometry that lies inside the frustum, after the
/// answers about its first `done` triangles.
proof fn lemma_inside_run_so_far(geometry: GeometryView, sides: Sides, done: nat)
    requires
        geometry.wf(),
        geometry.vertex_count <= usize::MAX,
        forall|i: int, plane: ClipPlane|
            0 <= i < geometry.triangles.len() ==> #[trigger] sides.is_inside(
                geometry.triangles[i],
                plane,
            ),
        3 * done <= geometry.triangles.len(),
    ensures
        geometry.clip_start().answered(sides, 6 * done) == (ClipRunView {
            triangle: done,
            polygon: if 3 * done + 3 <= geometry.triangles.len() {
                geometry.triangle(done as int)
            } else {
                Seq::empty()
            },
            clipper: ClipperView {
                triangles: geometry.triangles.take(3 * (done as int)),
                ..geometry.clip_start().clipper
            },
            ..geometry.clip_start()
        }),
    decreases done,
{
    let start = geometry.clip_start();
    if done == 0 {
        assert(geometry.triangles.take(0) =~= Seq::<usize>::empty());
    } else {
        let last = (done - 1) as nat;
        lemma_inside_run_so_far(geometry, sides, last);
        let before = start.answered(sides, 6 * last);
        assert(before.polygon == geometry.triangle(last as int));
        assert(before.wf()) by {
            assert forall|i: int| 0 <= i < before.clipper.triangles.len() implies #[trigger]
            before.clipper.triangles[i] < before.clipper.vertex_count by {
                assert(before.clipper.triangles[i] == geometry.triangles[i]);
            }
            assert forall|i: int| 0 <= i < before.polygon.len() implies #[trigger] before.polygon[i]
                < before.clipper.vertex_count by {
                assert(before.polygon[i] == geometry.triangles[3 * last + i]);
            }
        }
        assert forall|i: int, plane: ClipPlane| 0 <= i < 3 implies #[trigger] sides.is_inside(
            before.polygon[i],
            plane,
        ) by {
            assert(before.polygon[i] == geometry.triangles[3 * last + i]);
        }
        lemma_run_keeps_inside_triangle(before, sides);
        lemma_answers_add_up(start, sides, 6 * last, 6);
        assert(geometry.triangles.take(3 * (last as int)) + geometry.triangle(last as int)
            =~= geometry.triangles.take(3 * (done as int)));
    }
}

/// Clipping is idempotent: a geometry whose vertices all lie inside all
/// six planes, as those of a clipped geometry do, comes out of the run
/// with the triangles it went in with, and with no vertex more.
pub proof fn lemma_clipping_keeps_inside_geometry(geometry: GeometryView, sides: Sides)
    requires
        geometry.wf(),
        geometry.vertex_count <= usize::MAX,
        forall|i: int, plane: ClipPlane|
            0 <= i < geometry.triangles.len() ==> #[trigger] sides.is_inside(
                geometry.triangles[i],
                plane,
            ),
    ensures
        ({
            let end = geometry.clip_start().answered(sides, 2 * geometry.triangles.len());
            &&& end.finished()
            &&& end.clipper.triangles == geometry.triangles
            &&& end.clipper.vertex_count == geometry.vertex_count
            &&& end.texture_id == geometry.texture_id
        }),
{
    let count = geometry.triangles.len() / 3;
    lemma_inside_run_so_far(geometry, sides, count);
    assert(geometry.triangles.take(3 * (count as int)) =~= geometry.triangles);
}

/// Culling keeps three indices for each triangle that faces the camera.
pub proof fn lemma_kept_length(triangles: Seq<usize>, facing: Seq<bool>, count: nat)
    requires
        count <= facing.len(),
        3 * count <= triangles.len(),
    ensures
        kept_triangles(triangles, facing, count).len() == 3 * facing_before(facing, count),
    decreases count,
{
    if count > 0 {
        lemma_kept_length(triangles, facing, (count - 1) as nat);
    }
}

/// Culling never removes a triangle that faces the camera: triangle `k`,
/// if its flag is set, stands among the kept triangles, after the facing
/// triangles that came before it.
pub proof fn lemma_cull_keeps_facing(triangles: Seq<usize>, facing: Seq<bool>, count: nat, k: int)
    requires
        count <= facing.len(),
        3 * count <= triangles.len(),
        0 <= k < count,
        facing[k],
    ensures
        3 * facing_before(facing, k as nat) + 3 <= kept_triangles(triangles, facing, count).len(),
        kept_triangles(triangles, facing, count).subrange(
            3 * (facing_before(facing, k as nat) as int),
            3 * (facing_before(facing, k as nat) as int) + 3,
        ) == triangles.subrange(3 * k, 3 * k + 3),
    decreases count,
{
    let at: int = 3 * (facing_before(facing, k as nat) as int);
    let last: int = count - 1;
    let rest = kept_triangles(triangles, facing, last as nat);
    lemma_kept_length(triangles, facing, last as nat);
    if k == last {
        assert((rest + triangles.subrange(3 * k, 3 * k + 3)).subrange(at, at + 3)
            =~= triangles.subrange(3 * k, 3 * k + 3));
    } else {
        lemma_cull_keeps_facing(triangles, facing, last as nat, k);
        if facing[last] {
            assert((rest + triangles.subrange(3 * last, 3 * last + 3)).subrange(at, at + 3)
                =~= rest.subrange(at, at + 3));
        }
    }
}

/// Culling keeps nothing else: every kept triangle is one of the given
/// triangles whose flag is set.
pub proof fn lemma_cull_keeps_only_facing(
    triangles: Seq<usize>,
    facing: Seq<bool>,
    count: nat,
    j: int,
)
    requires
        count <= facing.len(),
        3 * count <= triangles.len(),
        0 <= j,
        3 * j + 3 <= kept_triangles(triangles, facing, count).len(),
    ensures
        exists|k: int|
            0 <= k < count && facing[k] && #[trigger] triangles.subrange(3 * k, 3 * k + 3)
                == kept_triangles(triangles, facing, count).subrange(3 * j, 3 * j + 3),
    decreases count,
{
    if count > 0 {
        let last: int = count - 1;
        let rest = kept_triangles(triangles, facing, last as nat);
        let kept = kept_triangles(triangles, facing, count);
        lemma_kept_length(triangles, facing, last as nat);
        if 3 * j + 3 <= rest.len() {
            lemma_cull_keeps_only_facing(triangles, facing, last as nat, j);
            let k = choose|k: int|
                0 <= k < last && facing[k] && #[trigger] triangles.subrange(3 * k, 3 * k + 3)
                    == rest.subrange(3 * j, 3 * j + 3);
            assert(kept.subrange(3 * j, 3 * j + 3) =~= rest.subrange(3 * j, 3 * j + 3));
            assert(triangles.subrange(3 * k, 3 * k + 3) == kept.subrange(3 * j, 3 * j + 3));
        } else {
            assert(facing[last]);
            assert(kept.subrange(3 * j, 3 * j + 3) =~= triangles.subrange(3 * last, 3 * last + 3));
        }
    }
}

} // verus!
