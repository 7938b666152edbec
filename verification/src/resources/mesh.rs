//! The index-level shape of a triangle mesh.
use vstd::prelude::*;

verus! {

/// Why an index list is not a list of triangles over a vertex list.
#[derive(Clone, Copy, Debug, PartialEq, Eq, Structural)]
pub enum InvalidMesh {
    /// The number of indices is not a multiple of three.
    IndexCount {
        /// Number of indices given.
        len: usize,
    },
    /// An index names no vertex.
    IndexOutOfRange {
        /// Place of the first such index in the list.
        position: usize,
        /// The index found there.
        index: usize,
    },
}

/// Every index names one of `vertex_count` vertices.
pub open spec fn indices_in_range(triangles: Seq<usize>, vertex_count: nat) -> bool {
    forall|i: int| 0 <= i < triangles.len() ==> #[trigger] triangles[i] < vertex_count
}

/// The list holds three indices for each triangle, and every index names
/// one of `vertex_count` vertices.
pub open spec fn valid_triangles(triangles: Seq<usize>, vertex_count: nat) -> bool {
    triangles.len() % 3 == 0 && indices_in_range(triangles, vertex_count)
}

/// Checks an index list against the number of vertices. A list whose
/// length is no multiple of three is refused for that; otherwise the first
/// index out of range is reported.
pub fn check_triangles(triangles: &Vec<usize>, vertex_count: usize) -> (result: Result<
    (),
    InvalidMesh,
>)
    ensures
        result is Ok <==> valid_triangles(triangles@, vertex_count as nat),
        triangles@.len() % 3 != 0 ==> result == Err::<(), InvalidMesh>(
            InvalidMesh::IndexCount { len: triangles.len() },
        ),
        triangles@.len() % 3 == 0 && result is Err ==> {
            &&& result->Err_0 matches InvalidMesh::IndexOutOfRange { position, index }
            &&& position < triangles@.len()
            &&& index == triangles@[position as int]
            &&& index >= vertex_count
            &&& indices_in_range(triangles@.take(position as int), vertex_count as nat)
        },
{
    let len = triangles.len();
    if len % 3 != 0 {
        return Err(InvalidMesh::IndexCount { len });
    }
    let mut position: usize = 0;
    while position < len
        invariant
            position <= len,
            len == triangles@.len(),
            len % 3 == 0,
            indices_in_range(triangles@.take(position as int), vertex_count as nat),
        decreases len - position,
    {
        let index = triangles[position];
        if index >= vertex_count {
            return Err(InvalidMesh::IndexOutOfRange { position, index });
        }
        proof {
            let grown = triangles@.take(position + 1);
            assert forall|i: int| 0 <= i < grown.len() implies #[trigger] grown[i] < vertex_count by {
                if i < position {
                    assert(triangles@.take(position as int)[i] < vertex_count);
                }
            }
        }
        position += 1;
    }
    assert(triangles@.take(len as int) =~= triangles@);
    Ok(())
}

/// Mathematical content of a [`Mesh`].
pub struct MeshView {
    /// Id of the texture that the mesh is drawn with, if any.
    pub texture_id: Option<u32>,
    /// Number of vertices.
    pub vertex_count: nat,
    /// Three vertex indices for each triangle, counter-clockwise when seen
    /// from outside.
    pub triangles: Seq<usize>,
}

impl MeshView {
    /// The index list is a list of triangles over the vertices.
    pub open spec fn wf(self) -> bool {
        valid_triangles(self.triangles, self.vertex_count)
    }
}

/// A triangle mesh as the pipeline's index logic sees it: how many
/// vertices it has, which of them form triangles, and its texture.
#[derive(Clone)]
pub struct Mesh {
    texture_id: Option<u32>,
    vertex_count: usize,
    triangles: Vec<usize>,
}

impl View for Mesh {
    type V = MeshView;

    closed spec fn view(&self) -> MeshView {
        MeshView {
            texture_id: self.texture_id,
            vertex_count: self.vertex_count as nat,
            triangles: self.triangles@,
        }
    }
}

impl Mesh {
    /// The index list is a list of triangles over the vertices.
    pub open spec fn wf(&self) -> bool {
        self@.wf()
    }

    /// A mesh of `vertex_count` vertices with the given triangles, if they
    /// are triangles over those vertices.
    pub fn new(texture_id: Option<u32>, vertex_count: usize, triangles: Vec<usize>) -> (result:
        Result<Mesh, InvalidMesh>)
        ensures
            result is Ok <==> valid_triangles(triangles@, vertex_count as nat),
            result matches Ok(mesh) ==> mesh.wf() && mesh@ == (MeshView {
                texture_id,
                vertex_count: vertex_count as nat,
                triangles: triangles@,
            }),
            triangles@.len() % 3 != 0 ==> result is Err && result->Err_0
                == (InvalidMesh::IndexCount { len: triangles.len() }),
            triangles@.len() % 3 == 0 && result is Err ==> {
                &&& result->Err_0 matches InvalidMesh::IndexOutOfRange { position, index }
                &&& position < triangles@.len()
                &&& index == triangles@[position as int]
                &&& index >= vertex_count
                &&& indices_in_range(triangles@.take(position as int), vertex_count as nat)
            },
    {
        match check_triangles(&triangles, vertex_count) {
            Ok(()) => Ok(Mesh { texture_id, vertex_count, triangles }),
            Err(error) => Err(error),
        }
    }

    /// Changes the texture that the mesh is drawn with.
    pub fn set_texture(&mut self, texture_id: Option<u32>)
        ensures
            final(self)@ == (MeshView { texture_id, ..old(self)@ }),
    {
        self.texture_id = texture_id;
    }

    /// Id of the texture that the mesh is drawn with, if any.
    pub fn texture_id(&self) -> (texture_id: Option<u32>)
        ensures
            texture_id == self@.texture_id,
    {
        self.texture_id
    }

    /// Number of vertices.
    pub fn vertex_count(&self) -> (count: usize)
        ensures
            count == self@.vertex_count,
    {
        self.vertex_count
    }

    /// The vertex indices of the triangles, three each.
    pub fn triangles(&self) -> (triangles: &Vec<usize>)
        ensures
            triangles@ == self@.triangles,
    {
        &self.triangles
    }
}

} // verus!
