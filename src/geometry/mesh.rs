//! Vertices, faces and the mesh they make up.
use vstd::prelude::*;

use crate::geometry::color::{opt_color, Color, ColorModel};
use crate::geometry::position::{Position, PositionModel};

verus! {

/// A vertex: a position and an optional color.
#[derive(Clone, Debug, PartialEq, Eq, Default)]
pub struct Vertex {
    pub position: Position,
    pub color: Option<Color>,
}

/// The model of a vertex.
pub type VertexModel = (PositionModel, Option<ColorModel>);

impl View for Vertex {
    type V = VertexModel;

    open spec fn view(&self) -> VertexModel {
        (self.position@, opt_color(self.color))
    }
}

impl Vertex {
    /// Creates a new vertex.
    pub fn new(position: Position, color: Option<Color>) -> (r: Vertex)
        ensures
            r@ == (position@, opt_color(color)),
    {
        Vertex { position, color }
    }
}

/// A face: the indices of its vertices, in order, and an optional color.
#[derive(Clone, Debug, PartialEq, Eq, Default)]
pub struct Face {
    pub vertices: Vec<usize>,
    pub color: Option<Color>,
}

/// The model of a face.
pub type FaceModel = (Seq<usize>, Option<ColorModel>);

impl View for Face {
    type V = FaceModel;

    open spec fn view(&self) -> FaceModel {
        (self.vertices@, opt_color(self.color))
    }
}

impl Face {
    /// Creates a new face.
    pub fn new(vertices: Vec<usize>, color: Option<Color>) -> (r: Face)
        ensures
            r@ == (vertices@, opt_color(color)),
    {
        Face { vertices, color }
    }
}

/// A mesh: its vertices and its faces, in order.
#[derive(Clone, Debug, PartialEq, Eq, Default)]
pub struct Mesh {
    pub vertices: Vec<Vertex>,
    pub faces: Vec<Face>,
}

/// The model of a mesh.
pub type MeshModel = (Seq<VertexModel>, Seq<FaceModel>);

impl View for Mesh {
    type V = MeshModel;

    open spec fn view(&self) -> MeshModel {
        (self.vertices@.map_values(|v: Vertex| v@), self.faces@.map_values(|f: Face| f@))
    }
}

/// The edge count of a list of faces: one less than its number of vertices
/// for each face.
pub open spec fn edge_total(faces: Seq<FaceModel>) -> int
    decreases faces.len(),
{
    if faces.len() == 0 {
        0
    } else {
        edge_total(faces.drop_last()) + faces.last().0.len() - 1
    }
}

impl Mesh {
    /// Creates a mesh with no vertices and no faces.
    pub fn new() -> (r: Mesh)
        ensures
            r@.0.len() == 0,
            r@.1.len() == 0,
    {
        Mesh { vertices: Vec::new(), faces: Vec::new() }
    }

    /// Returns the number of vertices in the mesh.
    pub fn vertex_count(&self) -> (r: usize)
        ensures
            r == self@.0.len(),
    {
        self.vertices.len()
    }

    /// Returns the number of faces in the mesh.
    pub fn face_count(&self) -> (r: usize)
        ensures
            r == self@.1.len(),
    {
        self.faces.len()
    }

    /// The number of edges, counted as one less than the number of vertices of
    /// each face.
    pub fn edge_count(&self) -> (r: usize)
        requires
            forall|k: int| 0 <= k < self.faces.len() ==> #[trigger] self.faces@[k].vertices.len() > 0,
            edge_total(self@.1) <= usize::MAX,
        ensures
            r == edge_total(self@.1),
    {
        let mut total: usize = 0;
        let mut i: usize = 0;
        while i < self.faces.len()
            invariant
                i <= self.faces.len(),
                forall|k: int|
                    0 <= k < self.faces.len() ==> #[trigger] self.faces@[k].vertices.len() > 0,
                edge_total(self@.1) <= usize::MAX,
                total == edge_total(self@.1.take(i as int)),
            decreases self.faces.len() - i,
        {
            let ghost faces = self@.1;
            assert(faces.take(i + 1).drop_last() == faces.take(i as int));
            assert forall|k: int| 0 <= k < faces.len() implies #[trigger] faces[k].0.len() > 0 by {
                assert(faces[k] == self.faces@[k]@);
                assert(self.faces@[k].vertices.len() > 0);
            }
            assert(faces.take(i + 1).last() == self.faces@[i as int]@);
            proof {
                lemma_edge_total_prefix(faces, i + 1);
            }
            total = total + (self.faces[i].vertices.len() - 1);
            i = i + 1;
        }
        assert(self@.1.take(i as int) == self@.1);
        total
    }
}

/// The edge count of a prefix is at most that of the whole list, when every
/// face has a vertex.
pub proof fn lemma_edge_total_prefix(faces: Seq<FaceModel>, j: int)
    requires
        0 <= j <= faces.len(),
        forall|k: int| 0 <= k < faces.len() ==> #[trigger] faces[k].0.len() > 0,
    ensures
        0 <= edge_total(faces.take(j)) <= edge_total(faces),
    decreases faces.len() - j,
{
    if j < faces.len() {
        lemma_edge_total_prefix(faces, j + 1);
        assert(faces.take(j + 1).drop_last() == faces.take(j));
        assert(faces.take(j + 1).last() == faces[j]);
        assert(faces[j].0.len() > 0);
        assert forall|k: int| 0 <= k < faces.take(j).len() implies #[trigger] faces.take(
            j,
        )[k].0.len() > 0 by {
            assert(faces.take(j)[k] == faces[k]);
        }
        lemma_edge_total_nonneg(faces.take(j));
    } else {
        assert(faces.take(j) == faces);
        lemma_edge_total_nonneg(faces);
    }
}

pub proof fn lemma_edge_total_nonneg(faces: Seq<FaceModel>)
    requires
        forall|k: int| 0 <= k < faces.len() ==> #[trigger] faces[k].0.len() > 0,
    ensures
        edge_total(faces) >= 0,
    decreases faces.len(),
{
    if faces.len() > 0 {
        assert(faces.drop_last().len() == faces.len() - 1);
        assert forall|k: int|
            0 <= k < faces.drop_last().len() implies #[trigger] faces.drop_last()[k].0.len() > 0 by {
            assert(faces.drop_last()[k] == faces[k]);
        }
        lemma_edge_total_nonneg(faces.drop_last());
        assert(faces[faces.len() - 1].0.len() > 0);
    }
}

} // verus!
