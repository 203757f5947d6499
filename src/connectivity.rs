//! Adjacency records of the vertices, halfedges and faces of a mesh.
use crate::handle::{Face, Halfedge, Handle, Vertex};
use vstd::prelude::*;

verus! {

/// Connectivity of a vertex: one of its outgoing halfedges, if it has any.
#[derive(Copy, Clone)]
pub struct VertexConnectivity {
    pub halfedge_: Option<Halfedge>,
}

/// Connectivity of a halfedge: its face (none on a boundary), the vertex it
/// points to, and its successor and predecessor in its loop.
#[derive(Copy, Clone)]
pub struct HalfedgeConnectivity {
    pub face_: Option<Face>,
    pub vertex_: Vertex,
    pub next_halfedge_: Halfedge,
    pub prev_halfedge_: Halfedge,
}

/// Connectivity of a face: one halfedge of its loop.
#[derive(Copy, Clone)]
pub struct FaceConnectivity {
    pub halfedge_: Halfedge,
}

impl VertexConnectivity {
    /// The connectivity of an isolated vertex.
    pub fn invalid() -> (r: VertexConnectivity)
        ensures
            r.halfedge_.is_none(),
    {
        VertexConnectivity { halfedge_: None }
    }
}

impl HalfedgeConnectivity {
    /// The connectivity of a halfedge that is not linked yet: no face, and
    /// every handle at index 0.
    pub fn invalid() -> (r: HalfedgeConnectivity)
        ensures
            r.face_.is_none(),
            r.vertex_.id() == 0,
            r.next_halfedge_.id() == 0,
            r.prev_halfedge_.id() == 0,
    {
        HalfedgeConnectivity {
            face_: None,
            vertex_: Handle::new(0),
            next_halfedge_: Handle::new(0),
            prev_halfedge_: Handle::new(0),
        }
    }
}

impl FaceConnectivity {
    /// The connectivity of a face whose halfedge is not set yet (index 0).
    pub fn invalid() -> (r: FaceConnectivity)
        ensures
            r.halfedge_.id() == 0,
    {
        FaceConnectivity { halfedge_: Handle::new(0) }
    }

    /// The connectivity of a face whose loop holds `h`.
    pub fn new(h: Halfedge) -> (r: FaceConnectivity)
        ensures
            r.halfedge_ == h,
    {
        FaceConnectivity { halfedge_: h }
    }
}

} // verus!
