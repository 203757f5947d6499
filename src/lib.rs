//! A halfedge polygon mesh: handle-indexed connectivity with face insertion,
//! typed per-element property columns, and traversals around vertices and
//! faces.
pub mod connectivity;
pub mod handle;
pub mod mesh;
pub mod mesh_iterator;
pub mod property;

pub use handle::Edge;
pub use handle::Face;
pub use handle::Halfedge;
pub use handle::Handle;
pub use handle::PropertyEdge;
pub use handle::PropertyFace;
pub use handle::PropertyHalfedge;
pub use handle::PropertyVertex;
pub use handle::Vertex;
pub use mesh::ElementKind;
pub use mesh::Mesh;
pub use mesh::Properties;
pub use mesh::Topology;
pub use property::PropertyContainer;
pub use property::PropertyValue;
pub use property::ResizableVec;
