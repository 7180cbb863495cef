//! Loading of triangle meshes from OBJ-style text: vertex and normal records,
//! polygonal faces fanned into triangles, and flat buffers ready for drawing.
pub mod laws;
pub mod loader;
pub mod mesh;
pub mod number;
pub mod text;

pub use loader::{parse_mesh, MAX_SOURCE_LEN};
pub use mesh::{Mesh, ParseError, ParseErrorKind, Point};
