//! Triangle meshes from glyph outlines, in exact arithmetic.
//!
//! A glyph's outline arrives as drawing commands in whole font units. The
//! commands are flattened into closed polygon contours, the contours are
//! triangulated by an outside engine, and the triangulation is assembled into
//! a flat mesh or into a closed solid of unit depth.
//!
//! Every coordinate is a whole numerator over a denominator that the outline
//! or the mesh carries, so that a curve point lies exactly on its curve and
//! two runs on the same input agree in every bit. Whoever renders a mesh
//! divides once, at the end.
//!
//! - [`curve`]: points on Bezier curves, by de Casteljau's construction.
//! - [`outline`]: the outline and the builder that flattens drawing commands.
//! - [`triangulation`]: the check of an outline and the boundary edges that
//!   the triangulation engine is given.
//! - [`mesh`]: the flat mesh, the solid, and the silhouette between them.
//! - [`generator`]: the mesh of one glyph, from font and engine.
//! - [`font`]: what the library holds of a parsed font.
//! - [`outline_laws`], [`mesh_laws`]: what holds of every outline and of
//!   every solid.

pub mod curve;
pub mod error;
pub mod font;
pub mod generator;
pub mod geometry;
pub mod mesh;
pub mod mesh_laws;
pub mod outline;
pub mod outline_laws;
pub mod quality;
pub mod triangulation;

pub use crate::error::Error;
pub use crate::generator::Config;
pub use crate::generator::GlyphOutline;
pub use crate::generator::MeshGenerator;
pub use crate::geometry::BoundingBox;
pub use crate::geometry::Point;
pub use crate::geometry::Rect;
pub use crate::geometry::Vec3;
pub use crate::mesh::Edge;
pub use crate::mesh::Mesh;
pub use crate::mesh::Triangle;
pub use crate::outline::Command;
pub use crate::outline::FontPoint;
pub use crate::outline::Outline;
pub use crate::outline::OutlineBuilder;
pub use crate::quality::QualitySettings;
