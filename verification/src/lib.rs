//! Codec and derived-geometry layer for a vehicle-combat game's assets.
//!
//! The crate decodes and encodes two binary formats — a five-layer terrain
//! heightmap and a model format bundling a body mesh, a low-poly collision
//! shape, wheel and debris meshes and physics metadata — and converts them
//! to and from interchange forms (an RGBA raster, a text mesh with a
//! sidecar record). All coordinates are fixed-point integers; container
//! file formats and rendering are left to the callers.

pub mod error;
pub mod geom;
pub mod tess;
pub mod model;
pub mod bytes;
pub mod codec;
pub mod terrain;
pub mod textmesh;
