//! The scene schema the relay serves its viewers.
//!
//! The relay treats the geometry payload as opaque beyond the identity and
//! mergeable-field shape of its update records, so only the item kind lives
//! here; the full scene description, with its floating-point vectors, stays
//! with the surrounding application.

use vstd::prelude::*;

verus! {

/// The kind of mesh a scene item renders as.
#[derive(Clone, Copy, Debug, PartialEq, Eq, Structural)]
pub enum MeshType {
    Cube,
    Sphere,
    Cylinder,
    Plane,
}

} // verus!
