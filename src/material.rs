//! Materials with no parameters.
use vstd::prelude::*;

verus! {

/// The ideal mirror: it reflects an incoming ray about the surface normal
/// with unit attenuation and a sampling density of one, and absorbs it when
/// the reflection would point into the surface. It carries no data; the
/// reflection itself is floating-point work done by the renderer.
#[derive(Clone, Copy, Debug, Default, PartialEq, Eq)]
pub struct Mirror;

} // verus!
