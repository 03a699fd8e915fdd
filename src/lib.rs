//! Integer core of a Monte Carlo path tracer: the shrinking search bound that
//! gives closest-hit semantics, the recursion policy of the integrator, and the
//! encoding of finished pixels for display and for the plain-text image format.
pub mod bound;
pub mod image;
pub mod integrator;
pub mod material;

pub use bound::SearchBound;
pub use image::{encode_ppm, pack_rgb, Rgb};
pub use integrator::{next_step, Step, Surface, MAX_DEPTH};
pub use material::Mirror;
