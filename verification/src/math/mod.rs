//! Numbers, vectors and the geometry of hits.
pub mod scalar;
pub mod shapes;
pub mod vec;

pub use self::scalar::Scalar;
pub use self::shapes::{Crossing, HitRecord, HittableList, Sphere};
pub use self::vec::Vec3;
