pub mod geometry;
pub mod interval;
pub mod rank;
pub mod vector;

pub use geometry::Crossing;
pub use geometry::HitInfo;
pub use geometry::Sphere;
pub use interval::Interval;
pub use rank::Rank;
