pub mod image;
pub mod material;
pub mod renderer;
pub mod sampler;

pub use image::Image;
pub use material::Material;
pub use renderer::Renderer;
