//! Model thumbnail rendering: the decisions and the integer pixel work of a small CPU
//! thumbnail renderer, with contracts proved by Verus.
//!
//! - `options`: what a render is asked for and what it refuses;
//! - `scene`: triangles, materials and index lists as the loaders build them;
//! - `texture`: RGBA8 textures and the conversion of decoded glTF images;
//! - `raster`: pixel access, tinting and the framing of the drawn pixels;
//! - `format`: which loader reads a file, and the format of a streamed model;
//! - `provider`: the decisions of the Windows shell thumbnail provider.

pub mod format;
pub mod options;
pub mod provider;
pub mod raster;
pub mod scene;
pub mod texture;

pub use format::{guess_model_extension, model_format, ModelFormat};
pub use options::{render_thumbnail, RenderError, RenderJob, RenderOptions, RgbaBitmap};
pub use raster::{bitmap_pixel, modulate, store_pixel, visible_bounds, VisibleBounds};
pub use scene::{default_material_data, triangle_indices, MaterialData, Scene, Triangle};
pub use texture::{gltf_image_to_texture, texcoord_set, PixelFormat, Texture, WrapMode};
