use vstd::prelude::*;

use crate::scene::Scene;

verus! {

/// Side of the square thumbnail when the caller does not choose one.
pub const DEFAULT_SIZE: u32 = 256;

/// Triangle budget when the caller does not choose one.
pub const DEFAULT_MAX_TRIANGLES: usize = 120_000;

/// The smallest side a thumbnail is rendered at.
pub const MIN_RENDER_SIZE: u32 = 32;

/// The largest side a thumbnail is rendered at.
pub const MAX_RENDER_SIZE: u32 = 1024;

/// How a thumbnail is rendered.
#[derive(Clone, Debug)]
pub struct RenderOptions {
    /// Requested side of the square thumbnail, in pixels.
    pub size: u32,
    /// Triangles beyond this many are dropped before rendering.
    pub max_triangles: usize,
}

impl Default for RenderOptions {
    fn default() -> (options: Self)
        ensures
            options.size == DEFAULT_SIZE,
            options.max_triangles == DEFAULT_MAX_TRIANGLES,
    {
        RenderOptions { size: DEFAULT_SIZE, max_triangles: DEFAULT_MAX_TRIANGLES }
    }
}

/// Why no thumbnail came out.
#[derive(Clone, Debug)]
pub enum RenderError {
    /// The file's extension names no format that a loader reads.
    UnsupportedFormat,
    /// The model loaded but holds no triangle.
    EmptyModel,
    /// The loader failed; the text says why.
    Load(String),
}

/// A square RGBA8 image, row by row from the top.
pub struct RgbaBitmap {
    pub width: u32,
    pub height: u32,
    pub pixels: Vec<u8>,
}

/// The side a thumbnail is rendered at for a requested side: the request held
/// between `MIN_RENDER_SIZE` and `MAX_RENDER_SIZE`.
pub open spec fn render_size(requested: u32) -> u32 {
    if requested < MIN_RENDER_SIZE {
        MIN_RENDER_SIZE
    } else if requested > MAX_RENDER_SIZE {
        MAX_RENDER_SIZE
    } else {
        requested
    }
}

/// How many of `n` loaded triangles are drawn under a budget of `max`.
pub open spec fn kept_triangles(n: nat, max: usize) -> nat {
    if n <= max { n } else { max as nat }
}

/// What the rasterizer is handed: the triangles to draw and the side of the image.
pub struct RenderJob<V> {
    pub scene: Scene<V>,
    pub size: u32,
}

/// Decides what is rendered for a loaded scene: an empty scene is refused, the
/// triangles beyond the budget are dropped (the first ones are kept, in order),
/// and the requested side is held between the smallest and the largest side.
pub fn render_thumbnail<V>(scene: Scene<V>, options: &RenderOptions) -> (res: Result<
    RenderJob<V>,
    RenderError,
>)
    ensures
        res is Err <==> scene.triangles@.len() == 0,
        res matches Err(e) ==> e is EmptyModel,
        res matches Ok(job) ==> {
            &&& job.scene.triangles@ == scene.triangles@.take(
                kept_triangles(scene.triangles@.len(), options.max_triangles) as int,
            )
            &&& job.size == render_size(options.size)
        },
{
    let mut scene = scene;
    if scene.triangles.len() == 0 {
        return Err(RenderError::EmptyModel);
    }
    if scene.triangles.len() > options.max_triangles {
        scene.triangles.truncate(options.max_triangles);
    }
    let size = if options.size < MIN_RENDER_SIZE {
        MIN_RENDER_SIZE
    } else if options.size > MAX_RENDER_SIZE {
        MAX_RENDER_SIZE
    } else {
        options.size
    };
    Ok(RenderJob { scene, size })
}

/// The side rendered lies between the smallest and the largest side, and a request
/// between them is rendered as asked.
pub proof fn lemma_render_size_bounds(requested: u32)
    ensures
        MIN_RENDER_SIZE <= render_size(requested) <= MAX_RENDER_SIZE,
        MIN_RENDER_SIZE <= requested <= MAX_RENDER_SIZE ==> render_size(requested) == requested,
{
}

/// Applying the triangle budget again to what it kept keeps all of it.
pub proof fn lemma_budget_is_stable(n: nat, max: usize)
    ensures
        kept_triangles(kept_triangles(n, max), max) == kept_triangles(n, max),
        kept_triangles(n, max) <= n,
        kept_triangles(n, max) <= max,
{
}

} // verus!
