use vstd::prelude::*;

use crate::raster::{pixel_at, pixel_offset};

verus! {

/// How a texture coordinate outside `[0, 1]` is brought back into it.
#[derive(Clone, Copy, Debug, PartialEq, Eq, Structural)]
pub enum WrapMode {
    ClampToEdge,
    MirroredRepeat,
    Repeat,
}

/// An RGBA8 texture, row by row from the top, four bytes per texel.
#[derive(Clone)]
pub struct Texture {
    pub width: u32,
    pub height: u32,
    pub pixels: Vec<u8>,
    pub wrap_s: WrapMode,
    pub wrap_t: WrapMode,
    pub flip_v: bool,
}

impl Texture {
    /// A texture over decoded glTF texels: it repeats in both directions and is
    /// read with `v` pointing down, as glTF lays out its images.
    pub fn from_gltf_image(width: u32, height: u32, pixels: Vec<u8>) -> (t: Self)
        ensures
            t.width == width,
            t.height == height,
            t.pixels@ == pixels@,
            t.wrap_s == WrapMode::Repeat,
            t.wrap_t == WrapMode::Repeat,
            !t.flip_v,
    {
        Texture {
            width,
            height,
            pixels,
            wrap_s: WrapMode::Repeat,
            wrap_t: WrapMode::Repeat,
            flip_v: false,
        }
    }

    /// The same texture with other wrap modes; its texels and orientation are kept.
    pub fn with_wrap(self, wrap_s: WrapMode, wrap_t: WrapMode) -> (t: Self)
        ensures
            t.width == self.width,
            t.height == self.height,
            t.pixels@ == self.pixels@,
            t.flip_v == self.flip_v,
            t.wrap_s == wrap_s,
            t.wrap_t == wrap_t,
    {
        let mut t = self;
        t.wrap_s = wrap_s;
        t.wrap_t = wrap_t;
        t
    }

    /// The four bytes of texel `(x, y)`.
    pub fn pixel(&self, x: u32, y: u32) -> (px: [u8; 4])
        requires
            pixel_offset(self.width as int, x as int, y as int) + 4 <= self.pixels@.len(),
        ensures
            px == pixel_at(self.pixels@, self.width as int, x as int, y as int),
    {
        assert(self.pixels@.len() == self.pixels.len());
        assert(0 <= y as int * self.width as int) by (nonlinear_arith);
        let i: usize = (y as usize * self.width as usize + x as usize) * 4;
        [self.pixels[i], self.pixels[i + 1], self.pixels[i + 2], self.pixels[i + 3]]
    }
}

/// The layout of the texels of a decoded glTF image.
#[derive(Clone, Copy, Debug, PartialEq, Eq, Structural)]
pub enum PixelFormat {
    R8,
    R8G8,
    R8G8B8,
    R8G8B8A8,
    R16,
    R16G16,
    R16G16B16,
    R16G16B16A16,
    R32G32B32Float,
    R32G32B32A32Float,
}

/// Bytes per texel of a format that is read as integers.
pub open spec fn texel_bytes(format: PixelFormat) -> int {
    match format {
        PixelFormat::R8 => 1,
        PixelFormat::R8G8 => 2,
        PixelFormat::R8G8B8 => 3,
        PixelFormat::R8G8B8A8 => 4,
        PixelFormat::R16 => 2,
        PixelFormat::R16G16 => 4,
        PixelFormat::R16G16B16 => 6,
        PixelFormat::R16G16B16A16 => 8,
        PixelFormat::R32G32B32Float => 12,
        PixelFormat::R32G32B32A32Float => 16,
    }
}

/// Floating-point formats are not turned into textures.
pub open spec fn is_float_format(format: PixelFormat) -> bool {
    format is R32G32B32Float || format is R32G32B32A32Float
}

/// Channel `c` (red, green, blue, alpha) of the RGBA8 texel made from the source
/// texel that starts at byte `b`. Grey formats repeat their value in red, green
/// and blue; a missing alpha is opaque; a 16-bit channel keeps its high byte
/// (the second, the data being little-endian).
pub open spec fn rgba_channel(format: PixelFormat, src: Seq<u8>, b: int, c: int) -> u8 {
    match format {
        PixelFormat::R8 => if c < 3 { src[b] } else { 255 },
        PixelFormat::R8G8 => if c < 3 { src[b] } else { src[b + 1] },
        PixelFormat::R8G8B8 => if c < 3 { src[b + c] } else { 255 },
        PixelFormat::R8G8B8A8 => src[b + c],
        PixelFormat::R16 => if c < 3 { src[b + 1] } else { 255 },
        PixelFormat::R16G16 => if c < 3 { src[b + 1] } else { src[b + 3] },
        PixelFormat::R16G16B16 => if c < 3 { src[b + 2 * c + 1] } else { 255 },
        PixelFormat::R16G16B16A16 => src[b + 2 * c + 1],
        _ => 0,
    }
}

/// `out` holds, four bytes per texel, the RGBA8 form of every whole texel of `src`
/// (a trailing part of a texel is dropped).
pub open spec fn is_rgba_expansion(format: PixelFormat, src: Seq<u8>, out: Seq<u8>) -> bool {
    let n = src.len() as int / texel_bytes(format);
    &&& out.len() == 4 * n
    &&& forall|p: int, c: int|
        0 <= p < n && 0 <= c < 4 ==> #[trigger] out[4 * p + c] == rgba_channel(
            format,
            src,
            p * texel_bytes(format),
            c,
        )
}

/// The RGBA8 texel made from the source texel at byte `b`.
fn expand_texel(format: PixelFormat, src: &[u8], b: usize) -> (px: [u8; 4])
    requires
        !is_float_format(format),
        b + texel_bytes(format) <= src@.len(),
    ensures
        forall|c: int| 0 <= c < 4 ==> px[c] == rgba_channel(format, src@, b as int, c),
{
    assert(src@.len() == src.len());
    match format {
        PixelFormat::R8 => [src[b], src[b], src[b], 255],
        PixelFormat::R8G8 => [src[b], src[b], src[b], src[b + 1]],
        PixelFormat::R8G8B8 => [src[b], src[b + 1], src[b + 2], 255],
        PixelFormat::R8G8B8A8 => [src[b], src[b + 1], src[b + 2], src[b + 3]],
        PixelFormat::R16 => [src[b + 1], src[b + 1], src[b + 1], 255],
        PixelFormat::R16G16 => [src[b + 1], src[b + 1], src[b + 1], src[b + 3]],
        PixelFormat::R16G16B16 => [src[b + 1], src[b + 3], src[b + 5], 255],
        PixelFormat::R16G16B16A16 => [src[b + 1], src[b + 3], src[b + 5], src[b + 7]],
        _ => [0, 0, 0, 0],
    }
}

fn texel_len(format: PixelFormat) -> (n: usize)
    ensures
        n == texel_bytes(format),
{
    match format {
        PixelFormat::R8 => 1,
        PixelFormat::R8G8 => 2,
        PixelFormat::R8G8B8 => 3,
        PixelFormat::R8G8B8A8 => 4,
        PixelFormat::R16 => 2,
        PixelFormat::R16G16 => 4,
        PixelFormat::R16G16B16 => 6,
        PixelFormat::R16G16B16A16 => 8,
        PixelFormat::R32G32B32Float => 12,
        PixelFormat::R32G32B32A32Float => 16,
    }
}

/// Expands every whole texel of `src` to RGBA8.
fn expand_to_rgba(format: PixelFormat, src: &[u8]) -> (out: Vec<u8>)
    requires
        !is_float_format(format),
    ensures
        is_rgba_expansion(format, src@, out@),
{
    let step = texel_len(format);
    let len = src.len();
    let ghost n = len as int / step as int;
    let mut out: Vec<u8> = Vec::new();
    let mut b: usize = 0;
    let mut p: usize = 0;
    while step <= len - b
        invariant
            step == texel_bytes(format),
            1 <= step <= 8,
            !is_float_format(format),
            len == src@.len(),
            n == len as int / step as int,
            b == p * step,
            b <= len,
            out@.len() == 4 * p,
            forall|q: int, c: int|
                0 <= q < p && 0 <= c < 4 ==> #[trigger] out@[4 * q + c] == rgba_channel(
                    format,
                    src@,
                    q * step,
                    c,
                ),
        decreases len - b,
    {
        let px = expand_texel(format, src, b);
        let ghost before = out@;
        out.push(px[0]);
        out.push(px[1]);
        out.push(px[2]);
        out.push(px[3]);
        assert forall|q: int, c: int|
            0 <= q < p + 1 && 0 <= c < 4 implies #[trigger] out@[4 * q + c] == rgba_channel(
                format,
                src@,
                q * step,
                c,
            ) by {
            if q < p {
                assert(out@[4 * q + c] == before[4 * q + c]);
            } else {
                assert(q * step == b);
            }
        }
        b = b + step;
        p = p + 1;
        assert(b == p * step) by (nonlinear_arith)
            requires
                b == (p - 1) * step + step,
        ;
    }
    assert(p == n) by (nonlinear_arith)
        requires
            b == p * step,
            b <= len,
            len - b < step,
            n == len as int / step as int,
            step >= 1,
    ;
    out
}

/// The RGBA8 texels of a decoded glTF image in format `format`: RGBA8 data as it
/// stands, any other integer format expanded texel by texel; floating-point data
/// gives no texels.
pub open spec fn rgba_texels(format: PixelFormat, src: Seq<u8>, out: Seq<u8>) -> bool {
    if format is R8G8B8A8 {
        out == src
    } else {
        is_rgba_expansion(format, src, out)
    }
}

/// Turns a decoded glTF image into a texture (see `Texture::from_gltf_image`), or
/// gives `None` for a floating-point image.
pub fn gltf_image_to_texture(format: PixelFormat, width: u32, height: u32, pixels: Vec<u8>) -> (res:
    Option<Texture>)
    ensures
        res is None <==> is_float_format(format),
        res matches Some(t) ==> {
            &&& t.width == width
            &&& t.height == height
            &&& rgba_texels(format, pixels@, t.pixels@)
            &&& t.wrap_s == WrapMode::Repeat
            &&& t.wrap_t == WrapMode::Repeat
            &&& !t.flip_v
        },
{
    let rgba = match format {
        PixelFormat::R32G32B32Float | PixelFormat::R32G32B32A32Float => return None,
        PixelFormat::R8G8B8A8 => pixels,
        _ => expand_to_rgba(format, pixels.as_slice()),
    };
    Some(Texture::from_gltf_image(width, height, rgba))
}

/// Calls `image::load_from_memory`, which guesses the format of encoded image bytes
/// and decodes them, then `DynamicImage::to_rgba8`, and takes the RGBA8 buffer apart
/// into its width, its height and its bytes (`ImageBuffer::into_raw`); a decoding
/// error becomes `None`.
///
/// Claimed: a decoded buffer holds at least four bytes for each of its
/// `width * height` texels, which every `ImageBuffer` guarantees. Not claimed:
/// whether the bytes decode, nor to which texels. `load_from_memory` consults
/// format-detection and decoding hooks that any code of the process may register at
/// run time, so its outcome is not a function of the bytes alone.
#[verifier::external_body]
fn decode_rgba8(bytes: &[u8]) -> (decoded: Option<(u32, u32, Vec<u8>)>)
    ensures
        decoded matches Some(p) ==> p.2@.len() >= p.0 as int * p.1 as int * 4,
{
    image::load_from_memory(bytes).ok().map(|image| {
        let rgba = image.to_rgba8();
        (rgba.width(), rgba.height(), rgba.into_raw())
    })
}

impl Texture {
    /// A texture over decoded RGBA8 texels that repeats in both directions, with `v`
    /// flipped (model formats that put the image origin at the bottom) or not.
    pub fn from_rgba8(width: u32, height: u32, pixels: Vec<u8>, flip_v: bool) -> (t: Self)
        ensures
            t.width == width,
            t.height == height,
            t.pixels@ == pixels@,
            t.wrap_s == WrapMode::Repeat,
            t.wrap_t == WrapMode::Repeat,
            t.flip_v == flip_v,
    {
        Texture { width, height, pixels, wrap_s: WrapMode::Repeat, wrap_t: WrapMode::Repeat, flip_v }
    }

    /// A texture over an image embedded in a model file, read with `v` flipped, or
    /// `None` where the bytes do not decode. The decoded sides and texels are
    /// handed to `from_rgba8` as they come.
    pub fn from_encoded(bytes: &[u8]) -> (res: Option<Self>)
        ensures
            res matches Some(t) ==> {
                &&& t.pixels@.len() >= t.width * t.height * 4
                &&& t.wrap_s == WrapMode::Repeat
                &&& t.wrap_t == WrapMode::Repeat
                &&& t.flip_v
            },
    {
        Self::from_decoded(decode_rgba8(bytes))
    }

    /// The texture of a decoded embedded image, read with `v` flipped: `None` where
    /// nothing decoded, else exactly the decoded sides and texels.
    pub fn from_decoded(decoded: Option<(u32, u32, Vec<u8>)>) -> (res: Option<Self>)
        ensures
            res is Some <==> decoded is Some,
            res matches Some(t) ==> {
                &&& t.width == decoded->Some_0.0
                &&& t.height == decoded->Some_0.1
                &&& t.pixels@ == decoded->Some_0.2@
                &&& t.wrap_s == WrapMode::Repeat
                &&& t.wrap_t == WrapMode::Repeat
                &&& t.flip_v
            },
    {
        match decoded {
            Some((width, height, pixels)) => Some(Self::from_rgba8(width, height, pixels, true)),
            None => None,
        }
    }
}

/// The texture coordinate set that a glTF base-colour texture is read with: the one
/// its texture transform sets, else the one the texture reference names, else the
/// first.
pub open spec fn chosen_texcoord_set(transform_set: Option<u32>, reference_set: Option<u32>) -> u32 {
    match transform_set {
        Some(set) => set,
        None => match reference_set {
            Some(set) => set,
            None => 0,
        },
    }
}

/// Picks the texture coordinate set of a base-colour texture (see
/// `chosen_texcoord_set`).
pub fn texcoord_set(transform_set: Option<u32>, reference_set: Option<u32>) -> (set: u32)
    ensures
        set == chosen_texcoord_set(transform_set, reference_set),
{
    match transform_set {
        Some(set) => set,
        None => match reference_set {
            Some(set) => set,
            None => 0,
        },
    }
}


/// How every integer glTF layout becomes RGBA8: an image of `L` bytes in a layout of
/// `B` bytes per texel (1 for R8; 2 for R8G8 and R16; 3 for R8G8B8; 4 for R8G8B8A8
/// and R16G16; 6 for R16G16B16; 8 for R16G16B16A16) gives `4 * (L / B)` bytes, and
/// texel `p` is read from bytes `B * p ..`: grey is repeated in red, green and blue,
/// a missing alpha is 255, and a 16-bit channel keeps its second (high) byte.
pub proof fn lemma_rgba_expansion_layout(format: PixelFormat, src: Seq<u8>, out: Seq<u8>)
    requires
        is_rgba_expansion(format, src, out),
    ensures
        format is R8 ==> {
            &&& out.len() == 4 * (src.len() / 1)
            &&& forall|p: int|
                #![trigger out[4 * p]]
                0 <= p < src.len() / 1 ==> out[4 * p] == src[p] && out[4 * p + 1] == src[p]
                    && out[4 * p + 2] == src[p] && out[4 * p + 3] == 255
        },
        format is R8G8 ==> {
            &&& out.len() == 4 * (src.len() / 2)
            &&& forall|p: int|
                #![trigger out[4 * p]]
                0 <= p < src.len() / 2 ==> out[4 * p] == src[2 * p] && out[4 * p + 1] == src[2 * p]
                    && out[4 * p + 2] == src[2 * p] && out[4 * p + 3] == src[2 * p + 1]
        },
        format is R8G8B8 ==> {
            &&& out.len() == 4 * (src.len() / 3)
            &&& forall|p: int|
                #![trigger out[4 * p]]
                0 <= p < src.len() / 3 ==> out[4 * p] == src[3 * p] && out[4 * p + 1] == src[3 * p + 1]
                    && out[4 * p + 2] == src[3 * p + 2] && out[4 * p + 3] == 255
        },
        format is R8G8B8A8 ==> {
            &&& out.len() == 4 * (src.len() / 4)
            &&& forall|p: int|
                #![trigger out[4 * p]]
                0 <= p < src.len() / 4 ==> out[4 * p] == src[4 * p] && out[4 * p + 1] == src[4 * p + 1]
                    && out[4 * p + 2] == src[4 * p + 2] && out[4 * p + 3] == src[4 * p + 3]
        },
        format is R16 ==> {
            &&& out.len() == 4 * (src.len() / 2)
            &&& forall|p: int|
                #![trigger out[4 * p]]
                0 <= p < src.len() / 2 ==> out[4 * p] == src[2 * p + 1] && out[4 * p + 1] == src[2 * p + 1]
                    && out[4 * p + 2] == src[2 * p + 1] && out[4 * p + 3] == 255
        },
        format is R16G16 ==> {
            &&& out.len() == 4 * (src.len() / 4)
            &&& forall|p: int|
                #![trigger out[4 * p]]
                0 <= p < src.len() / 4 ==> out[4 * p] == src[4 * p + 1] && out[4 * p + 1] == src[4 * p + 1]
                    && out[4 * p + 2] == src[4 * p + 1] && out[4 * p + 3] == src[4 * p + 3]
        },
        format is R16G16B16 ==> {
            &&& out.len() == 4 * (src.len() / 6)
            &&& forall|p: int|
                #![trigger out[4 * p]]
                0 <= p < src.len() / 6 ==> out[4 * p] == src[6 * p + 1] && out[4 * p + 1] == src[6 * p + 3]
                    && out[4 * p + 2] == src[6 * p + 5] && out[4 * p + 3] == 255
        },
        format is R16G16B16A16 ==> {
            &&& out.len() == 4 * (src.len() / 8)
            &&& forall|p: int|
                #![trigger out[4 * p]]
                0 <= p < src.len() / 8 ==> out[4 * p] == src[8 * p + 1] && out[4 * p + 1] == src[8 * p + 3]
                    && out[4 * p + 2] == src[8 * p + 5] && out[4 * p + 3] == src[8 * p + 7]
        },
{
    let b = texel_bytes(format);
    assert forall|p: int| #![trigger out[4 * p]] 0 <= p < src.len() as int / b implies {
        &&& out[4 * p] == rgba_channel(format, src, p * b, 0)
        &&& out[4 * p + 1] == rgba_channel(format, src, p * b, 1)
        &&& out[4 * p + 2] == rgba_channel(format, src, p * b, 2)
        &&& out[4 * p + 3] == rgba_channel(format, src, p * b, 3)
    } by {
        assert(out[4 * p + 0] == rgba_channel(format, src, p * b, 0));
    }
}

} // verus!
