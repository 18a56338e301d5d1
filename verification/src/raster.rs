use vstd::prelude::*;

verus! {

/// A pixel whose alpha is above this counts as drawn when the picture is framed.
pub const VISIBLE_ALPHA: u8 = 8;

/// Alpha given at least to every pixel that a triangle covers.
pub const COVERED_ALPHA: u8 = 230;

/// Byte offset of pixel `(x, y)` in a row-major RGBA8 buffer of rows `width` pixels wide.
pub open spec fn pixel_offset(width: int, x: int, y: int) -> int {
    (y * width + x) * 4
}

/// The four bytes of pixel `(x, y)`.
pub open spec fn pixel_at(pixels: Seq<u8>, width: int, x: int, y: int) -> [u8; 4] {
    let i = pixel_offset(width, x, y);
    [pixels[i], pixels[i + 1], pixels[i + 2], pixels[i + 3]]
}

/// One channel of a texel tinted by a colour: their product scaled back to a byte.
pub open spec fn modulate_channel(texel: u8, tint: u8) -> int {
    (texel as int * tint as int) / 255
}

pub open spec fn modulated(texel: [u8; 4], tint: [u8; 4]) -> [u8; 4] {
    [
        modulate_channel(texel[0], tint[0]) as u8,
        modulate_channel(texel[1], tint[1]) as u8,
        modulate_channel(texel[2], tint[2]) as u8,
        modulate_channel(texel[3], tint[3]) as u8,
    ]
}

proof fn lemma_modulate_channel_bounds(texel: u8, tint: u8)
    ensures
        0 <= modulate_channel(texel, tint) <= texel,
        modulate_channel(texel, tint) <= tint,
{
    assert(0 <= texel as int * tint as int <= texel as int * 255) by (nonlinear_arith);
    assert(texel as int * tint as int <= 255 * tint as int) by (nonlinear_arith);
    assert((texel as int * 255) / 255 == texel as int) by (nonlinear_arith);
    assert((255 * tint as int) / 255 == tint as int) by (nonlinear_arith);
    assert(0 <= (texel as int * tint as int) / 255 <= (texel as int * 255) / 255) by (nonlinear_arith)
        requires
            0 <= texel as int * tint as int <= texel as int * 255,
    ;
    assert((texel as int * tint as int) / 255 <= (255 * tint as int) / 255) by (nonlinear_arith)
        requires
            0 <= texel as int * tint as int <= 255 * tint as int,
    ;
}

fn modulate_byte(texel: u8, tint: u8) -> (out: u8)
    ensures
        out as int == modulate_channel(texel, tint),
{
    proof {
        lemma_modulate_channel_bounds(texel, tint);
    }
    assert(texel as u16 * tint as u16 <= 65025) by (nonlinear_arith);
    ((texel as u16 * tint as u16) / 255) as u8
}

/// Tints a texel by a colour, channel by channel: `texel * tint / 255`.
pub fn modulate(texture: [u8; 4], color: [u8; 4]) -> (out: [u8; 4])
    ensures
        out == modulated(texture, color),
        forall|i: int| 0 <= i < 4 ==> out[i] as int == modulate_channel(texture[i], color[i]),
{
    proof {
        lemma_modulate_channel_bounds(texture[0], color[0]);
        lemma_modulate_channel_bounds(texture[1], color[1]);
        lemma_modulate_channel_bounds(texture[2], color[2]);
        lemma_modulate_channel_bounds(texture[3], color[3]);
    }
    [
        modulate_byte(texture[0], color[0]),
        modulate_byte(texture[1], color[1]),
        modulate_byte(texture[2], color[2]),
        modulate_byte(texture[3], color[3]),
    ]
}

/// Pixel `(x, y)` of a square RGBA8 image of side `size` is drawn: it lies in the
/// image and its alpha is above `VISIBLE_ALPHA`.
pub open spec fn is_visible(pixels: Seq<u8>, size: int, x: int, y: int) -> bool {
    &&& 0 <= x < size
    &&& 0 <= y < size
    &&& pixels[pixel_offset(size, x, y) + 3] > VISIBLE_ALPHA
}

/// The smallest rectangle that holds every drawn pixel.
#[derive(Clone, Copy, Debug, PartialEq, Eq, Structural)]
pub struct VisibleBounds {
    pub min_x: u32,
    pub min_y: u32,
    pub max_x: u32,
    pub max_y: u32,
}

/// `b` is the tight box of the drawn pixels: all of them lie in it, and each of its
/// four sides passes through one of them.
pub open spec fn is_tight_box(pixels: Seq<u8>, size: int, b: VisibleBounds) -> bool {
    &&& forall|x: int, y: int|
        #[trigger] is_visible(pixels, size, x, y) ==> b.min_x <= x <= b.max_x && b.min_y <= y
            <= b.max_y
    &&& exists|y: int| #[trigger] is_visible(pixels, size, b.min_x as int, y)
    &&& exists|y: int| #[trigger] is_visible(pixels, size, b.max_x as int, y)
    &&& exists|x: int| #[trigger] is_visible(pixels, size, x, b.min_y as int)
    &&& exists|x: int| #[trigger] is_visible(pixels, size, x, b.max_y as int)
}

/// Some pixel of the image is drawn.
pub open spec fn any_visible(pixels: Seq<u8>, size: int) -> bool {
    exists|x: int, y: int| #[trigger] is_visible(pixels, size, x, y)
}

pub proof fn lemma_pixel_offset_bounds(size: int, x: int, y: int)
    requires
        0 <= x < size,
        0 <= y < size,
    ensures
        0 <= pixel_offset(size, x, y),
        pixel_offset(size, x, y) + 4 <= size * size * 4,
{
    assert(0 <= y * size + x) by (nonlinear_arith)
        requires
            0 <= x < size,
            0 <= y < size,
    ;
    assert(y * size + x + 1 <= size * size) by (nonlinear_arith)
        requires
            0 <= x < size,
            0 <= y < size,
    ;
}

/// Pixel `(x, y)` scanned before the cursor `(cx, cy)` in row-major order.
spec fn scanned(size: int, cx: int, cy: int, x: int, y: int) -> bool {
    y < cy || (y == cy && x < cx)
}

/// Finds the tight box of the pixels whose alpha is above `VISIBLE_ALPHA`, if any is.
pub fn visible_bounds(pixels: &[u8], size: u32) -> (res: Option<VisibleBounds>)
    requires
        pixels@.len() >= size * size * 4,
    ensures
        res is None <==> !any_visible(pixels@, size as int),
        res matches Some(b) ==> is_tight_box(pixels@, size as int, b),
{
    let ghost s = size as int;
    let len = pixels.len();
    let mut found = false;
    let mut min_x: u32 = size;
    let mut min_y: u32 = size;
    let mut max_x: u32 = 0;
    let mut max_y: u32 = 0;
    let ghost mut min_x_row: int = 0;
    let ghost mut max_x_row: int = 0;
    let ghost mut min_y_col: int = 0;
    let ghost mut max_y_col: int = 0;
    let mut y: u32 = 0;
    while y < size
        invariant
            y <= size,
            s == size,
            len == pixels@.len(),
            pixels@.len() >= size * size * 4,
            found ==> {
                &&& is_visible(pixels@, s, min_x as int, min_x_row)
                &&& is_visible(pixels@, s, max_x as int, max_x_row)
                &&& is_visible(pixels@, s, min_y_col, min_y as int)
                &&& is_visible(pixels@, s, max_y_col, max_y as int)
            },
            forall|px: int, py: int|
                #![trigger is_visible(pixels@, s, px, py)]
                py < y && is_visible(pixels@, s, px, py) ==> found && min_x <= px <= max_x && min_y
                    <= py <= max_y,
        decreases size - y,
    {
        let mut x: u32 = 0;
        while x < size
            invariant
                x <= size,
                y < size,
                s == size,
                len == pixels@.len(),
                pixels@.len() >= size * size * 4,
                found ==> {
                    &&& is_visible(pixels@, s, min_x as int, min_x_row)
                    &&& is_visible(pixels@, s, max_x as int, max_x_row)
                    &&& is_visible(pixels@, s, min_y_col, min_y as int)
                    &&& is_visible(pixels@, s, max_y_col, max_y as int)
                },
                forall|px: int, py: int|
                    #![trigger is_visible(pixels@, s, px, py)]
                    scanned(s, x as int, y as int, px, py) && is_visible(pixels@, s, px, py)
                        ==> found && min_x <= px <= max_x && min_y <= py <= max_y,
            decreases size - x,
        {
            proof {
                lemma_pixel_offset_bounds(s, x as int, y as int);
            }
            let i: usize = (y as usize * size as usize + x as usize) * 4 + 3;
            if pixels[i] > VISIBLE_ALPHA {
                assert(is_visible(pixels@, s, x as int, y as int));
                if !found || x < min_x {
                    min_x = x;
                    proof {
                        min_x_row = y as int;
                    }
                }
                if !found || y < min_y {
                    min_y = y;
                    proof {
                        min_y_col = x as int;
                    }
                }
                if !found || x > max_x {
                    max_x = x;
                    proof {
                        max_x_row = y as int;
                    }
                }
                if !found || y > max_y {
                    max_y = y;
                    proof {
                        max_y_col = x as int;
                    }
                }
                found = true;
            }
            x = x + 1;
        }
        y = y + 1;
    }
    if found {
        let b = VisibleBounds { min_x, min_y, max_x, max_y };
        assert(is_visible(pixels@, s, min_x as int, min_x_row));
        assert(is_visible(pixels@, s, max_x as int, max_x_row));
        assert(is_visible(pixels@, s, min_y_col, min_y as int));
        assert(is_visible(pixels@, s, max_y_col, max_y as int));
        assert(any_visible(pixels@, s));
        assert(forall|x: int, y: int|
            #[trigger] is_visible(pixels@, s, x, y) ==> b.min_x <= x <= b.max_x && b.min_y <= y
                <= b.max_y);
        assert(exists|y: int| #[trigger] is_visible(pixels@, s, b.min_x as int, y));
        assert(is_tight_box(pixels@, s, b));
        Some(b)
    } else {
        assert(!any_visible(pixels@, s)) by {
            if any_visible(pixels@, s) {
                let (px, py) = choose|px: int, py: int| #[trigger] is_visible(pixels@, s, px, py);
                assert(is_visible(pixels@, s, px, py));
            }
        }
        None
    }
}

/// Reads pixel `(x, y)` of a row-major RGBA8 buffer of side `size`.
pub fn bitmap_pixel(pixels: &[u8], size: u32, x: u32, y: u32) -> (px: [u8; 4])
    requires
        pixel_offset(size as int, x as int, y as int) + 4 <= pixels@.len(),
    ensures
        px == pixel_at(pixels@, size as int, x as int, y as int),
{
    assert(pixels@.len() == pixels.len());
    assert(0 <= y as int * size as int) by (nonlinear_arith);
    let i: usize = (y as usize * size as usize + x as usize) * 4;
    [pixels[i], pixels[i + 1], pixels[i + 2], pixels[i + 3]]
}

/// `pixels` with the four bytes at `offset` replaced by `color`.
pub open spec fn with_pixel(pixels: Seq<u8>, offset: int, color: [u8; 4]) -> Seq<u8> {
    pixels.update(offset, color[0]).update(offset + 1, color[1]).update(offset + 2, color[2]).update(
        offset + 3,
        color[3],
    )
}

/// Writes `color` into pixel `(x, y)` of a row-major RGBA8 buffer of side `size`.
pub fn store_pixel(pixels: &mut Vec<u8>, size: u32, x: u32, y: u32, color: [u8; 4])
    requires
        pixel_offset(size as int, x as int, y as int) + 4 <= old(pixels)@.len(),
    ensures
        final(pixels)@ == with_pixel(
            old(pixels)@,
            pixel_offset(size as int, x as int, y as int),
            color,
        ),
{
    assert(pixels@.len() == pixels.len());
    assert(0 <= y as int * size as int) by (nonlinear_arith);
    let i: usize = (y as usize * size as usize + x as usize) * 4;
    pixels.set(i, color[0]);
    pixels.set(i + 1, color[1]);
    pixels.set(i + 2, color[2]);
    pixels.set(i + 3, color[3]);
}

/// Tinting by opaque white leaves a texel as it is.
pub proof fn lemma_modulate_by_white(texel: [u8; 4])
    ensures
        modulated(texel, [255u8, 255u8, 255u8, 255u8]) == texel,
{
    assert forall|i: int| 0 <= i < 4 implies modulate_channel(texel[i], 255u8) == texel[i] by {
        assert((texel[i] as int * 255) / 255 == texel[i] as int) by (nonlinear_arith);
    }
    assert(modulated(texel, [255u8, 255u8, 255u8, 255u8]) =~= texel);
}

/// Tinting a texel by a colour is tinting the colour by the texel.
pub proof fn lemma_modulate_commutes(a: [u8; 4], b: [u8; 4])
    ensures
        modulated(a, b) == modulated(b, a),
{
    assert forall|i: int| 0 <= i < 4 implies modulate_channel(a[i], b[i]) == modulate_channel(
        b[i],
        a[i],
    ) by {
        assert(a[i] as int * b[i] as int == b[i] as int * a[i] as int) by (nonlinear_arith);
    }
    assert(modulated(a, b) =~= modulated(b, a));
}

/// Tinting never makes a channel brighter than it is in the texel or in the colour.
pub proof fn lemma_modulate_never_brightens(texel: [u8; 4], tint: [u8; 4])
    ensures
        forall|i: int|
            0 <= i < 4 ==> #[trigger] modulated(texel, tint)[i] <= texel[i] && modulated(texel, tint)[i]
                <= tint[i],
{
    lemma_modulate_channel_bounds(texel[0], tint[0]);
    lemma_modulate_channel_bounds(texel[1], tint[1]);
    lemma_modulate_channel_bounds(texel[2], tint[2]);
    lemma_modulate_channel_bounds(texel[3], tint[3]);
}

/// A pixel reads back as the colour last stored into it, and storing a pixel leaves
/// every other pixel of the image as it was.
pub proof fn lemma_store_then_read(
    pixels: Seq<u8>,
    size: int,
    x: int,
    y: int,
    color: [u8; 4],
    ox: int,
    oy: int,
)
    requires
        0 <= x < size,
        0 <= y < size,
        0 <= ox < size,
        0 <= oy < size,
        pixels.len() >= size * size * 4,
    ensures
        pixel_at(with_pixel(pixels, pixel_offset(size, x, y), color), size, x, y) == color,
        (ox != x || oy != y) ==> pixel_at(
            with_pixel(pixels, pixel_offset(size, x, y), color),
            size,
            ox,
            oy,
        ) == pixel_at(pixels, size, ox, oy),
{
    lemma_pixel_offset_bounds(size, x, y);
    lemma_pixel_offset_bounds(size, ox, oy);
    let i = pixel_offset(size, x, y);
    let j = pixel_offset(size, ox, oy);
    assert(pixel_at(with_pixel(pixels, i, color), size, x, y) =~= color);
    if ox != x || oy != y {
        assert(oy * size + ox != y * size + x) by (nonlinear_arith)
            requires
                ox != x || oy != y,
                0 <= x < size,
                0 <= ox < size,
        ;
        assert(pixel_at(with_pixel(pixels, i, color), size, ox, oy) =~= pixel_at(
            pixels,
            size,
            ox,
            oy,
        ));
    }
}

/// The tight box of drawn pixels is never empty: its left side is not right of its
/// right side, nor its top below its bottom.
pub proof fn lemma_tight_box_ordered(pixels: Seq<u8>, size: int, b: VisibleBounds)
    requires
        is_tight_box(pixels, size, b),
    ensures
        b.min_x <= b.max_x,
        b.min_y <= b.max_y,
{
    let y = choose|y: int| #[trigger] is_visible(pixels, size, b.min_x as int, y);
    let x = choose|x: int| #[trigger] is_visible(pixels, size, x, b.min_y as int);
}

/// The colour a covered pixel is given: the shaded colour with its alpha raised to
/// at least `COVERED_ALPHA`.
pub open spec fn covered_color(color: [u8; 4]) -> [u8; 4] {
    [color[0], color[1], color[2], if color[3] < COVERED_ALPHA { COVERED_ALPHA } else { color[3] }]
}

/// Writes the shaded colour of a pixel that a triangle covers, with its alpha raised
/// to at least `COVERED_ALPHA`.
pub fn store_fragment(pixels: &mut Vec<u8>, size: u32, x: u32, y: u32, color: [u8; 4])
    requires
        pixel_offset(size as int, x as int, y as int) + 4 <= old(pixels)@.len(),
    ensures
        final(pixels)@ == with_pixel(
            old(pixels)@,
            pixel_offset(size as int, x as int, y as int),
            covered_color(color),
        ),
{
    let alpha = if color[3] < COVERED_ALPHA {
        COVERED_ALPHA
    } else {
        color[3]
    };
    store_pixel(pixels, size, x, y, [color[0], color[1], color[2], alpha]);
}

/// A pixel that a triangle covers counts as drawn when the picture is framed, so the
/// framing box holds every covered pixel.
pub proof fn lemma_covered_pixel_is_visible(
    pixels: Seq<u8>,
    size: int,
    x: int,
    y: int,
    color: [u8; 4],
)
    requires
        0 <= x < size,
        0 <= y < size,
        pixels.len() >= size * size * 4,
    ensures
        is_visible(with_pixel(pixels, pixel_offset(size, x, y), covered_color(color)), size, x, y),
{
    lemma_pixel_offset_bounds(size, x, y);
}

} // verus!
