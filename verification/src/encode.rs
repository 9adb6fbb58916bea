use vstd::prelude::*;
use vstd::arithmetic::div_mod::{lemma_fundamental_div_mod, lemma_fundamental_div_mod_converse};
use crate::format::{
    FrameFormat, PixelFormat, MONO1_FRAME_HEIGHT, MONO1_FRAME_SIZE, MONO1_FRAME_WIDTH, mono1_mask,
    lemma_pixel_in_frame,
};

verus! {

/// Whether `set_mono1_pixel` writes into a buffer of `len` bytes: the format
/// is the packed monochrome one, the pixel lies inside it, and the buffer
/// has exactly the format's length (a format that is not accepted counts as
/// length zero).
pub open spec fn mono1_write_applies(format: FrameFormat, len: int, x: int, y: int) -> bool {
    &&& format.pixel_format is Mono1MsbReversePage
    &&& 0 <= x < format.width
    &&& 0 <= y < format.height
    &&& len == if format.is_valid() {
        format.byte_len()
    } else {
        0
    }
}

/// The byte that holds a pixel after the pixel is set or cleared.
pub open spec fn mono1_write_byte(old_byte: u8, y: int, on: bool) -> u8 {
    if on {
        old_byte | mono1_mask(y)
    } else {
        old_byte & !mono1_mask(y)
    }
}

/// Sets (`on`) or clears pixel (x, y) of a packed monochrome frame. Does
/// nothing when the format is not the packed monochrome one, the pixel lies
/// outside it, or the buffer does not have the format's length.
pub fn set_mono1_pixel(framebuffer: &mut [u8], format: FrameFormat, x: usize, y: usize, on: bool)
    requires
        mono1_write_applies(format, old(framebuffer)@.len() as int, x as int, y as int)
            ==> format.is_valid(),
    ensures
        if mono1_write_applies(format, old(framebuffer)@.len() as int, x as int, y as int) {
            let off = format.mono1_offset(x as int, y as int);
            final(framebuffer)@ == old(framebuffer)@.update(
                off,
                mono1_write_byte(old(framebuffer)@[off], y as int, on),
            )
        } else {
            final(framebuffer)@ == old(framebuffer)@
        },
        format.is_valid() && format.pixel_format is Mono1MsbReversePage && x < format.width && y
            < format.height && old(framebuffer)@.len() == format.byte_len() ==> {
            &&& format.mono1_lit(final(framebuffer)@, x as int, y as int) == on
            &&& forall|x2: int, y2: int|
                0 <= x2 < format.width && 0 <= y2 < format.height && (x2 != x || y2 != y)
                    ==> #[trigger] format.mono1_lit(final(framebuffer)@, x2, y2)
                    == format.mono1_lit(old(framebuffer)@, x2, y2)
        },
{
    let ghost before = framebuffer@;
    proof {
        if format.is_valid() && format.pixel_format is Mono1MsbReversePage && x < format.width
            && y < format.height && before.len() == format.byte_len() {
            lemma_mono1_writes_every_pixel(format, x as int, y as int);
            assert forall|x2: int, y2: int|
                0 <= x2 < format.width && 0 <= y2 < format.height && (x2 != x || y2 != y)
                    implies #[trigger] format.mono1_lit(
                    before.update(
                        format.mono1_offset(x as int, y as int),
                        mono1_write_byte(before[format.mono1_offset(x as int, y as int)], y as int, on),
                    ),
                    x2,
                    y2,
                ) == format.mono1_lit(before, x2, y2) by {
                lemma_set_mono1_pixel_reads_back(format, before, x as int, y as int, on, x2, y2);
            }
            lemma_set_mono1_pixel_reads_back(format, before, x as int, y as int, on, x as int, y as int);
        }
    }
    let expected = match format.required_len() {
        Ok(n) => n,
        Err(_) => 0,
    };
    if format.pixel_format != PixelFormat::Mono1MsbReversePage || x >= format.width || y
        >= format.height || framebuffer.len() != expected {
        return ;
    }
    proof {
        lemma_pixel_in_frame(format, x as int, y as int);
    }
    let page = y / 8;
    let rows = (format.height + 7) / 8;
    let offset = (rows - 1 - page) * format.stride + (format.stride - 1 - x);
    let mask: u8 = 1u8 << ((7 - y % 8) as u8);
    if on {
        framebuffer[offset] = framebuffer[offset] | mask;
    } else {
        framebuffer[offset] = framebuffer[offset] & !mask;
    }
}

/// Every pixel of an accepted packed monochrome frame is written when the
/// buffer has the frame's length: no row or column of the frame is skipped.
pub proof fn lemma_mono1_writes_every_pixel(format: FrameFormat, x: int, y: int)
    requires
        format.is_valid(),
        format.pixel_format is Mono1MsbReversePage,
        0 <= x < format.width,
        0 <= y < format.height,
    ensures
        mono1_write_applies(format, format.byte_len(), x, y),
{
}

proof fn lemma_single_bit_update(b: u8, k: u8, j: u8, on: bool)
    requires
        k < 8,
        j < 8,
    ensures
        ((if on { b | (1u8 << k) } else { b & !(1u8 << k) }) & (1u8 << k) != 0) == on,
        k != j ==> (((if on { b | (1u8 << k) } else { b & !(1u8 << k) }) & (1u8 << j) != 0) == (b
            & (1u8 << j) != 0)),
{
    if on {
        assert((b | (1u8 << k)) & (1u8 << k) != 0) by (bit_vector)
            requires
                k < 8,
        ;
        assert(k != j ==> (((b | (1u8 << k)) & (1u8 << j) != 0) == (b & (1u8 << j) != 0)))
            by (bit_vector)
            requires
                k < 8,
                j < 8,
        ;
    } else {
        assert((b & !(1u8 << k)) & (1u8 << k) == 0) by (bit_vector)
            requires
                k < 8,
        ;
        assert(k != j ==> (((b & !(1u8 << k)) & (1u8 << j) != 0) == (b & (1u8 << j) != 0)))
            by (bit_vector)
            requires
                k < 8,
                j < 8,
        ;
    }
}

/// Two different pixels of a packed monochrome frame use different bits.
pub proof fn lemma_mono1_pixels_distinct(f: FrameFormat, x1: int, y1: int, x2: int, y2: int)
    requires
        f.is_valid(),
        f.pixel_format is Mono1MsbReversePage,
        0 <= x1 < f.width,
        0 <= y1 < f.height,
        0 <= x2 < f.width,
        0 <= y2 < f.height,
        f.mono1_offset(x1, y1) == f.mono1_offset(x2, y2),
        x1 != x2 || y1 != y2,
    ensures
        y1 / 8 == y2 / 8,
        x1 == x2,
        y1 % 8 != y2 % 8,
{
    let s = f.stride as int;
    let q1 = f.rows() - 1 - y1 / 8;
    let q2 = f.rows() - 1 - y2 / 8;
    let r1 = s - 1 - x1;
    let r2 = s - 1 - x2;
    assert(0 <= r1 < s && 0 <= r2 < s);
    lemma_fundamental_div_mod_converse(q1 * s + r1, s, q1, r1);
    lemma_fundamental_div_mod_converse(q2 * s + r2, s, q2, r2);
}

/// Read after write: setting or clearing a pixel makes it read back as
/// set or cleared, and leaves every other pixel of the frame as it was.
pub proof fn lemma_set_mono1_pixel_reads_back(
    f: FrameFormat,
    before: Seq<u8>,
    x: int,
    y: int,
    on: bool,
    x2: int,
    y2: int,
)
    requires
        f.is_valid(),
        f.pixel_format is Mono1MsbReversePage,
        before.len() == f.byte_len(),
        0 <= x < f.width,
        0 <= y < f.height,
        0 <= x2 < f.width,
        0 <= y2 < f.height,
    ensures
        ({
            let off = f.mono1_offset(x, y);
            let after = before.update(off, mono1_write_byte(before[off], y, on));
            &&& f.mono1_lit(after, x, y) == on
            &&& (x2 != x || y2 != y) ==> f.mono1_lit(after, x2, y2) == f.mono1_lit(before, x2, y2)
        }),
{
    let off = f.mono1_offset(x, y);
    lemma_pixel_in_frame(f, x, y);
    lemma_pixel_in_frame(f, x2, y2);
    let k = (7 - y % 8) as u8;
    let j = (7 - y2 % 8) as u8;
    lemma_single_bit_update(before[off], k, j, on);
    if (x2 != x || y2 != y) && f.mono1_offset(x2, y2) == off {
        lemma_mono1_pixels_distinct(f, x, y, x2, y2);
    }
}

/// The aspect-preserving rectangle (x, y, width, height) that centres a
/// `source_width` x `source_height` image in a `width` x `height` area:
/// the image fills the constraining axis and keeps at least one pixel on
/// the other.
pub open spec fn spec_fit_rect(source_width: int, source_height: int, width: int, height: int) -> (
    int,
    int,
    int,
    int,
) {
    let (rw, rh) = if width * source_height <= height * source_width {
        let h = source_height * width / source_width;
        (width, if h >= 1 { h } else { 1 })
    } else {
        let w = source_width * height / source_height;
        (if w >= 1 { w } else { 1 }, height)
    };
    ((width - rw) / 2, (height - rh) / 2, rw, rh)
}

/// The inputs on which `fit_rect` computes without overflow, underflow or a
/// division by zero: the products fit `usize`; when the target is relatively
/// taller than the source the source width and the target height are
/// nonzero, otherwise the source height is.
pub open spec fn fit_rect_accepts(source_width: int, source_height: int, width: int, height: int) -> bool {
    &&& 0 <= source_width
    &&& 0 <= source_height
    &&& 0 <= width
    &&& 0 <= height
    &&& width * source_height <= usize::MAX
    &&& height * source_width <= usize::MAX
    &&& if width * source_height <= height * source_width {
        source_width > 0 && height > 0
    } else {
        source_height > 0
    }
}

/// Aspect-fits and centres a source image in a target area.
pub fn fit_rect(source_width: usize, source_height: usize, width: usize, height: usize) -> (r: (
    usize,
    usize,
    usize,
    usize,
))
    requires
        fit_rect_accepts(source_width as int, source_height as int, width as int, height as int),
    ensures
        (r.0 as int, r.1 as int, r.2 as int, r.3 as int) == spec_fit_rect(
            source_width as int,
            source_height as int,
            width as int,
            height as int,
        ),
{
    proof {
        lemma_fit_rect_inside(source_width as int, source_height as int, width as int, height as int);
    }
    let render_width;
    let render_height;
    if width * source_height <= height * source_width {
        let h = source_height * width / source_width;
        render_width = width;
        render_height = if h >= 1 { h } else { 1 };
    } else {
        let w = source_width * height / source_height;
        render_width = if w >= 1 { w } else { 1 };
        render_height = height;
    }
    ((width - render_width) / 2, (height - render_height) / 2, render_width, render_height)
}

/// The fitted rectangle lies inside the target area, fills it along one
/// axis, is centred, and is nonempty whenever the area is.
pub proof fn lemma_fit_rect_inside(source_width: int, source_height: int, width: int, height: int)
    requires
        fit_rect_accepts(source_width, source_height, width, height),
    ensures
        ({
            let (x, y, w, h) = spec_fit_rect(source_width, source_height, width, height);
            &&& 0 <= x && 0 <= y
            &&& 0 <= h && 0 <= w
            &&& height > 0 ==> 1 <= h
            &&& x + w <= width && y + h <= height
            &&& (w == width || h == height)
            &&& width > 0 ==> 1 <= w
            &&& width - (x + w) - x <= 1 && height - (y + h) - y <= 1
        }),
{
    let sw = source_width;
    let sh = source_height;
    if width * sh <= height * sw {
        let h = sh * width / sw;
        assert(sh * width == width * sh) by (nonlinear_arith);
        assert(h * sw <= sh * width) by (nonlinear_arith)
            requires
                h == sh * width / sw,
                sw > 0,
                sh * width >= 0,
        ;
        assert(h <= height) by (nonlinear_arith)
            requires
                h * sw <= height * sw,
                sw > 0,
        ;
        assert(h >= 0) by (nonlinear_arith)
            requires
                h == sh * width / sw,
                sw > 0,
                sh * width >= 0,
        ;
    } else {
        let w = sw * height / sh;
        assert(sw * height == height * sw) by (nonlinear_arith);
        assert(w * sh <= sw * height) by (nonlinear_arith)
            requires
                w == sw * height / sh,
                sh > 0,
                sw * height >= 0,
        ;
        assert(w < width) by (nonlinear_arith)
            requires
                w * sh <= height * sw,
                height * sw < width * sh,
                sh > 0,
        ;
        assert(w >= 0) by (nonlinear_arith)
            requires
                w == sw * height / sh,
                sh > 0,
                sw * height >= 0,
        ;
    }
}


/// The inputs on which `encode_rgb565_frame` computes without overflow or
/// an out-of-bounds access: an accepted source format that `source` holds,
/// a fit that computes, sampling products that fit `usize`, and a
/// destination long enough for the last rendered pixel.
pub open spec fn encode_rgb565_accepts(
    format: FrameFormat,
    source: Seq<u8>,
    destination_len: int,
    render_width: int,
    render_height: int,
) -> bool {
    &&& format.holds_frame(source)
    &&& fit_rect_accepts(format.width as int, format.height as int, render_width, render_height)
    &&& {
        let (ox, oy, w, h) = spec_fit_rect(
            format.width as int,
            format.height as int,
            render_width,
            render_height,
        );
        &&& w * format.width <= usize::MAX
        &&& h * format.height <= usize::MAX
        &&& (w > 0 ==> 2 * ((oy + h - 1) * render_width + ox + w) <= destination_len)
    }
}

/// The source pixel that a rendered pixel at offset (dx, dy) inside a
/// `w` x `h` rendered rectangle samples (nearest neighbour).
pub open spec fn sample_coord(d: int, source_extent: int, rendered_extent: int) -> int {
    d * source_extent / rendered_extent
}

/// Whether output pixel `p` of a `render_width`-wide area lies inside the
/// fitted rectangle and, scanning its rows in order, comes before the
/// rendered-pixel position (xx, yy).
pub open spec fn rgb565_pixel_done(
    format: FrameFormat,
    render_width: int,
    render_height: int,
    p: int,
    xx: int,
    yy: int,
) -> bool {
    let (ox, oy, w, h) = spec_fit_rect(
        format.width as int,
        format.height as int,
        render_width,
        render_height,
    );
    let r = p / render_width - oy;
    let c = p % render_width - ox;
    &&& render_width > 0
    &&& 0 <= c < w
    &&& 0 <= r < h
    &&& (r < yy || (r == yy && c < xx))
}

/// Byte `i` of an output frame in which the rendered pixels before (xx, yy)
/// hold their converted RGB565 value and every other byte is zero.
pub open spec fn rgb565_partial_byte(
    format: FrameFormat,
    source: Seq<u8>,
    render_width: int,
    render_height: int,
    i: int,
    xx: int,
    yy: int,
) -> u8 {
    let (ox, oy, w, h) = spec_fit_rect(
        format.width as int,
        format.height as int,
        render_width,
        render_height,
    );
    let p = i / 2;
    if rgb565_pixel_done(format, render_width, render_height, p, xx, yy) {
        let v = format.spec_rgb565(
            source,
            sample_coord(p % render_width - ox, format.width as int, w),
            sample_coord(p / render_width - oy, format.height as int, h),
        );
        if i % 2 == 0 {
            (v >> 8u16) as u8
        } else {
            v as u8
        }
    } else {
        0
    }
}

/// Byte `i` of the RGB565 big-endian frame that `encode_rgb565_frame`
/// produces: the fitted, centred, nearest-neighbour scaled image, black
/// outside it.
pub open spec fn rgb565_output_byte(
    format: FrameFormat,
    source: Seq<u8>,
    render_width: int,
    render_height: int,
    i: int,
) -> u8 {
    let (ox, oy, w, h) = spec_fit_rect(
        format.width as int,
        format.height as int,
        render_width,
        render_height,
    );
    rgb565_partial_byte(format, source, render_width, render_height, i, 0, h)
}

proof fn lemma_sample_in_range(d: int, source_extent: int, rendered_extent: int)
    requires
        0 <= d < rendered_extent,
        0 < source_extent,
    ensures
        0 <= sample_coord(d, source_extent, rendered_extent) < source_extent,
{
    assert(0 <= d * source_extent / rendered_extent < source_extent) by (nonlinear_arith)
        requires
            0 <= d < rendered_extent,
            0 < source_extent,
    ;
}

proof fn lemma_pixel_position(p: int, width: int, r: int, c: int)
    requires
        0 < width,
        0 <= c < width,
        0 <= r,
        p == r * width + c,
    ensures
        p / width == r,
        p % width == c,
{
    lemma_fundamental_div_mod_converse(p, width, r, c);
}

proof fn lemma_pixel_split(p: int, width: int)
    requires
        0 < width,
        0 <= p,
    ensures
        p == (p / width) * width + p % width,
        0 <= p % width < width,
        0 <= p / width,
{
    lemma_fundamental_div_mod(p, width);
    assert(width * (p / width) == (p / width) * width) by (nonlinear_arith);
    assert(0 <= p / width) by (nonlinear_arith)
        requires
            0 < width,
            0 <= p,
    ;
}

/// Converts a producer frame into a `render_width` x `render_height`
/// RGB565 big-endian frame: the source is aspect-fitted and centred,
/// scaled by nearest neighbour, and the rest of the destination is black.
pub fn encode_rgb565_frame(
    destination: &mut [u8],
    source: &[u8],
    format: FrameFormat,
    render_width: usize,
    render_height: usize,
)
    requires
        encode_rgb565_accepts(
            format,
            source@,
            old(destination)@.len() as int,
            render_width as int,
            render_height as int,
        ),
    ensures
        final(destination)@.len() == old(destination)@.len(),
        forall|i: int|
            0 <= i < final(destination)@.len() ==> #[trigger] final(destination)@[i]
                == rgb565_output_byte(format, source@, render_width as int, render_height as int, i),
{
    let ghost rw = render_width as int;
    let ghost rh = render_height as int;
    let n = destination.len();
    for i in 0..n
        invariant
            n == destination@.len(),
            forall|j: int| 0 <= j < i ==> #[trigger] destination@[j] == 0u8,
    {
        destination[i] = 0;
    }
    let (offset_x, offset_y, width, height) = fit_rect(
        format.width,
        format.height,
        render_width,
        render_height,
    );
    proof {
        lemma_fit_rect_inside(format.width as int, format.height as int, rw, rh);
        assert forall|i: int| 0 <= i < n implies #[trigger] destination@[i] == rgb565_partial_byte(
            format,
            source@,
            rw,
            rh,
            i,
            0,
            0,
        ) by {}
    }
    for y in 0..height
        invariant
            n == destination@.len(),
            encode_rgb565_accepts(format, source@, n as int, rw, rh),
            (offset_x as int, offset_y as int, width as int, height as int) == spec_fit_rect(
                format.width as int,
                format.height as int,
                rw,
                rh,
            ),
            offset_x + width <= render_width,
            offset_y + height <= render_height,
            rw == render_width,
            rh == render_height,
            forall|i: int|
                0 <= i < n ==> #[trigger] destination@[i] == rgb565_partial_byte(
                    format,
                    source@,
                    rw,
                    rh,
                    i,
                    0,
                    y as int,
                ),
    {
        proof {
            lemma_sample_in_range(y as int, format.height as int, height as int);
            assert(y * format.height <= height * format.height) by (nonlinear_arith)
                requires
                    y < height,
            ;
        }
        let source_y = y * format.height / height;
        for x in 0..width
            invariant
                n == destination@.len(),
                encode_rgb565_accepts(format, source@, n as int, rw, rh),
                (offset_x as int, offset_y as int, width as int, height as int) == spec_fit_rect(
                    format.width as int,
                    format.height as int,
                    rw,
                    rh,
                ),
                offset_x + width <= render_width,
                offset_y + height <= render_height,
                rw == render_width,
                rh == render_height,
                y < height,
                source_y == sample_coord(y as int, format.height as int, height as int),
                source_y < format.height,
                forall|i: int|
                    0 <= i < n ==> #[trigger] destination@[i] == rgb565_partial_byte(
                        format,
                        source@,
                        rw,
                        rh,
                        i,
                        x as int,
                        y as int,
                    ),
        {
            proof {
                lemma_sample_in_range(x as int, format.width as int, width as int);
                assert(x * format.width <= width * format.width) by (nonlinear_arith)
                    requires
                        x < width,
                ;
            }
            let source_x = x * format.width / width;
            proof {
                lemma_pixel_in_frame(format, source_x as int, source_y as int);
            }
            let rgb565 = format.rgb565(source, source_x, source_y);
            let ghost pp = (offset_y + y) * rw + offset_x + x;
            proof {
                assert((offset_y + y) * rw <= (offset_y + height - 1) * rw) by (nonlinear_arith)
                    requires
                        y < height,
                        rw >= 0,
                ;
                assert(0 <= (offset_y + y) * rw) by (nonlinear_arith)
                    requires
                        rw >= 0,
                ;
                lemma_pixel_position(pp, rw, (offset_y + y) as int, (offset_x + x) as int);
            }
            let output = ((offset_y + y) * render_width + offset_x + x) * 2;
            let ghost before = destination@;
            destination[output] = (rgb565 >> 8u16) as u8;
            destination[output + 1] = rgb565 as u8;
            proof {
                assert forall|i: int| 0 <= i < n implies #[trigger] destination@[i]
                    == rgb565_partial_byte(format, source@, rw, rh, i, (x + 1) as int, y as int) by {
                    let p = i / 2;
                    lemma_pixel_split(p, rw);
                    if p == pp {
                        assert(i == output || i == output + 1);
                    } else {
                        assert(i != output && i != output + 1);
                        assert(destination@[i] == before[i]);
                        if p / rw == offset_y + y && p % rw == offset_x + x {
                            assert(p == pp);
                        }
                    }
                }
            }
        }
        proof {
            assert forall|i: int| 0 <= i < n implies #[trigger] destination@[i]
                == rgb565_partial_byte(format, source@, rw, rh, i, 0, (y + 1) as int) by {
                let p = i / 2;
                assert(rgb565_partial_byte(format, source@, rw, rh, i, width as int, y as int)
                    == rgb565_partial_byte(format, source@, rw, rh, i, 0, (y + 1) as int));
            }
        }
    }
}


/// Whether target pixel (x, y) of a 128 x 64 monochrome frame is lit after
/// `encode_mono1_frame` has rendered the pixels before (xx, yy) of the
/// fitted rectangle: it lies in the rectangle, comes before (xx, yy) in row
/// order, and its nearest source pixel has an intensity of at least 128.
pub open spec fn mono1_partial_lit(
    format: FrameFormat,
    source: Seq<u8>,
    x: int,
    y: int,
    xx: int,
    yy: int,
) -> bool {
    let (ox, oy, w, h) = spec_fit_rect(format.width as int, format.height as int, 128, 64);
    let c = x - ox;
    let r = y - oy;
    &&& 0 <= c < w
    &&& 0 <= r < h
    &&& (r < yy || (r == yy && c < xx))
    &&& format.spec_intensity(
        source,
        sample_coord(c, format.width as int, w),
        sample_coord(r, format.height as int, h),
    ) >= 128
}

/// Whether pixel (x, y) of the 128 x 64 monochrome frame that
/// `encode_mono1_frame` produces is lit: the source is aspect-fitted and
/// centred, scaled by nearest neighbour and thresholded at intensity 128;
/// the rest of the frame is dark.
pub open spec fn mono1_output_lit(format: FrameFormat, source: Seq<u8>, x: int, y: int) -> bool {
    mono1_partial_lit(format, source, x, y, 0, 64)
}

proof fn lemma_zero_byte_unlit(y: int)
    ensures
        0u8 & mono1_mask(y) == 0,
{
    let m = mono1_mask(y);
    assert(0u8 & m == 0) by (bit_vector);
}

/// Converts a producer frame into the 128 x 64 packed monochrome native
/// frame: aspect-fitted, centred, nearest-neighbour scaled, thresholded at
/// intensity 128, dark outside the fitted rectangle.
pub fn encode_mono1_frame(destination: &mut [u8; MONO1_FRAME_SIZE], source: &[u8], format: FrameFormat)
    requires
        format.holds_frame(source@),
    ensures
        forall|x: int, y: int|
            0 <= x < 128 && 0 <= y < 64 ==> #[trigger] FrameFormat::mono1_128x64_spec().mono1_lit(
                final(destination)@,
                x,
                y,
            ) == mono1_output_lit(format, source@, x, y),
{
    let target = FrameFormat::mono1_128x64();
    for i in 0..MONO1_FRAME_SIZE
        invariant
            destination@.len() == MONO1_FRAME_SIZE,
            forall|j: int| 0 <= j < i ==> #[trigger] destination@[j] == 0u8,
    {
        destination[i] = 0;
    }
    proof {
        assert forall|x: int, y: int| 0 <= x < 128 && 0 <= y < 64 implies #[trigger] target.mono1_lit(
            destination@,
            x,
            y,
        ) == mono1_partial_lit(format, source@, x, y, 0, 0) by {
            lemma_pixel_in_frame(target, x, y);
            lemma_zero_byte_unlit(y);
        }
    }
    let (offset_x, offset_y, width, height) = fit_rect(
        format.width,
        format.height,
        MONO1_FRAME_WIDTH,
        MONO1_FRAME_HEIGHT,
    );
    proof {
        lemma_fit_rect_inside(format.width as int, format.height as int, 128, 64);
    }
    for y in 0..height
        invariant
            destination@.len() == MONO1_FRAME_SIZE,
            format.holds_frame(source@),
            target == FrameFormat::mono1_128x64_spec(),
            (offset_x as int, offset_y as int, width as int, height as int) == spec_fit_rect(
                format.width as int,
                format.height as int,
                128,
                64,
            ),
            offset_x + width <= 128,
            offset_y + height <= 64,
            forall|x: int, y2: int|
                0 <= x < 128 && 0 <= y2 < 64 ==> #[trigger] target.mono1_lit(destination@, x, y2)
                    == mono1_partial_lit(format, source@, x, y2, 0, y as int),
    {
        proof {
            lemma_sample_in_range(y as int, format.height as int, height as int);
            assert(y * format.height <= 64 * 65535) by (nonlinear_arith)
                requires
                    y < 64,
                    format.height <= 65535,
            ;
        }
        let source_y = y * format.height / height;
        for x in 0..width
            invariant
                destination@.len() == MONO1_FRAME_SIZE,
                format.holds_frame(source@),
                target == FrameFormat::mono1_128x64_spec(),
                (offset_x as int, offset_y as int, width as int, height as int) == spec_fit_rect(
                    format.width as int,
                    format.height as int,
                    128,
                    64,
                ),
                offset_x + width <= 128,
                offset_y + height <= 64,
                y < height,
                source_y == sample_coord(y as int, format.height as int, height as int),
                source_y < format.height,
                forall|x2: int, y2: int|
                    0 <= x2 < 128 && 0 <= y2 < 64 ==> #[trigger] target.mono1_lit(
                        destination@,
                        x2,
                        y2,
                    ) == mono1_partial_lit(format, source@, x2, y2, x as int, y as int),
        {
            proof {
                lemma_sample_in_range(x as int, format.width as int, width as int);
                assert(x * format.width <= 128 * 65535) by (nonlinear_arith)
                    requires
                        x < 128,
                        format.width <= 65535,
                ;
            }
            let source_x = x * format.width / width;
            proof {
                lemma_pixel_in_frame(format, source_x as int, source_y as int);
            }
            let on = format.intensity(source, source_x, source_y) >= 128;
            let ghost before = destination@;
            set_mono1_pixel(destination, target, offset_x + x, offset_y + y, on);
            proof {
                assert forall|x2: int, y2: int| 0 <= x2 < 128 && 0 <= y2 < 64 implies #[trigger] target.mono1_lit(
                    destination@,
                    x2,
                    y2,
                ) == mono1_partial_lit(format, source@, x2, y2, (x + 1) as int, y as int) by {
                    lemma_set_mono1_pixel_reads_back(
                        target,
                        before,
                        (offset_x + x) as int,
                        (offset_y + y) as int,
                        on,
                        x2,
                        y2,
                    );
                }
            }
        }
        proof {
            assert forall|x2: int, y2: int| 0 <= x2 < 128 && 0 <= y2 < 64 implies #[trigger] target.mono1_lit(
                destination@,
                x2,
                y2,
            ) == mono1_partial_lit(format, source@, x2, y2, 0, (y + 1) as int) by {
                assert(mono1_partial_lit(format, source@, x2, y2, width as int, y as int)
                    == mono1_partial_lit(format, source@, x2, y2, 0, (y + 1) as int));
            }
        }
    }
}


proof fn lemma_be_bytes_round_trip(hi: u8, lo: u8)
    ensures
        ((((hi as u16) << 8u16) | (lo as u16)) >> 8u16) as u8 == hi,
        ((((hi as u16) << 8u16) | (lo as u16)) as u8) == lo,
{
    assert(((((hi as u16) << 8u16) | (lo as u16)) >> 8u16) as u8 == hi) by (bit_vector);
    assert(((((hi as u16) << 8u16) | (lo as u16)) as u8) == lo) by (bit_vector);
}

/// Converting a frame that already has the monochrome native format
/// reproduces every pixel: the conversion layer and the native path agree.
pub proof fn lemma_native_mono1_conversion_is_identity(source: Seq<u8>, x: int, y: int)
    requires
        source.len() == 1024,
        0 <= x < 128,
        0 <= y < 64,
    ensures
        mono1_output_lit(FrameFormat::mono1_128x64_spec(), source, x, y)
            == FrameFormat::mono1_128x64_spec().mono1_lit(source, x, y),
{
    let f = FrameFormat::mono1_128x64_spec();
    assert(spec_fit_rect(128, 64, 128, 64) == (0int, 0int, 128int, 64int));
    assert(sample_coord(x, 128, 128) == x) by (nonlinear_arith)
        requires
            0 <= x < 128,
    ;
    assert(sample_coord(y, 64, 64) == y) by (nonlinear_arith)
        requires
            0 <= y < 64,
    ;
}

/// Converting a frame that already has the ST7789 native format into a
/// 240 x 240 frame reproduces every byte: the conversion layer and the
/// native path agree.
pub proof fn lemma_native_rgb565_conversion_is_identity(source: Seq<u8>, i: int)
    requires
        source.len() == 115200,
        0 <= i < 115200,
    ensures
        rgb565_output_byte(FrameFormat::rgb565_240x240_spec(), source, 240, 240, i) == source[i],
{
    let f = FrameFormat::rgb565_240x240_spec();
    assert(spec_fit_rect(240, 240, 240, 240) == (0int, 0int, 240int, 240int));
    let p = i / 2;
    lemma_pixel_split(p, 240);
    let row = p / 240;
    let col = p % 240;
    assert(sample_coord(col, 240, 240) == col) by (nonlinear_arith)
        requires
            0 <= col < 240,
    ;
    assert(sample_coord(row, 240, 240) == row) by (nonlinear_arith)
        requires
            0 <= row,
    ;
    assert(row < 240);
    assert(f.row_major_offset(col, row) == 2 * p);
    lemma_be_bytes_round_trip(source[2 * p], source[2 * p + 1]);
}


proof fn lemma_byte_from_bits(a: u8, b: u8)
    requires
        forall|k: u8| k < 8 ==> ((a & (1u8 << k) != 0) == (b & (1u8 << k) != 0)),
    ensures
        a == b,
{
    assert((a & (1u8 << 0u8) != 0) == (b & (1u8 << 0u8) != 0));
    assert((a & (1u8 << 1u8) != 0) == (b & (1u8 << 1u8) != 0));
    assert((a & (1u8 << 2u8) != 0) == (b & (1u8 << 2u8) != 0));
    assert((a & (1u8 << 3u8) != 0) == (b & (1u8 << 3u8) != 0));
    assert((a & (1u8 << 4u8) != 0) == (b & (1u8 << 4u8) != 0));
    assert((a & (1u8 << 5u8) != 0) == (b & (1u8 << 5u8) != 0));
    assert((a & (1u8 << 6u8) != 0) == (b & (1u8 << 6u8) != 0));
    assert((a & (1u8 << 7u8) != 0) == (b & (1u8 << 7u8) != 0));
    assert(a == b) by (bit_vector)
        requires
            (a & (1u8 << 0u8) != 0) == (b & (1u8 << 0u8) != 0),
            (a & (1u8 << 1u8) != 0) == (b & (1u8 << 1u8) != 0),
            (a & (1u8 << 2u8) != 0) == (b & (1u8 << 2u8) != 0),
            (a & (1u8 << 3u8) != 0) == (b & (1u8 << 3u8) != 0),
            (a & (1u8 << 4u8) != 0) == (b & (1u8 << 4u8) != 0),
            (a & (1u8 << 5u8) != 0) == (b & (1u8 << 5u8) != 0),
            (a & (1u8 << 6u8) != 0) == (b & (1u8 << 6u8) != 0),
            (a & (1u8 << 7u8) != 0) == (b & (1u8 << 7u8) != 0),
    ;
}

/// A monochrome native frame is determined by its pixels: two frames whose
/// 128 x 64 pixels all agree are the same bytes.
pub proof fn lemma_mono1_frame_determined_by_pixels(a: Seq<u8>, b: Seq<u8>)
    requires
        a.len() == 1024,
        b.len() == 1024,
        forall|x: int, y: int|
            0 <= x < 128 && 0 <= y < 64 ==> #[trigger] FrameFormat::mono1_128x64_spec().mono1_lit(
                a,
                x,
                y,
            ) == FrameFormat::mono1_128x64_spec().mono1_lit(b, x, y),
    ensures
        a == b,
{
    let f = FrameFormat::mono1_128x64_spec();
    assert forall|i: int| 0 <= i < 1024 implies a[i] == b[i] by {
        let page = i / 128;
        let col = i % 128;
        let x = 127 - col;
        assert forall|k: u8| k < 8 implies ((a[i] & (1u8 << k) != 0) == (b[i] & (1u8 << k)
            != 0)) by {
            let y = (7 - page) * 8 + (7 - k);
            assert(0 <= y < 64);
            assert(y / 8 == 7 - page);
            assert(y % 8 == 7 - k);
            assert(f.mono1_offset(x, y) == i);
            assert(mono1_mask(y) == 1u8 << k);
            assert(f.mono1_lit(a, x, y) == f.mono1_lit(b, x, y));
        }
        lemma_byte_from_bits(a[i], b[i]);
    }
    assert(a =~= b);
}

} // verus!
