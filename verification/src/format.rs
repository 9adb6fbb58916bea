use vstd::prelude::*;
use vstd::arithmetic::mul::{lemma_mul_inequality, lemma_mul_is_distributive_sub};
use crate::error::DisplayError;

verus! {

/// Width of the monochrome OLED panels (SSD1306 and SH1106), in pixels.
pub const MONO1_FRAME_WIDTH: usize = 128;
/// Height of the monochrome OLED panels, in pixels.
pub const MONO1_FRAME_HEIGHT: usize = 64;
/// Bytes per eight-pixel page of the monochrome native frame.
pub const MONO1_FRAME_STRIDE: usize = 128;
/// Size in bytes of one monochrome native frame.
pub const MONO1_FRAME_SIZE: usize = 1024;

/// Width of the ST7789 panel, in pixels.
pub const ST7789_PANEL_WIDTH: usize = 240;
/// Height of the ST7789 panel, in pixels.
pub const ST7789_PANEL_HEIGHT: usize = 240;
/// Size in bytes of one ST7789 native frame (two bytes per pixel).
pub const ST7789_FRAMEBUFFER_SIZE: usize = 115200;

/// Largest accepted frame width or height (the range of a `u16`).
pub const MAX_DIMENSION: usize = 65535;

/// Pixel layouts that producers may hand to the conversion layer.
#[derive(Clone, Copy, Debug, PartialEq, Eq, Structural)]
pub enum PixelFormat {
    /// One bit per pixel, most significant bit first, grouped in eight-pixel
    /// pages, with the page order and the byte order within a page reversed.
    Mono1MsbReversePage,
    /// One unsigned intensity byte per pixel, row-major.
    Mono8,
    /// Two bytes per RGB565 pixel, most significant byte first, row-major.
    Rgb565Be,
}

/// The pixel format that the C interface encodes as `code`, if any.
pub open spec fn pixel_format_of_code(code: u32) -> Option<PixelFormat> {
    if code == 0 {
        Some(PixelFormat::Mono1MsbReversePage)
    } else if code == 1 {
        Some(PixelFormat::Mono8)
    } else if code == 2 {
        Some(PixelFormat::Rgb565Be)
    } else {
        None
    }
}

impl PixelFormat {
    /// Decodes the C interface's pixel-format code.
    pub fn try_from_u32(value: u32) -> (r: Result<PixelFormat, DisplayError>)
        ensures
            r == (match pixel_format_of_code(value) {
                Some(f) => Ok(f),
                None => Err(DisplayError::InvalidArgument),
            }),
    {
        match value {
            0 => Ok(PixelFormat::Mono1MsbReversePage),
            1 => Ok(PixelFormat::Mono8),
            2 => Ok(PixelFormat::Rgb565Be),
            _ => Err(DisplayError::InvalidArgument),
        }
    }
}

/// The big-endian 16-bit value of two bytes.
pub open spec fn spec_be_u16(hi: u8, lo: u8) -> u16 {
    ((hi as u16) << 8u16) | (lo as u16)
}

fn be_u16(hi: u8, lo: u8) -> (r: u16)
    ensures
        r == spec_be_u16(hi, lo),
{
    ((hi as u16) << 8u16) | (lo as u16)
}

/// The luminance (0..=255) of an RGB565 pixel: each channel is scaled to
/// eight bits and weighted 77/150/29 out of 256.
pub open spec fn spec_rgb565_gray(pixel: u16) -> int {
    let red = ((pixel >> 11u16) & 0x1f) * 255 / 31;
    let green = ((pixel >> 5u16) & 0x3f) * 255 / 63;
    let blue = (pixel & 0x1f) * 255 / 31;
    (red * 77 + green * 150 + blue * 29) / 256
}

/// The RGB565 grayscale pixel of an intensity.
pub open spec fn spec_gray_rgb565(gray: u16) -> u16 {
    ((gray >> 3u16) << 11u16) | ((gray >> 2u16) << 5u16) | (gray >> 3u16)
}

/// The bit of a monochrome byte that holds pixel row `y` of its page.
pub open spec fn mono1_mask(y: int) -> u8 {
    1u8 << ((7 - y % 8) as u8)
}

/// The geometry of a producer or native frame.
#[derive(Clone, Copy, Debug, PartialEq, Eq, Structural)]
pub struct FrameFormat {
    pub pixel_format: PixelFormat,
    pub width: usize,
    pub height: usize,
    pub stride: usize,
}

impl FrameFormat {
    /// The smallest stride, in bytes, that holds one row (or page) of pixels.
    pub open spec fn min_stride(self) -> int {
        match self.pixel_format {
            PixelFormat::Rgb565Be => 2 * self.width,
            _ => self.width as int,
        }
    }

    /// The number of stride-sized rows: eight-pixel pages for the packed
    /// monochrome layout, pixel rows otherwise.
    pub open spec fn rows(self) -> int {
        match self.pixel_format {
            PixelFormat::Mono1MsbReversePage => (self.height + 7) / 8,
            _ => self.height as int,
        }
    }

    /// The number of bytes a frame of this format occupies.
    pub open spec fn byte_len(self) -> int {
        self.stride * self.rows()
    }

    /// Whether the format is accepted: nonzero dimensions within the range
    /// of a `u16`, a stride that holds a row, and a length that fits `usize`.
    pub open spec fn is_valid(self) -> bool {
        &&& 0 < self.width <= MAX_DIMENSION
        &&& 0 < self.height <= MAX_DIMENSION
        &&& self.stride >= self.min_stride()
        &&& self.byte_len() <= usize::MAX
    }

    /// Whether `data` holds a whole frame of this (valid) format.
    pub open spec fn holds_frame(self, data: Seq<u8>) -> bool {
        self.is_valid() && data.len() >= self.byte_len()
    }

    /// The byte of a packed monochrome frame that holds pixel (x, y).
    pub open spec fn mono1_offset(self, x: int, y: int) -> int {
        (self.rows() - 1 - y / 8) * self.stride + (self.stride - 1 - x)
    }

    /// The first byte of pixel (x, y) in a row-major format.
    pub open spec fn row_major_offset(self, x: int, y: int) -> int {
        match self.pixel_format {
            PixelFormat::Rgb565Be => y * self.stride + 2 * x,
            _ => y * self.stride + x,
        }
    }

    /// Whether pixel (x, y) can be read from `len` bytes of this format: its
    /// page and column exist and every byte of it lies below `len`.
    pub open spec fn pixel_readable(self, len: int, x: int, y: int) -> bool {
        match self.pixel_format {
            PixelFormat::Mono1MsbReversePage => {
                &&& y / 8 < self.rows()
                &&& x < self.stride
                &&& self.mono1_offset(x, y) < len
            },
            PixelFormat::Mono8 => self.row_major_offset(x, y) < len,
            PixelFormat::Rgb565Be => self.row_major_offset(x, y) + 1 < len,
        }
    }

    /// Whether pixel (x, y) of a packed monochrome frame is lit.
    pub open spec fn mono1_lit(self, data: Seq<u8>, x: int, y: int) -> bool {
        data[self.mono1_offset(x, y)] & mono1_mask(y) != 0
    }

    /// The intensity (0..=255) of pixel (x, y).
    pub open spec fn spec_intensity(self, data: Seq<u8>, x: int, y: int) -> u8 {
        match self.pixel_format {
            PixelFormat::Mono1MsbReversePage => if self.mono1_lit(data, x, y) {
                0xff
            } else {
                0x00
            },
            PixelFormat::Mono8 => data[self.row_major_offset(x, y)],
            PixelFormat::Rgb565Be => {
                let off = self.row_major_offset(x, y);
                spec_rgb565_gray(spec_be_u16(data[off], data[off + 1])) as u8
            },
        }
    }

    /// The RGB565 value of pixel (x, y): the stored pixel for RGB565 frames,
    /// the gray of its intensity otherwise.
    pub open spec fn spec_rgb565(self, data: Seq<u8>, x: int, y: int) -> u16 {
        match self.pixel_format {
            PixelFormat::Rgb565Be => {
                let off = self.row_major_offset(x, y);
                spec_be_u16(data[off], data[off + 1])
            },
            _ => spec_gray_rgb565(self.spec_intensity(data, x, y) as u16),
        }
    }

    /// The native format of the monochrome OLED panels.
    pub open spec fn mono1_128x64_spec() -> FrameFormat {
        FrameFormat {
            pixel_format: PixelFormat::Mono1MsbReversePage,
            width: 128,
            height: 64,
            stride: 128,
        }
    }

    /// The native format of the ST7789 panel.
    pub open spec fn rgb565_240x240_spec() -> FrameFormat {
        FrameFormat { pixel_format: PixelFormat::Rgb565Be, width: 240, height: 240, stride: 480 }
    }

    /// Builds a format, accepting exactly the valid ones.
    pub fn new(pixel_format: PixelFormat, width: usize, height: usize, stride: usize) -> (r: Result<
        FrameFormat,
        DisplayError,
    >)
        ensures
            ({
                let f = FrameFormat { pixel_format, width, height, stride };
                r == if f.is_valid() {
                    Ok::<FrameFormat, DisplayError>(f)
                } else {
                    Err(DisplayError::InvalidArgument)
                }
            }),
    {
        let format = FrameFormat { pixel_format, width, height, stride };
        match format.required_len() {
            Ok(_) => Ok(format),
            Err(e) => Err(e),
        }
    }

    /// The native format of the SSD1306 and SH1106 panels.
    pub fn mono1_128x64() -> (r: FrameFormat)
        ensures
            r == FrameFormat::mono1_128x64_spec(),
            r.is_valid(),
            r.byte_len() == MONO1_FRAME_SIZE,
    {
        FrameFormat {
            pixel_format: PixelFormat::Mono1MsbReversePage,
            width: MONO1_FRAME_WIDTH,
            height: MONO1_FRAME_HEIGHT,
            stride: MONO1_FRAME_STRIDE,
        }
    }

    /// The native format of the ST7789 panel.
    pub fn rgb565_240x240() -> (r: FrameFormat)
        ensures
            r == FrameFormat::rgb565_240x240_spec(),
            r.is_valid(),
            r.byte_len() == ST7789_FRAMEBUFFER_SIZE,
    {
        FrameFormat {
            pixel_format: PixelFormat::Rgb565Be,
            width: ST7789_PANEL_WIDTH,
            height: ST7789_PANEL_HEIGHT,
            stride: ST7789_PANEL_WIDTH * 2,
        }
    }

    /// The number of bytes a frame of this format occupies, or an error for
    /// a format that is not accepted.
    pub fn required_len(self) -> (r: Result<usize, DisplayError>)
        ensures
            r == if self.is_valid() {
                Ok::<usize, DisplayError>(self.byte_len() as usize)
            } else {
                Err(DisplayError::InvalidArgument)
            },
    {
        let minimum_stride = match self.pixel_format {
            PixelFormat::Mono1MsbReversePage | PixelFormat::Mono8 => self.width,
            PixelFormat::Rgb565Be => match self.width.checked_mul(2) {
                Some(s) => s,
                None => return Err(DisplayError::InvalidArgument),
            },
        };
        if self.width == 0 || self.height == 0 || self.width > MAX_DIMENSION || self.height
            > MAX_DIMENSION || self.stride < minimum_stride {
            return Err(DisplayError::InvalidArgument);
        }
        let rows = match self.pixel_format {
            PixelFormat::Mono1MsbReversePage => (self.height + 7) / 8,
            PixelFormat::Mono8 | PixelFormat::Rgb565Be => self.height,
        };
        match self.stride.checked_mul(rows) {
            Some(n) => Ok(n),
            None => Err(DisplayError::InvalidArgument),
        }
    }

    /// The intensity (0..=255) of pixel (x, y) of `data`.
    pub fn intensity(self, data: &[u8], x: usize, y: usize) -> (r: u8)
        requires
            self.pixel_readable(data@.len() as int, x as int, y as int),
        ensures
            r == self.spec_intensity(data@, x as int, y as int),
    {
        let len = data.len();
        proof {
            lemma_row_offset_nonnegative(self.stride as int, y as int);
        }
        match self.pixel_format {
            PixelFormat::Mono1MsbReversePage => {
                let page = y / 8;
                let rows = self.height / 8 + if self.height % 8 != 0 {
                    1
                } else {
                    0
                };
                assert(rows == self.rows());
                proof {
                    lemma_mono1_offset_bounds(self, x as int, y as int);
                }
                let offset = (rows - 1 - page) * self.stride + (self.stride - 1 - x);
                let mask: u8 = 1u8 << ((7 - y % 8) as u8);
                if data[offset] & mask != 0 {
                    0xff
                } else {
                    0x00
                }
            },
            PixelFormat::Mono8 => data[y * self.stride + x],
            PixelFormat::Rgb565Be => {
                let offset = y * self.stride + x * 2;
                let pixel = be_u16(data[offset], data[offset + 1]);
                rgb565_gray(pixel)
            },
        }
    }

    /// The RGB565 value of pixel (x, y) of `data`.
    pub fn rgb565(self, data: &[u8], x: usize, y: usize) -> (r: u16)
        requires
            self.pixel_readable(data@.len() as int, x as int, y as int),
        ensures
            r == self.spec_rgb565(data@, x as int, y as int),
    {
        let len = data.len();
        proof {
            lemma_row_offset_nonnegative(self.stride as int, y as int);
        }
        match self.pixel_format {
            PixelFormat::Rgb565Be => {
                let offset = y * self.stride + x * 2;
                be_u16(data[offset], data[offset + 1])
            },
            PixelFormat::Mono1MsbReversePage | PixelFormat::Mono8 => {
                let gray = self.intensity(data, x, y) as u16;
                ((gray >> 3u16) << 11u16) | ((gray >> 2u16) << 5u16) | (gray >> 3u16)
            },
        }
    }
}

fn rgb565_gray(pixel: u16) -> (r: u8)
    ensures
        r == spec_rgb565_gray(pixel) as u8,
        0 <= spec_rgb565_gray(pixel) <= 255,
{
    let r5 = (pixel >> 11u16) & 0x1f;
    let g6 = (pixel >> 5u16) & 0x3f;
    let b5 = pixel & 0x1f;
    assert(r5 <= 31 && g6 <= 63 && b5 <= 31) by (bit_vector)
        requires
            r5 == (pixel >> 11u16) & 0x1f,
            g6 == (pixel >> 5u16) & 0x3f,
            b5 == pixel & 0x1f,
    ;
    let red = r5 * 255 / 31;
    let green = g6 * 255 / 63;
    let blue = b5 * 255 / 31;
    assert(red <= 255 && green <= 255 && blue <= 255) by (nonlinear_arith)
        requires
            r5 <= 31,
            g6 <= 63,
            b5 <= 31,
            red == r5 * 255 / 31,
            green == g6 * 255 / 63,
            blue == b5 * 255 / 31,
    ;
    let sum = red * 77 + green * 150 + blue * 29;
    (sum / 256) as u8
}

/// A row's first byte lies at a nonnegative offset.
proof fn lemma_row_offset_nonnegative(stride: int, y: int)
    requires
        0 <= stride,
        0 <= y,
    ensures
        0 <= y * stride,
{
    assert(0 <= y * stride) by (nonlinear_arith)
        requires
            0 <= stride,
            0 <= y,
    ;
}

/// The two products that make up a packed monochrome offset are no larger
/// than the offset itself.
proof fn lemma_mono1_offset_bounds(f: FrameFormat, x: int, y: int)
    requires
        f.pixel_format == PixelFormat::Mono1MsbReversePage,
        0 <= x < f.stride,
        0 <= y,
        y / 8 < f.rows(),
    ensures
        0 <= (f.rows() - 1 - y / 8) * f.stride <= f.mono1_offset(x, y),
        0 <= f.stride - 1 - x,
{
    let k = f.rows() - 1 - y / 8;
    let s = f.stride as int;
    assert(0 <= k * s) by (nonlinear_arith)
        requires
            0 <= k,
            0 <= s,
    ;
}

/// Every pixel of a frame lies inside the frame's bytes.
pub proof fn lemma_pixel_in_frame(f: FrameFormat, x: int, y: int)
    requires
        f.is_valid(),
        0 <= x < f.width,
        0 <= y < f.height,
    ensures
        match f.pixel_format {
            PixelFormat::Mono1MsbReversePage => 0 <= f.mono1_offset(x, y) < f.byte_len()
                && (f.rows() - 1 - y / 8) * f.stride <= (f.rows() - 1) * f.stride,
            PixelFormat::Mono8 => 0 <= f.row_major_offset(x, y) < f.byte_len() && y * f.stride
                <= (f.height - 1) * f.stride,
            PixelFormat::Rgb565Be => 0 <= f.row_major_offset(x, y) && f.row_major_offset(x, y) + 1
                < f.byte_len() && y * f.stride <= (f.height - 1) * f.stride,
        },
        forall|len: int| len >= f.byte_len() ==> #[trigger] f.pixel_readable(len, x, y),
{
    let s = f.stride as int;
    match f.pixel_format {
        PixelFormat::Mono1MsbReversePage => {
            let k = f.rows() - 1 - y / 8;
            assert(0 <= k <= f.rows() - 1);
            lemma_mul_inequality(k, f.rows() - 1, s);
            assert(0 <= k * s) by (nonlinear_arith)
                requires
                    0 <= k,
                    0 <= s,
            ;
            lemma_mul_is_distributive_sub(s, f.rows(), 1);
            assert((f.rows() - 1) * s == f.rows() * s - s) by (nonlinear_arith);
        },
        _ => {
            lemma_mul_inequality(y, f.height - 1, s);
            assert(0 <= y * s) by (nonlinear_arith)
                requires
                    0 <= y,
                    0 <= s,
            ;
            assert((f.height - 1) * s == f.height * s - s) by (nonlinear_arith);
        },
    }
}

} // verus!
