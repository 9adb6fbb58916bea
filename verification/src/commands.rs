use vstd::prelude::*;
use crate::backend::Backend;
use crate::converter::UpdateRect;
use crate::error::DisplayError;

verus! {

/// SSD1306 initialisation, sent as one command message: display off,
/// clock divide, multiplex 64, display offset 0, start line 0, charge pump
/// on, horizontal addressing, segment remap, reversed COM scan, COM pins,
/// contrast, precharge, VCOMH level, display follows RAM, normal polarity,
/// display on.
pub const SSD1306_INIT: [u8; 26] = [
    0x00, 0xae, 0xd5, 0x80, 0xa8, 0x3f, 0xd3, 0x00, 0x40, 0x8d, 0x14, 0x20, 0x00, 0xa1, 0xc8, 0xda,
    0x12, 0x81, 0xcf, 0xd9, 0xf1, 0xdb, 0x40, 0xa4, 0xa6, 0xaf,
];

/// SSD1306 addressing of the whole frame: columns 0..=127, pages 0..=7.
pub const SSD1306_ADDRESS: [u8; 7] = [0x00, 0x21, 0x00, 0x7f, 0x22, 0x00, 0x07];

/// SH1106 initialisation, sent as one command message (the display is
/// switched on separately, after a settling delay).
pub const SH1106_INIT: [u8; 26] = [
    0x00, 0xae, 0x02, 0x10, 0x40, 0x81, 0xa0, 0xa1, 0xc8, 0xa6, 0xa8, 0x3f, 0xd3, 0x00, 0xd5, 0x80,
    0xd9, 0xf1, 0xda, 0x12, 0xdb, 0x40, 0x20, 0x02, 0xa4, 0xa6,
];

/// SH1106 display-on command message.
pub const SH1106_DISPLAY_ON: [u8; 2] = [0x00, 0xaf];

/// One ST7789 initialisation command with its parameters and the delay
/// that follows it.
#[derive(Clone, Copy, Debug)]
pub struct InitStep {
    pub command: u8,
    pub data: &'static [u8],
    pub delay_ms: u64,
}

/// The ST7789 command codes of the initialisation, in order.
pub open spec fn st7789_init_commands() -> Seq<u8> {
    seq![
        0x11u8, 0x36, 0x3a, 0xb2, 0xb7, 0xbb, 0xc0, 0xc2, 0xc3, 0xc6, 0xd0, 0xd0, 0xd6, 0xe0, 0xe1,
        0x21, 0x29,
    ]
}

/// The parameters of each ST7789 initialisation command, in order.
pub open spec fn st7789_init_data() -> Seq<Seq<u8>> {
    seq![
        seq![],
        seq![0x70u8],
        seq![0x05u8],
        seq![0x0cu8, 0x0c, 0x00, 0x33, 0x33],
        seq![0x00u8],
        seq![0x3fu8],
        seq![0x2cu8],
        seq![0x01u8],
        seq![0x0du8],
        seq![0x0fu8],
        seq![0xa7u8],
        seq![0xa4u8, 0xa1],
        seq![0xa1u8],
        seq![0xf0u8, 0x00, 0x02, 0x01, 0x00, 0x00, 0x27, 0x43, 0x3f, 0x33, 0x0e, 0x0e, 0x26, 0x2e],
        seq![0xf0u8, 0x07, 0x0d, 0x0d, 0x0b, 0x16, 0x26, 0x43, 0x3e, 0x3f, 0x19, 0x19, 0x31, 0x3a],
        seq![],
        seq![],
    ]
}

/// The delay after each ST7789 initialisation command, in milliseconds:
/// 120 after sleep out, 20 after display on, none otherwise.
pub open spec fn st7789_init_delay(i: int) -> u64 {
    if i == 0 {
        120
    } else if i == 16 {
        20
    } else {
        0
    }
}

/// The ST7789 initialisation: sleep out, memory access control, RGB565
/// pixels, porch, gate, VCOM, LCM, VDV/VRH, frame rate, power, gamma,
/// inversion on, display on.
pub fn st7789_init_steps() -> (r: [InitStep; 17])
    ensures
        forall|i: int|
            #![trigger r@[i]]
            0 <= i < 17 ==> {
                &&& r@[i].command == st7789_init_commands()[i]
                &&& r@[i].data@ == st7789_init_data()[i]
                &&& r@[i].delay_ms == st7789_init_delay(i)
            },
{
    let r = [
        InitStep { command: 0x11, data: &[], delay_ms: 120 },
        InitStep { command: 0x36, data: &[0x70], delay_ms: 0 },
        InitStep { command: 0x3a, data: &[0x05], delay_ms: 0 },
        InitStep { command: 0xb2, data: &[0x0c, 0x0c, 0x00, 0x33, 0x33], delay_ms: 0 },
        InitStep { command: 0xb7, data: &[0x00], delay_ms: 0 },
        InitStep { command: 0xbb, data: &[0x3f], delay_ms: 0 },
        InitStep { command: 0xc0, data: &[0x2c], delay_ms: 0 },
        InitStep { command: 0xc2, data: &[0x01], delay_ms: 0 },
        InitStep { command: 0xc3, data: &[0x0d], delay_ms: 0 },
        InitStep { command: 0xc6, data: &[0x0f], delay_ms: 0 },
        InitStep { command: 0xd0, data: &[0xa7], delay_ms: 0 },
        InitStep { command: 0xd0, data: &[0xa4, 0xa1], delay_ms: 0 },
        InitStep { command: 0xd6, data: &[0xa1], delay_ms: 0 },
        InitStep {
            command: 0xe0,
            data: &[0xf0, 0x00, 0x02, 0x01, 0x00, 0x00, 0x27, 0x43, 0x3f, 0x33, 0x0e, 0x0e, 0x26, 0x2e],
            delay_ms: 0,
        },
        InitStep {
            command: 0xe1,
            data: &[0xf0, 0x07, 0x0d, 0x0d, 0x0b, 0x16, 0x26, 0x43, 0x3e, 0x3f, 0x19, 0x19, 0x31, 0x3a],
            delay_ms: 0,
        },
        InitStep { command: 0x21, data: &[], delay_ms: 0 },
        InitStep { command: 0x29, data: &[], delay_ms: 20 },
    ];
    r
}

/// The ST7789 initialisation, step by step: the seventeen commands, their
/// parameters, and the delays after sleep out and display on.
pub proof fn lemma_st7789_init_sequence()
    ensures
        st7789_init_commands() == seq![
            0x11u8, 0x36u8, 0x3au8, 0xb2u8, 0xb7u8, 0xbbu8, 0xc0u8, 0xc2u8, 0xc3u8, 0xc6u8,
            0xd0u8, 0xd0u8, 0xd6u8, 0xe0u8, 0xe1u8, 0x21u8, 0x29u8,
        ],
        st7789_init_data() == seq![
            Seq::<u8>::empty(),
            seq![0x70u8],
            seq![0x05u8],
            seq![0x0cu8, 0x0cu8, 0x00u8, 0x33u8, 0x33u8],
            seq![0x00u8],
            seq![0x3fu8],
            seq![0x2cu8],
            seq![0x01u8],
            seq![0x0du8],
            seq![0x0fu8],
            seq![0xa7u8],
            seq![0xa4u8, 0xa1u8],
            seq![0xa1u8],
            seq![
                0xf0u8, 0x00u8, 0x02u8, 0x01u8, 0x00u8, 0x00u8, 0x27u8, 0x43u8, 0x3fu8, 0x33u8,
                0x0eu8, 0x0eu8, 0x26u8, 0x2eu8,
            ],
            seq![
                0xf0u8, 0x07u8, 0x0du8, 0x0du8, 0x0bu8, 0x16u8, 0x26u8, 0x43u8, 0x3eu8, 0x3fu8,
                0x19u8, 0x19u8, 0x31u8, 0x3au8,
            ],
            Seq::<u8>::empty(),
            Seq::<u8>::empty(),
        ],
        st7789_init_delay(0) == 120,
        st7789_init_delay(16) == 20,
        forall|i: int| 0 < i < 16 ==> st7789_init_delay(i) == 0,
{
}

/// The initialisation selects the pixel format that the ST7789's native
/// frames use: the one interface pixel format command (0x3a, COLMOD)
/// carries exactly 0x05, 16-bit RGB565, and the native format stores an
/// RGB565 pixel in two bytes.
pub proof fn lemma_st7789_init_selects_rgb565()
    ensures
        forall|i: int|
            0 <= i < 17 && #[trigger] st7789_init_commands()[i] == 0x3a ==> i == 2
                && st7789_init_data()[i] == seq![0x05u8],
        Backend::St7789Spi.spec_native_format().pixel_format is Rgb565Be,
        Backend::St7789Spi.spec_native_format().stride == 2 * Backend::St7789Spi.spec_native_format().width,
{
    assert(st7789_init_data()[2] =~= seq![0x05u8]);
}

/// The high byte of a 16-bit value.
pub open spec fn hi(v: u16) -> u8 {
    (v >> 8u16) as u8
}

/// The low byte of a 16-bit value.
pub open spec fn lo(v: u16) -> u8 {
    v as u8
}

/// The ST7789 column and row address windows (start and end, big-endian)
/// of a `width` x `height` rectangle at (x, y).
pub fn st7789_window(x: u16, y: u16, width: u16, height: u16) -> (r: ([u8; 4], [u8; 4]))
    requires
        1 <= x + width <= u16::MAX,
        1 <= y + height <= u16::MAX,
    ensures
        ({
            let x_end = (x + width - 1) as u16;
            let y_end = (y + height - 1) as u16;
            &&& r.0@ == seq![hi(x), lo(x), hi(x_end), lo(x_end)]
            &&& r.1@ == seq![hi(y), lo(y), hi(y_end), lo(y_end)]
        }),
{
    let x_end = x + width - 1;
    let y_end = y + height - 1;
    let column = [(x >> 8u16) as u8, x as u8, (x_end >> 8u16) as u8, x_end as u8];
    let row = [(y >> 8u16) as u8, y as u8, (y_end >> 8u16) as u8, y_end as u8];
    proof {
        assert(column@ =~= seq![hi(x), lo(x), hi(x_end), lo(x_end)]);
        assert(row@ =~= seq![hi(y), lo(y), hi(y_end), lo(y_end)]);
    }
    (column, row)
}

/// Whether `rect` is a nonempty update of the monochrome native frame made
/// of whole eight-row pages.
pub open spec fn is_oled_rect(rect: UpdateRect) -> bool {
    &&& 1 <= rect.width
    &&& rect.x + rect.width <= 128
    &&& rect.y % 8 == 0
    &&& rect.height % 8 == 0
    &&& 8 <= rect.height
    &&& rect.y + rect.height <= 64
}

/// The SSD1306 command message that addresses the columns and pages of
/// `rect` (horizontal addressing mode).
pub fn ssd1306_address(rect: UpdateRect) -> (r: [u8; 7])
    requires
        is_oled_rect(rect),
    ensures
        r@ == seq![
            0x00u8,
            0x21,
            rect.x as u8,
            (rect.x + rect.width - 1) as u8,
            0x22,
            (rect.y / 8) as u8,
            ((rect.y + rect.height) / 8 - 1) as u8,
        ],
{
    let r = [
        0x00,
        0x21,
        rect.x as u8,
        (rect.x + rect.width - 1) as u8,
        0x22,
        (rect.y / 8) as u8,
        ((rect.y + rect.height) / 8 - 1) as u8,
    ];
    proof {
        assert(r@ =~= seq![
            0x00u8,
            0x21,
            rect.x as u8,
            (rect.x + rect.width - 1) as u8,
            0x22,
            (rect.y / 8) as u8,
            ((rect.y + rect.height) / 8 - 1) as u8,
        ]);
    }
    r
}

/// The SH1106 RAM column of native column `x`: the 128-pixel panel starts
/// at column 2 of the controller's 132 columns.
pub open spec fn sh1106_column(x: int) -> int {
    x + 2
}

/// The SH1106 command message that selects `page` and native column `x`.
pub fn sh1106_page_address(page: usize, x: usize) -> (r: [u8; 4])
    requires
        page < 8,
        x < 128,
    ensures
        r@ == seq![
            0x00u8,
            (0xb0 + page) as u8,
            (sh1106_column(x as int) % 16) as u8,
            (0x10 + sh1106_column(x as int) / 16) as u8,
        ],
{
    let column = x + 2;
    let r = [0x00, (0xb0 + page) as u8, (column % 16) as u8, (0x10 + column / 16) as u8];
    proof {
        assert(r@ =~= seq![
            0x00u8,
            (0xb0 + page) as u8,
            (sh1106_column(x as int) % 16) as u8,
            (0x10 + sh1106_column(x as int) / 16) as u8,
        ]);
    }
    r
}

/// The SSD1306 data message of an update: a data control byte, then the
/// bytes of `rect`'s columns, page by page.
pub fn ssd1306_update_message(frame: &[u8], rect: UpdateRect) -> (r: Vec<u8>)
    requires
        frame@.len() == 1024,
        is_oled_rect(rect),
    ensures
        r@.len() == 1 + rect.width * (rect.height / 8),
        r@[0] == 0x40u8,
        forall|k: int, j: int|
            0 <= k < rect.height / 8 && 0 <= j < rect.width ==> #[trigger] r@[1 + k * rect.width + j]
                == frame@[(rect.y / 8 + k) * 128 + rect.x + j],
{
    let first_page = rect.y / 8;
    let pages = rect.height / 8;
    let mut message: Vec<u8> = Vec::new();
    message.push(0x40);
    let mut k: usize = 0;
    while k < pages
        invariant
            frame@.len() == 1024,
            is_oled_rect(rect),
            first_page == rect.y / 8,
            pages == rect.height / 8,
            0 <= k <= pages,
            message@.len() == 1 + k * rect.width,
            message@[0] == 0x40u8,
            forall|k2: int, j: int|
                0 <= k2 < k && 0 <= j < rect.width ==> #[trigger] message@[1 + k2 * rect.width + j]
                    == frame@[(first_page + k2) * 128 + rect.x + j],
        decreases pages - k,
    {
        let offset = (first_page + k) * 128 + rect.x;
        let mut j: usize = 0;
        while j < rect.width
            invariant
                frame@.len() == 1024,
                is_oled_rect(rect),
                first_page == rect.y / 8,
                pages == rect.height / 8,
                k < pages,
                offset == (first_page + k) * 128 + rect.x,
                0 <= j <= rect.width,
                message@.len() == 1 + k * rect.width + j,
                message@[0] == 0x40u8,
                forall|k2: int, j2: int|
                    0 <= k2 < k && 0 <= j2 < rect.width ==> #[trigger] message@[1 + k2 * rect.width
                        + j2] == frame@[(first_page + k2) * 128 + rect.x + j2],
                forall|j2: int|
                    0 <= j2 < j ==> #[trigger] message@[1 + k * rect.width + j2] == frame@[offset
                        + j2],
            decreases rect.width - j,
        {
            let ghost before = message@;
            message.push(frame[offset + j]);
            proof {
                assert forall|k2: int, j2: int|
                    0 <= k2 < k && 0 <= j2 < rect.width implies #[trigger] message@[1 + k2
                    * rect.width + j2] == frame@[(first_page + k2) * 128 + rect.x + j2] by {
                    assert(k2 * rect.width + j2 < k * rect.width) by (nonlinear_arith)
                        requires
                            k2 < k,
                            j2 < rect.width,
                    ;
                    assert(before[1 + k2 * rect.width + j2] == message@[1 + k2 * rect.width + j2]);
                }
            }
            j = j + 1;
        }
        proof {
            assert((k + 1) * rect.width == k * rect.width + rect.width) by (nonlinear_arith);
            assert forall|k2: int, j2: int|
                0 <= k2 < k + 1 && 0 <= j2 < rect.width implies #[trigger] message@[1 + k2
                * rect.width + j2] == frame@[(first_page + k2) * 128 + rect.x + j2] by {
                if k2 < k {
                    assert(k2 * rect.width + j2 < k * rect.width) by (nonlinear_arith)
                        requires
                            k2 < k,
                            j2 < rect.width,
                    ;
                }
            }
        }
        k = k + 1;
    }
    proof {
        assert(pages * rect.width == rect.width * pages) by (nonlinear_arith);
    }
    message
}

/// The SH1106 data message of one page of an update: a data control byte,
/// then the `width` bytes of `page` from native column `x`.
pub fn sh1106_page_message(frame: &[u8], page: usize, x: usize, width: usize) -> (r: Vec<u8>)
    requires
        frame@.len() == 1024,
        page < 8,
        x + width <= 128,
    ensures
        r@ == seq![0x40u8] + frame@.subrange(page * 128 + x, page * 128 + x + width),
{
    let offset = page * 128 + x;
    let mut message: Vec<u8> = Vec::new();
    message.push(0x40);
    let mut j: usize = 0;
    while j < width
        invariant
            frame@.len() == 1024,
            offset == page * 128 + x,
            offset + width <= 1024,
            0 <= j <= width,
            message@ == seq![0x40u8] + frame@.subrange(offset as int, offset + j),
        decreases width - j,
    {
        message.push(frame[offset + j]);
        j = j + 1;
        proof {
            assert(message@ =~= seq![0x40u8] + frame@.subrange(offset as int, offset + j));
        }
    }
    message
}

/// The bytes of row `y` of an ST7789 update rectangle in a native frame.
pub fn st7789_row(frame: &[u8], rect: UpdateRect, y: usize) -> (r: &[u8])
    requires
        frame@.len() == 115200,
        rect.x + rect.width <= 240,
        y < 240,
    ensures
        r@ == frame@.subrange((y * 240 + rect.x) * 2, (y * 240 + rect.x + rect.width) * 2),
{
    let start = (y * 240 + rect.x) * 2;
    let end = start + rect.width * 2;
    &frame[start..end]
}

/// The GPIO line values (bits, mask) that drive control line `index`
/// active or inactive; an error when the backend has no such line.
pub fn control_line_values(backend: Backend, index: usize, active: bool) -> (r: Result<
    (u64, u64),
    DisplayError,
>)
    ensures
        index >= backend.spec_control_line_count() ==> r == Err::<(u64, u64), DisplayError>(
            DisplayError::InvalidArgument,
        ),
        index < backend.spec_control_line_count() ==> r == Ok::<(u64, u64), DisplayError>(
            (if active {
                1u64 << index
            } else {
                0u64
            }, 1u64 << index),
        ),
{
    if index >= backend.control_line_count() {
        return Err(DisplayError::InvalidArgument);
    }
    let mask: u64 = 1u64 << index;
    let bits: u64 = if active {
        mask
    } else {
        0
    };
    Ok((bits, mask))
}

/// Splits an OLED message for the SH1106 on SPI, where the D/C line
/// replaces the control byte: whether D/C is high (data) and the payload.
/// An error when the message is shorter than two bytes or its control byte
/// is neither command (0x00) nor data (0x40).
pub fn spi_oled_message(message: &[u8]) -> (r: Result<(bool, &[u8]), DisplayError>)
    ensures
        (message@.len() < 2 || (message@[0] != 0x00 && message@[0] != 0x40)) ==> r is Err,
        !(message@.len() < 2 || (message@[0] != 0x00 && message@[0] != 0x40)) ==> (r matches Ok(
            (data, payload),
        ) && data == (message@[0] == 0x40) && payload@ == message@.subrange(1, message@.len() as int)),
{
    if message.len() < 2 || (message[0] != 0x00 && message[0] != 0x40) {
        return Err(DisplayError::InvalidArgument);
    }
    let data = message[0] == 0x40;
    Ok((data, &message[1..message.len()]))
}

} // verus!
