use vstd::prelude::*;
use crate::error::DisplayError;
use crate::format::{FrameFormat, PixelFormat};

verus! {

/// The display controllers and buses that the library drives.
#[derive(Clone, Copy, Debug, PartialEq, Eq, Structural)]
pub enum Backend {
    Ssd1306I2c,
    Sh1106I2c,
    Sh1106Spi,
    St7789Spi,
}

/// The backend that the C interface encodes as `code`, if any.
pub open spec fn backend_of_code(code: u32) -> Option<Backend> {
    if code == 0 {
        Some(Backend::Ssd1306I2c)
    } else if code == 1 {
        Some(Backend::Sh1106I2c)
    } else if code == 2 {
        Some(Backend::Sh1106Spi)
    } else if code == 3 {
        Some(Backend::St7789Spi)
    } else {
        None
    }
}

/// The 7-bit I2C address of the SSD1306 and SH1106 controllers.
pub const OLED_I2C_ADDRESS: u16 = 0x3c;
/// The SPI clock of the SH1106 controller, in hertz.
pub const SH1106_SPI_SPEED_HZ: u32 = 4_000_000;
/// The SPI clock of the ST7789 controller, in hertz.
pub const ST7789_SPI_SPEED_HZ: u32 = 62_500_000;

/// How a controller's bus is set up.
#[derive(Clone, Copy, Debug, PartialEq, Eq, Structural)]
pub enum BusSettings {
    /// An I2C bus, talking to the device at `address`.
    I2c { address: u16 },
    /// An SPI bus (mode 0, eight-bit words, most significant bit first)
    /// clocked at `speed_hz`.
    Spi { speed_hz: u32 },
}

impl Backend {
    /// Whether the controller is driven through the packed monochrome
    /// native frame (the OLED panels).
    pub open spec fn is_mono(self) -> bool {
        !(self is St7789Spi)
    }

    /// The number of GPIO control lines, in the order
    /// reset (SH1106 I2C); D/C, reset (SH1106 SPI); D/C, reset, backlight (ST7789).
    pub open spec fn spec_control_line_count(self) -> nat {
        match self {
            Backend::Ssd1306I2c => 0,
            Backend::Sh1106I2c => 1,
            Backend::Sh1106Spi => 2,
            Backend::St7789Spi => 3,
        }
    }

    /// The format of the frames that the controller accepts without conversion.
    pub open spec fn spec_native_format(self) -> FrameFormat {
        if self.is_mono() {
            FrameFormat {
                pixel_format: PixelFormat::Mono1MsbReversePage,
                width: 128,
                height: 64,
                stride: 128,
            }
        } else {
            FrameFormat { pixel_format: PixelFormat::Rgb565Be, width: 240, height: 240, stride: 480 }
        }
    }

    /// The backend's name, as the demo and the logs spell it.
    pub fn name(self) -> (r: &'static str)
        ensures
            self is Ssd1306I2c ==> r@ == "ssd1306-i2c"@,
            self is Sh1106I2c ==> r@ == "sh1106-i2c"@,
            self is Sh1106Spi ==> r@ == "sh1106-spi"@,
            self is St7789Spi ==> r@ == "st7789-spi"@,
    {
        match self {
            Backend::Ssd1306I2c => "ssd1306-i2c",
            Backend::Sh1106I2c => "sh1106-i2c",
            Backend::Sh1106Spi => "sh1106-spi",
            Backend::St7789Spi => "st7789-spi",
        }
    }

    /// Whether the controller sits on an SPI bus (otherwise I2C).
    pub fn uses_spi(self) -> (r: bool)
        ensures
            r == (self is Sh1106Spi || self is St7789Spi),
    {
        match self {
            Backend::Sh1106Spi | Backend::St7789Spi => true,
            _ => false,
        }
    }

    /// The bus settings of the backend's controller: both OLED controllers
    /// answer at the same I2C address; the SPI clock is the controller's own.
    pub fn bus_settings(self) -> (r: BusSettings)
        ensures
            r == match self {
                Backend::Ssd1306I2c | Backend::Sh1106I2c => BusSettings::I2c {
                    address: OLED_I2C_ADDRESS,
                },
                Backend::Sh1106Spi => BusSettings::Spi { speed_hz: SH1106_SPI_SPEED_HZ },
                Backend::St7789Spi => BusSettings::Spi { speed_hz: ST7789_SPI_SPEED_HZ },
            },
    {
        match self {
            Backend::Ssd1306I2c | Backend::Sh1106I2c => BusSettings::I2c {
                address: OLED_I2C_ADDRESS,
            },
            Backend::Sh1106Spi => BusSettings::Spi { speed_hz: SH1106_SPI_SPEED_HZ },
            Backend::St7789Spi => BusSettings::Spi { speed_hz: ST7789_SPI_SPEED_HZ },
        }
    }

    /// The number of GPIO control lines that the backend needs.
    pub fn control_line_count(self) -> (r: usize)
        ensures
            r == self.spec_control_line_count(),
    {
        match self {
            Backend::Ssd1306I2c => 0,
            Backend::Sh1106I2c => 1,
            Backend::Sh1106Spi => 2,
            Backend::St7789Spi => 3,
        }
    }

    /// The format of the backend's native frames.
    pub fn native_format(self) -> (r: FrameFormat)
        ensures
            r == self.spec_native_format(),
            r.is_valid(),
    {
        match self {
            Backend::Ssd1306I2c | Backend::Sh1106I2c | Backend::Sh1106Spi => {
                FrameFormat::mono1_128x64()
            },
            Backend::St7789Spi => FrameFormat::rgb565_240x240(),
        }
    }

    /// Decodes the C interface's backend code.
    pub fn try_from_u32(value: u32) -> (r: Result<Backend, DisplayError>)
        ensures
            r == (match backend_of_code(value) {
                Some(b) => Ok(b),
                None => Err(DisplayError::InvalidArgument),
            }),
    {
        match value {
            0 => Ok(Backend::Ssd1306I2c),
            1 => Ok(Backend::Sh1106I2c),
            2 => Ok(Backend::Sh1106Spi),
            3 => Ok(Backend::St7789Spi),
            _ => Err(DisplayError::InvalidArgument),
        }
    }
}

} // verus!
