//! Physical display backends for Linux workers: frame formats, pixel
//! conversion into the controllers' native layouts, change tracking between
//! native frames, controller command sequences, and activity-indicator
//! scheduling.
pub mod backend;
pub mod changes;
pub mod commands;
pub mod converter;
pub mod encode;
pub mod engine;
pub mod engine_laws;
pub mod error;
pub mod format;
pub mod indicator;
pub mod schedule;
pub mod schedule_laws;

pub use backend::{
    Backend, BusSettings, OLED_I2C_ADDRESS, SH1106_SPI_SPEED_HZ, ST7789_SPI_SPEED_HZ,
};
pub use commands::{
    control_line_values, sh1106_page_address, sh1106_page_message, spi_oled_message,
    ssd1306_address, ssd1306_update_message, st7789_init_steps, st7789_row, st7789_window,
    InitStep, SH1106_DISPLAY_ON, SH1106_INIT, SSD1306_ADDRESS, SSD1306_INIT,
};
pub use converter::{DisplayConverter, UpdateRect};
pub use encode::{encode_mono1_frame, encode_rgb565_frame, fit_rect, set_mono1_pixel};
pub use engine::{clock_reading, Engine, IndicatorRenderer};
pub use error::DisplayError;
pub use format::{
    FrameFormat, PixelFormat, MAX_DIMENSION, MONO1_FRAME_HEIGHT, MONO1_FRAME_SIZE,
    MONO1_FRAME_STRIDE, MONO1_FRAME_WIDTH, ST7789_FRAMEBUFFER_SIZE, ST7789_PANEL_HEIGHT,
    ST7789_PANEL_WIDTH,
};
pub use indicator::{
    validate_cadence, validate_policy, BlinkCount, Cadence, IdlePolicy, Policy, PolicyError,
};
pub use schedule::{IndicatorState, Mode};
