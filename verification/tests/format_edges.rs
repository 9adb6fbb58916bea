use display_backends::{Backend, BusSettings, DisplayError, FrameFormat, PixelFormat};

#[test]
fn codes_decode_exactly_the_c_values() {
    assert_eq!(PixelFormat::try_from_u32(0), Ok(PixelFormat::Mono1MsbReversePage));
    assert_eq!(PixelFormat::try_from_u32(2), Ok(PixelFormat::Rgb565Be));
    assert_eq!(PixelFormat::try_from_u32(3), Err(DisplayError::InvalidArgument));
    assert_eq!(Backend::try_from_u32(3), Ok(Backend::St7789Spi));
    assert_eq!(Backend::try_from_u32(4), Err(DisplayError::InvalidArgument));
}

#[test]
fn invalid_argument_is_einval() {
    assert_eq!(DisplayError::InvalidArgument.raw_os_error(), 22);
}

#[test]
fn backend_names_and_buses() {
    assert_eq!(Backend::Ssd1306I2c.name(), "ssd1306-i2c");
    assert_eq!(Backend::Sh1106I2c.name(), "sh1106-i2c");
    assert_eq!(Backend::Sh1106Spi.name(), "sh1106-spi");
    assert_eq!(Backend::St7789Spi.name(), "st7789-spi");
    assert!(!Backend::Sh1106I2c.uses_spi());
    assert!(Backend::Sh1106Spi.uses_spi());
    assert_eq!(Backend::Ssd1306I2c.control_line_count(), 0);
}

#[test]
fn required_len_rejects_out_of_range_dimensions() {
    assert!(FrameFormat::new(PixelFormat::Mono8, 0, 3, 3).is_err());
    assert!(FrameFormat::new(PixelFormat::Mono8, 3, 0, 3).is_err());
    assert!(FrameFormat::new(PixelFormat::Mono8, 65_536, 1, 65_536).is_err());
    assert!(FrameFormat::new(PixelFormat::Mono8, 65_535, 65_535, 65_535).is_ok());
    let huge = FrameFormat {
        pixel_format: PixelFormat::Mono8,
        width: 1,
        height: 65_535,
        stride: usize::MAX / 2,
    };
    assert_eq!(huge.required_len(), Err(DisplayError::InvalidArgument));
    assert_eq!(
        FrameFormat::mono1_128x64().required_len(),
        Ok(1024)
    );
    assert_eq!(
        FrameFormat::rgb565_240x240().required_len(),
        Ok(115_200)
    );
}

#[test]
fn rgb565_and_gray_conversions_are_exact() {
    let format = FrameFormat::new(PixelFormat::Rgb565Be, 3, 1, 6).unwrap();
    let data = [0xff, 0xff, 0xf8, 0x00, 0x07, 0xe0];
    assert_eq!(format.intensity(&data, 0, 0), 255);
    assert_eq!(format.intensity(&data, 1, 0), 76);
    assert_eq!(format.intensity(&data, 2, 0), 149);
    assert_eq!(format.rgb565(&data, 1, 0), 0xf800);
    let gray = FrameFormat::new(PixelFormat::Mono8, 1, 1, 1).unwrap();
    assert_eq!(gray.rgb565(&[0xff], 0, 0), 0xffff);
    assert_eq!(gray.rgb565(&[0x80], 0, 0), 0x8410);
}

#[test]
fn pixels_in_stride_padding_are_readable() {
    let gray = FrameFormat::new(PixelFormat::Mono8, 2, 2, 4).unwrap();
    let data = [1, 2, 3, 4, 5, 6, 7, 8];
    assert_eq!(gray.intensity(&data, 3, 1), 8);
    let mono = FrameFormat::new(PixelFormat::Mono1MsbReversePage, 1, 8, 2).unwrap();
    // Column 1 lies in the padding byte, which comes first in reversed order.
    assert_eq!(mono.intensity(&[0x80, 0x00], 1, 0), 0xff);
    assert_eq!(mono.intensity(&[0x80, 0x00], 0, 0), 0x00);
}

#[test]
fn bus_settings_follow_the_controller() {
    assert_eq!(Backend::Ssd1306I2c.bus_settings(), BusSettings::I2c { address: 0x3c });
    assert_eq!(Backend::Sh1106I2c.bus_settings(), BusSettings::I2c { address: 0x3c });
    assert_eq!(Backend::Sh1106Spi.bus_settings(), BusSettings::Spi { speed_hz: 4_000_000 });
    assert_eq!(Backend::St7789Spi.bus_settings(), BusSettings::Spi { speed_hz: 62_500_000 });
}
