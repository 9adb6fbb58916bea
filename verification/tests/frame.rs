use display_backends::{
    encode_mono1_frame, encode_rgb565_frame, fit_rect, set_mono1_pixel, st7789_init_steps,
    st7789_window, Backend, FrameFormat, PixelFormat, MONO1_FRAME_SIZE, SH1106_DISPLAY_ON,
    SH1106_INIT, SSD1306_ADDRESS, SSD1306_INIT,
};

#[test]
fn backend_metadata_is_stable_for_the_c_abi() {
    assert_eq!(Backend::Ssd1306I2c as u32, 0);
    assert_eq!(Backend::Sh1106I2c.control_line_count(), 1);
    assert_eq!(Backend::Sh1106Spi.control_line_count(), 2);
    assert_eq!(Backend::St7789Spi.control_line_count(), 3);
    assert!(Backend::St7789Spi.uses_spi());
    assert_eq!(
        Backend::Ssd1306I2c.native_format(),
        FrameFormat::mono1_128x64()
    );
    assert_eq!(
        Backend::St7789Spi.native_format(),
        FrameFormat::rgb565_240x240()
    );
}

#[test]
fn st7789_window_matches_centered_128x64_input() {
    let (x, y, width, height) = fit_rect(128, 64, 240, 240);
    assert_eq!((x, y, width, height), (0, 60, 240, 120));
    let (column, row) = st7789_window(0, 60, 240, 120);
    assert_eq!(column, [0x00, 0x00, 0x00, 0xef]);
    assert_eq!(row, [0x00, 0x3c, 0x00, 0xb3]);
}

#[test]
fn st7789_conversion_preserves_source_pixels() {
    let format = FrameFormat::mono1_128x64();
    let mut source = [0_u8; MONO1_FRAME_SIZE];
    for y in 0..format.height {
        for x in 0..format.width {
            set_mono1_pixel(&mut source, format, x, y, ((x / 7) + (y / 5)) % 2 != 0);
        }
    }
    let mut output = [0_u8; 240 * 120 * 2];
    encode_rgb565_frame(&mut output, &source, format, 240, 120);
    for y in 0..120 {
        for x in 0..240 {
            let source_x = x * format.width / 240;
            let source_y = y * format.height / 120;
            let expected = if ((source_x / 7) + (source_y / 5)) % 2 != 0 {
                0xff
            } else {
                0x00
            };
            let index = (y * 240 + x) * 2;
            assert_eq!(&output[index..index + 2], &[expected, expected]);
        }
    }
}

#[test]
fn mono8_converts_to_rgb565_and_mono1() {
    let format = FrameFormat::new(PixelFormat::Mono8, 2, 1, 2).unwrap();
    let source = [0x00, 0x80];
    let mut color = [0_u8; 4];
    encode_rgb565_frame(&mut color, &source, format, 2, 1);
    assert_eq!(color, [0x00, 0x00, 0x84, 0x10]);

    let mut mono = [0_u8; MONO1_FRAME_SIZE];
    encode_mono1_frame(&mut mono, &source, format);
    let target = FrameFormat::mono1_128x64();
    assert_eq!(target.intensity(&mono, 0, 0), 0x00);
    assert_eq!(target.intensity(&mono, 127, 0), 0xff);
}

#[test]
fn native_rgb565_conversion_is_byte_exact() {
    let format = FrameFormat::new(PixelFormat::Rgb565Be, 2, 1, 4).unwrap();
    let source = [0xf8, 0x00, 0x00, 0x1f];
    let mut output = [0_u8; 4];
    encode_rgb565_frame(&mut output, &source, format, 2, 1);
    assert_eq!(output, source);

    let mut mono = [0_u8; MONO1_FRAME_SIZE];
    let grayscale = [0xff, 0xff, 0x00, 0x00];
    encode_mono1_frame(&mut mono, &grayscale, format);
    let target = FrameFormat::mono1_128x64();
    assert_eq!(target.intensity(&mono, 0, 0), 0xff);
    assert_eq!(target.intensity(&mono, 127, 0), 0x00);
}

#[test]
fn native_mono1_conversion_is_byte_exact() {
    let format = FrameFormat::mono1_128x64();
    let mut source = [0_u8; MONO1_FRAME_SIZE];
    for (index, byte) in source.iter_mut().enumerate() {
        *byte = (index as u8).wrapping_mul(37);
    }
    let mut output = [0_u8; MONO1_FRAME_SIZE];
    encode_mono1_frame(&mut output, &source, format);
    assert_eq!(output, source);
}

#[test]
fn frame_formats_validate_stride_and_length() {
    assert!(FrameFormat::new(PixelFormat::Mono8, 4, 3, 3).is_err());
    assert_eq!(
        FrameFormat::new(PixelFormat::Mono8, 4, 3, 6)
            .unwrap()
            .required_len()
            .unwrap(),
        18
    );
    assert_eq!(
        FrameFormat::new(PixelFormat::Mono1MsbReversePage, 4, 9, 4)
            .unwrap()
            .required_len()
            .unwrap(),
        8
    );
    assert!(FrameFormat::new(PixelFormat::Rgb565Be, 4, 3, 7).is_err());
    assert_eq!(
        FrameFormat::new(PixelFormat::Rgb565Be, 4, 3, 10)
            .unwrap()
            .required_len()
            .unwrap(),
        30
    );
}

#[test]
fn controller_sequences_remain_exact() {
    let st7789_init = st7789_init_steps();
    assert_eq!(SSD1306_INIT.len(), 26);
    assert_eq!(SSD1306_ADDRESS, [0x00, 0x21, 0x00, 0x7f, 0x22, 0x00, 0x07]);
    assert_eq!(SH1106_INIT.len(), 26);
    assert_eq!(SH1106_DISPLAY_ON, [0x00, 0xaf]);
    assert_eq!(st7789_init.len(), 17);
    assert_eq!(st7789_init[0].command, 0x11);
    assert_eq!(st7789_init[0].delay_ms, 120);
    assert_eq!(st7789_init[1].data, [0x70]);
    assert_eq!(st7789_init[16].command, 0x29);
}
