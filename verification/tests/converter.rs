use display_backends::{
    Backend, DisplayConverter, DisplayError, FrameFormat, PixelFormat, UpdateRect,
    MONO1_FRAME_SIZE, ST7789_FRAMEBUFFER_SIZE,
};

#[test]
fn first_frame_rewrites_the_whole_display() {
    let mut converter = DisplayConverter::new(Backend::Ssd1306I2c);
    let frame = [0_u8; MONO1_FRAME_SIZE];
    assert_eq!(
        converter.prepare_native(&frame),
        Ok(Some(UpdateRect { x: 0, y: 0, width: 128, height: 64 }))
    );
    let mut converter = DisplayConverter::new(Backend::St7789Spi);
    assert_eq!(
        converter.prepare_blank(),
        Some(UpdateRect { x: 0, y: 0, width: 240, height: 240 })
    );
}

#[test]
fn unchanged_frame_produces_no_update() {
    let mut converter = DisplayConverter::new(Backend::Sh1106Spi);
    let mut frame = [0_u8; MONO1_FRAME_SIZE];
    frame[300] = 0x55;
    converter.prepare_native(&frame).unwrap();
    converter.commit();
    assert_eq!(converter.prepare_native(&frame), Ok(None));
}

#[test]
fn oled_update_covers_changed_columns_and_pages() {
    let mut converter = DisplayConverter::new(Backend::Ssd1306I2c);
    let mut frame = [0_u8; MONO1_FRAME_SIZE];
    converter.prepare_native(&frame).unwrap();
    converter.commit();
    frame[2 * 128 + 10] = 1;
    frame[5 * 128 + 3] = 1;
    frame[3 * 128 + 40] = 1;
    assert_eq!(
        converter.prepare_native(&frame),
        Ok(Some(UpdateRect { x: 3, y: 16, width: 38, height: 32 }))
    );
    assert_eq!(converter.next_frame(), &frame[..]);
}

#[test]
fn st7789_update_is_the_changed_pixel_rectangle() {
    let mut converter = DisplayConverter::new(Backend::St7789Spi);
    let mut frame = vec![0_u8; ST7789_FRAMEBUFFER_SIZE];
    converter.prepare_native(&frame).unwrap();
    converter.commit();
    frame[(10 * 240 + 20) * 2 + 1] = 0xff;
    frame[(30 * 240 + 5) * 2] = 0x01;
    assert_eq!(
        converter.prepare_native(&frame),
        Ok(Some(UpdateRect { x: 5, y: 10, width: 16, height: 21 }))
    );
}

#[test]
fn interrupted_update_is_retried_against_the_last_good_frame() {
    let mut converter = DisplayConverter::new(Backend::Sh1106I2c);
    let blank = [0_u8; MONO1_FRAME_SIZE];
    converter.prepare_native(&blank).unwrap();
    converter.commit();
    let mut first = blank;
    first[0] = 1;
    converter.prepare_native(&first).unwrap();
    let mut second = blank;
    second[129] = 1;
    assert_eq!(
        converter.prepare_native(&second),
        Ok(Some(UpdateRect { x: 1, y: 8, width: 1, height: 8 }))
    );
}

#[test]
fn prepare_rejects_wrong_lengths_and_formats() {
    let mut converter = DisplayConverter::new(Backend::Ssd1306I2c);
    assert_eq!(
        converter.prepare_native(&[0_u8; 10]),
        Err(DisplayError::InvalidArgument)
    );
    let format = FrameFormat {
        pixel_format: PixelFormat::Mono8,
        width: 4,
        height: 3,
        stride: 3,
    };
    assert_eq!(
        converter.prepare_frame(&[0_u8; 9], format),
        Err(DisplayError::InvalidArgument)
    );
    let format = FrameFormat::new(PixelFormat::Mono8, 4, 3, 4).unwrap();
    assert_eq!(
        converter.prepare_frame(&[0_u8; 11], format),
        Err(DisplayError::InvalidArgument)
    );
}

#[test]
fn native_format_through_conversion_matches_native_path() {
    let mut frame = [0_u8; MONO1_FRAME_SIZE];
    for (index, byte) in frame.iter_mut().enumerate() {
        *byte = (index as u8).wrapping_mul(91);
    }
    let mut native = DisplayConverter::new(Backend::Ssd1306I2c);
    native.prepare_native(&frame).unwrap();
    let mut converted = DisplayConverter::new(Backend::Ssd1306I2c);
    converted
        .prepare_frame(&frame, FrameFormat::mono1_128x64())
        .unwrap();
    assert_eq!(native.next_frame(), converted.next_frame());

    let mut color = vec![0_u8; ST7789_FRAMEBUFFER_SIZE];
    for (index, byte) in color.iter_mut().enumerate() {
        *byte = (index as u8).wrapping_mul(13);
    }
    let mut converted = DisplayConverter::new(Backend::St7789Spi);
    converted
        .prepare_frame(&color, FrameFormat::rgb565_240x240())
        .unwrap();
    assert_eq!(converted.next_frame(), &color[..]);
}

#[test]
fn mono8_frame_is_thresholded_for_oled() {
    let format = FrameFormat::new(PixelFormat::Mono8, 128, 64, 128).unwrap();
    let mut source = vec![0_u8; 128 * 64];
    source[0] = 127;
    source[1] = 128;
    let mut converter = DisplayConverter::new(Backend::Sh1106Spi);
    converter.prepare_frame(&source, format).unwrap();
    let target = FrameFormat::mono1_128x64();
    assert_eq!(target.intensity(converter.next_frame(), 0, 0), 0x00);
    assert_eq!(target.intensity(converter.next_frame(), 1, 0), 0xff);
}
