use display_backends::{
    control_line_values, fit_rect, set_mono1_pixel, sh1106_page_address, sh1106_page_message,
    spi_oled_message, ssd1306_address, ssd1306_update_message, st7789_row, Backend,
    DisplayError, FrameFormat, PixelFormat, UpdateRect, MONO1_FRAME_SIZE, SSD1306_ADDRESS,
};

#[test]
fn ssd1306_full_address_matches_the_constant() {
    let rect = UpdateRect { x: 0, y: 0, width: 128, height: 64 };
    assert_eq!(ssd1306_address(rect), SSD1306_ADDRESS);
    let rect = UpdateRect { x: 3, y: 16, width: 38, height: 32 };
    assert_eq!(ssd1306_address(rect), [0x00, 0x21, 3, 40, 0x22, 2, 5]);
}

#[test]
fn sh1106_page_address_adds_the_column_offset() {
    assert_eq!(sh1106_page_address(0, 0), [0x00, 0xb0, 0x02, 0x10]);
    assert_eq!(sh1106_page_address(7, 127), [0x00, 0xb7, 0x01, 0x18]);
}

#[test]
fn oled_messages_carry_the_rectangle_bytes() {
    let mut frame = [0_u8; MONO1_FRAME_SIZE];
    for (index, byte) in frame.iter_mut().enumerate() {
        *byte = (index % 251) as u8;
    }
    let rect = UpdateRect { x: 5, y: 8, width: 3, height: 16 };
    let message = ssd1306_update_message(&frame, rect);
    assert_eq!(
        message,
        vec![0x40, frame[133], frame[134], frame[135], frame[261], frame[262], frame[263]]
    );
    let page = sh1106_page_message(&frame, 2, 5, 3);
    assert_eq!(page, vec![0x40, frame[261], frame[262], frame[263]]);
}

#[test]
fn st7789_row_selects_the_rectangle_bytes() {
    let frame: Vec<u8> = (0..115_200_u32).map(|value| value as u8).collect();
    let rect = UpdateRect { x: 2, y: 0, width: 3, height: 1 };
    assert_eq!(st7789_row(&frame, rect, 1), &frame[(240 + 2) * 2..(240 + 5) * 2]);
}

#[test]
fn control_lines_are_bounded_by_the_backend() {
    assert_eq!(
        control_line_values(Backend::Ssd1306I2c, 0, true),
        Err(DisplayError::InvalidArgument)
    );
    assert_eq!(control_line_values(Backend::St7789Spi, 2, true), Ok((4, 4)));
    assert_eq!(control_line_values(Backend::St7789Spi, 1, false), Ok((0, 2)));
    assert_eq!(
        control_line_values(Backend::Sh1106Spi, 2, true),
        Err(DisplayError::InvalidArgument)
    );
}

#[test]
fn spi_oled_messages_need_a_control_byte_and_payload() {
    assert_eq!(spi_oled_message(&[0x40, 1, 2]), Ok((true, &[1_u8, 2][..])));
    assert_eq!(spi_oled_message(&[0x00, 0xae]), Ok((false, &[0xae_u8][..])));
    assert!(spi_oled_message(&[0x40]).is_err());
    assert!(spi_oled_message(&[0x80, 1]).is_err());
}

#[test]
fn fit_rect_letterboxes_and_pillarboxes() {
    assert_eq!(fit_rect(240, 240, 128, 64), (32, 0, 64, 64));
    assert_eq!(fit_rect(2, 1, 2, 1), (0, 0, 2, 1));
    assert_eq!(fit_rect(1000, 1, 10, 10), (0, 4, 10, 1));
    assert_eq!(fit_rect(0, 5, 10, 10), (4, 0, 1, 10));
    assert_eq!(fit_rect(5, 0, 10, 10), (0, 4, 10, 1));
    let (x, y, width, height) = fit_rect(3, 7, 100, 50);
    assert!(x + width <= 100 && y + height <= 50);
    assert_eq!(height, 50);
}

#[test]
fn set_mono1_pixel_reads_back_and_ignores_bad_targets() {
    let format = FrameFormat::mono1_128x64();
    let mut frame = [0_u8; MONO1_FRAME_SIZE];
    set_mono1_pixel(&mut frame, format, 5, 9, true);
    assert_eq!(format.intensity(&frame, 5, 9), 0xff);
    assert_eq!(format.intensity(&frame, 5, 8), 0x00);
    assert_eq!(frame.iter().filter(|byte| **byte != 0).count(), 1);
    set_mono1_pixel(&mut frame, format, 5, 9, false);
    assert_eq!(frame, [0_u8; MONO1_FRAME_SIZE]);
    set_mono1_pixel(&mut frame, format, 128, 0, true);
    set_mono1_pixel(&mut frame[..10], format, 0, 0, true);
    let mono8 = FrameFormat::new(PixelFormat::Mono8, 128, 64, 128).unwrap();
    set_mono1_pixel(&mut frame, mono8, 0, 0, true);
    assert_eq!(frame, [0_u8; MONO1_FRAME_SIZE]);
}
