use athena::display::{pixel_color, pixel_offset, Pixel, PixelFormat, PIXEL_SIZE};

#[test]
fn pixel_takes_four_bytes() {
    assert_eq!(PIXEL_SIZE, 4);
}

#[test]
fn offset_counts_rows_then_columns() {
    assert_eq!(pixel_offset(0, 0, 1024), Some(0));
    assert_eq!(pixel_offset(0, 3, 1024), Some(12));
    assert_eq!(pixel_offset(2, 3, 1024), Some((2 * 1024 + 3) * 4));
    assert_eq!(pixel_offset(767, 1023, 1024), Some((767 * 1024 + 1023) * 4));
}

#[test]
fn offset_that_does_not_fit_is_refused() {
    assert_eq!(pixel_offset(usize::MAX, 0, 2), None);
    assert_eq!(pixel_offset(1, usize::MAX, 1), None);
    assert_eq!(pixel_offset(usize::MAX / 4 + 1, 0, 1), None);
    assert_eq!(pixel_offset(usize::MAX / 4, 0, 1), Some(usize::MAX / 4 * 4));
}

#[test]
fn rgb_has_red_lowest() {
    let pixel = Pixel { red: 0x11, green: 0x22, blue: 0x33 };
    assert_eq!(pixel_color(pixel, PixelFormat::Rgb), 0x0033_2211);
}

#[test]
fn bgr_has_blue_lowest() {
    let pixel = Pixel { red: 0x11, green: 0x22, blue: 0x33 };
    assert_eq!(pixel_color(pixel, PixelFormat::Bgr), 0x0011_2233);
}

#[test]
fn colour_extremes() {
    let white = Pixel { red: 0xff, green: 0xff, blue: 0xff };
    let black = Pixel { red: 0, green: 0, blue: 0 };
    assert_eq!(pixel_color(white, PixelFormat::Rgb), 0x00ff_ffff);
    assert_eq!(pixel_color(white, PixelFormat::Bgr), 0x00ff_ffff);
    assert_eq!(pixel_color(black, PixelFormat::Rgb), 0);
    assert_eq!(pixel_color(Pixel { red: 0xff, green: 0, blue: 0 }, PixelFormat::Rgb), 0xff);
    assert_eq!(pixel_color(Pixel { red: 0xff, green: 0, blue: 0 }, PixelFormat::Bgr), 0xff_0000);
}
