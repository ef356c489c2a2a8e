use databend::pixel::PixelBuffer;
use databend::pixel::PixelFormat;

fn rgba(width: u32, height: u32, data: Vec<u8>) -> PixelBuffer {
    PixelBuffer::from_raw(width, height, PixelFormat::Rgba, data).unwrap()
}

#[test]
fn from_raw_checks_the_length() {
    assert!(PixelBuffer::from_raw(2, 2, PixelFormat::Rgba, vec![0u8; 16]).is_some());
    assert!(PixelBuffer::from_raw(2, 2, PixelFormat::Rgba, vec![0u8; 15]).is_none());
    assert!(PixelBuffer::from_raw(2, 2, PixelFormat::Rgba, vec![0u8; 17]).is_none());
    assert!(PixelBuffer::from_raw(2, 2, PixelFormat::Rgb, vec![0u8; 12]).is_some());
    assert!(PixelBuffer::from_raw(2, 2, PixelFormat::Rgb, vec![0u8; 16]).is_none());
}

#[test]
fn from_raw_takes_an_image_without_pixels() {
    let empty = PixelBuffer::from_raw(0, 7, PixelFormat::Rgba, Vec::new()).unwrap();
    assert_eq!(empty.len(), 0);
    assert_eq!(empty.width(), 0);
    assert_eq!(empty.height(), 7);
    assert!(PixelBuffer::from_raw(0, 7, PixelFormat::Rgba, vec![0u8; 4]).is_none());
}

#[test]
fn from_raw_does_not_wrap_around_on_huge_dimensions() {
    // 65536 * 65536 * 4 is a multiple of 2^32 and of 2^34.
    assert!(PixelBuffer::from_raw(65536, 65536, PixelFormat::Rgba, Vec::new()).is_none());
    assert!(PixelBuffer::from_raw(u32::MAX, u32::MAX, PixelFormat::Rgba, vec![0u8; 4]).is_none());
}

#[test]
fn getters_report_what_was_given() {
    let image = rgba(2, 1, vec![1, 2, 3, 4, 5, 6, 7, 8]);
    assert_eq!(image.width(), 2);
    assert_eq!(image.height(), 1);
    assert_eq!(image.format(), PixelFormat::Rgba);
    assert!(image.is_rgba());
    assert_eq!(image.len(), 8);
    assert_eq!(image.byte(5), 6);
    assert_eq!(image.data(), &vec![1, 2, 3, 4, 5, 6, 7, 8]);
    assert_eq!(image.into_raw(), vec![1, 2, 3, 4, 5, 6, 7, 8]);
}

#[test]
fn channel_count_is_three_or_four() {
    assert_eq!(PixelFormat::Rgb.channel_count(), 3);
    assert_eq!(PixelFormat::Rgba.channel_count(), 4);
}

#[test]
fn pixel_start_counts_rows_then_columns() {
    let image = rgba(3, 2, vec![0u8; 24]);
    assert_eq!(image.pixel_start(0, 0), 0);
    assert_eq!(image.pixel_start(2, 0), 8);
    assert_eq!(image.pixel_start(0, 1), 12);
    assert_eq!(image.pixel_start(2, 1), 20);
    let rgb = PixelBuffer::from_raw(3, 2, PixelFormat::Rgb, vec![0u8; 18]).unwrap();
    assert_eq!(rgb.pixel_start(1, 1), 12);
}

#[test]
fn put_overwrites_one_byte() {
    let mut image = rgba(1, 2, vec![1, 2, 3, 4, 5, 6, 7, 8]);
    image.put(6, 70);
    assert_eq!(image.data(), &vec![1, 2, 3, 4, 5, 6, 70, 8]);
    assert_eq!(image.width(), 1);
    assert_eq!(image.height(), 2);
}

#[test]
fn blank_like_is_all_zero_and_of_the_same_shape() {
    let image = rgba(2, 2, vec![9u8; 16]);
    let blank = image.blank_like();
    assert_eq!(blank.width(), 2);
    assert_eq!(blank.height(), 2);
    assert_eq!(blank.format(), PixelFormat::Rgba);
    assert_eq!(blank.data(), &vec![0u8; 16]);
    assert_eq!(image.data(), &vec![9u8; 16]);
}

#[test]
fn with_data_keeps_the_shape() {
    let image = rgba(2, 1, vec![0u8; 8]);
    let other = image.with_data(vec![8, 7, 6, 5, 4, 3, 2, 1]);
    assert_eq!(other.width(), 2);
    assert_eq!(other.height(), 1);
    assert_eq!(other.format(), PixelFormat::Rgba);
    assert_eq!(other.data(), &vec![8, 7, 6, 5, 4, 3, 2, 1]);
}

#[test]
fn flatten_drops_every_fourth_byte() {
    let image = rgba(2, 1, vec![1, 2, 3, 4, 5, 6, 7, 8]);
    let flat = image.flatten();
    assert_eq!(flat.width(), 2);
    assert_eq!(flat.height(), 1);
    assert_eq!(flat.format(), PixelFormat::Rgb);
    assert_eq!(flat.data(), &vec![1, 2, 3, 5, 6, 7]);
}

#[test]
fn flatten_keeps_an_image_of_three_channels() {
    let image = PixelBuffer::from_raw(1, 2, PixelFormat::Rgb, vec![1, 2, 3, 4, 5, 6]).unwrap();
    let flat = image.flatten();
    assert_eq!(flat.format(), PixelFormat::Rgb);
    assert_eq!(flat.data(), &vec![1, 2, 3, 4, 5, 6]);
}

#[test]
fn flatten_of_nothing_is_nothing() {
    let image = rgba(0, 0, Vec::new());
    let flat = image.flatten();
    assert_eq!(flat.len(), 0);
    assert_eq!(flat.format(), PixelFormat::Rgb);
}

#[test]
fn reread_as_rgb_keeps_the_first_three_quarters() {
    let image = rgba(2, 1, vec![1, 2, 3, 4, 5, 6, 7, 8]);
    let reread = image.reread_as_rgb();
    assert_eq!(reread.width(), 2);
    assert_eq!(reread.height(), 1);
    assert_eq!(reread.format(), PixelFormat::Rgb);
    assert_eq!(reread.data(), &vec![1, 2, 3, 4, 5, 6]);
}
