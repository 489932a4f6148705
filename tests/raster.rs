use raytracer::raster::{quantize_channel, render_frame, PixelBuffer};

#[test]
fn quantize_keeps_bytes() {
    assert_eq!(quantize_channel(0), 0);
    assert_eq!(quantize_channel(128), 128);
    assert_eq!(quantize_channel(255), 255);
}

#[test]
fn quantize_saturates() {
    assert_eq!(quantize_channel(-1), 0);
    assert_eq!(quantize_channel(i64::MIN), 0);
    assert_eq!(quantize_channel(256), 255);
    assert_eq!(quantize_channel(1000), 255);
    assert_eq!(quantize_channel(i64::MAX), 255);
}

#[test]
fn new_buffer_is_black() {
    let b = PixelBuffer::new(3, 2);
    assert_eq!(b.width(), 3);
    assert_eq!(b.height(), 2);
    assert_eq!(b.into_bytes(), vec![0u8; 18]);
}

#[test]
fn empty_buffer() {
    let b = PixelBuffer::new(0, 4);
    assert_eq!(b.into_bytes(), Vec::<u8>::new());
}

#[test]
fn put_then_get_pixel() {
    let mut b = PixelBuffer::new(3, 2);
    b.put_pixel(1, 1, [10, 20, 30]);
    assert_eq!(b.get_pixel(1, 1), [10, 20, 30]);
    assert_eq!(b.get_pixel(0, 1), [0, 0, 0]);
    assert_eq!(b.get_pixel(2, 1), [0, 0, 0]);
    assert_eq!(b.get_pixel(1, 0), [0, 0, 0]);
}

#[test]
fn put_pixel_writes_row_major() {
    let mut b = PixelBuffer::new(3, 2);
    b.put_pixel(2, 0, [1, 2, 3]);
    b.put_pixel(0, 1, [4, 5, 6]);
    let bytes = b.into_bytes();
    assert_eq!(&bytes[6..9], &[1, 2, 3]);
    assert_eq!(&bytes[9..12], &[4, 5, 6]);
    assert_eq!(bytes.iter().map(|&x| x as u32).sum::<u32>(), 21);
}

#[test]
fn put_pixel_overwrites() {
    let mut b = PixelBuffer::new(1, 1);
    b.put_pixel(0, 0, [9, 9, 9]);
    b.put_pixel(0, 0, [1, 2, 3]);
    assert_eq!(b.into_bytes(), vec![1, 2, 3]);
}

#[test]
fn render_frame_fills_every_pixel() {
    let b = render_frame(3, 2, |w, h| [w as u8, h as u8, 7]);
    assert_eq!(
        b.into_bytes(),
        vec![0, 0, 7, 1, 0, 7, 2, 0, 7, 0, 1, 7, 1, 1, 7, 2, 1, 7]
    );
}

#[test]
fn render_frame_is_reproducible() {
    let shade = |w: u32, h: u32| [(w * 31 + h * 7) as u8, (w ^ h) as u8, 200];
    let a = render_frame(17, 9, shade).into_bytes();
    let b = render_frame(17, 9, shade).into_bytes();
    assert_eq!(a, b);
}

#[test]
fn rendered_frame_has_three_bytes_per_pixel() {
    let bytes = render_frame(600, 4, |w, h| [(w % 256) as u8, h as u8, 1]).into_bytes();
    assert_eq!(bytes.len(), 3 * 600 * 4);
    assert_eq!(&bytes[3 * (2 * 600 + 599)..3 * (2 * 600 + 600)], &[(599 % 256) as u8, 2, 1]);
}
