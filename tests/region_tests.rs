use mflm::color::rgb;
use mflm::region::{BufferError, PixelBlock, PixelBuffer, Rect};

fn at(buf: &PixelBuffer, x: u32, y: u32) -> u32 {
    buf.pixels()[(y * buf.width() + x) as usize]
}

#[test]
fn subview_inside_succeeds() {
    let buf = PixelBuffer::new(10, 8, 0);
    let r = buf.whole().subview(Rect { x: 2, y: 3, w: 8, h: 5 }).unwrap();
    assert_eq!(r.bounds(), (2, 3, 8, 5));
    let inner = r.subview(Rect { x: 1, y: 1, w: 2, h: 2 }).unwrap();
    assert_eq!(inner.bounds(), (3, 4, 2, 2));
}

#[test]
fn subview_outside_fails() {
    let buf = PixelBuffer::new(10, 8, 0);
    let whole = buf.whole();
    assert_eq!(whole.subview(Rect { x: 2, y: 0, w: 9, h: 1 }), Err(BufferError::OutOfBounds));
    assert_eq!(whole.subview(Rect { x: 0, y: 8, w: 1, h: 1 }), Err(BufferError::OutOfBounds));
    assert_eq!(whole.subview(Rect { x: u32::MAX, y: 0, w: 2, h: 1 }), Err(BufferError::OutOfBounds));
    let r = whole.subview(Rect { x: 5, y: 5, w: 3, h: 3 }).unwrap();
    assert_eq!(r.subview(Rect { x: 1, y: 1, w: 3, h: 1 }), Err(BufferError::OutOfBounds));
}

#[test]
fn offset_takes_the_rest() {
    let buf = PixelBuffer::new(10, 8, 0);
    let r = buf.whole().offset(4, 2).unwrap();
    assert_eq!(r.bounds(), (4, 2, 6, 6));
    assert_eq!(buf.whole().offset(11, 0), Err(BufferError::OutOfBounds));
    assert_eq!(buf.whole().offset(10, 8).unwrap().bounds(), (10, 8, 0, 0));
}

#[test]
fn fill_stays_inside_subview() {
    let mut buf = PixelBuffer::new(6, 5, 7);
    let r = buf.whole().subview(Rect { x: 1, y: 2, w: 3, h: 2 }).unwrap();
    buf.fill(&r, &rgb(1, 2, 3));
    for y in 0..5 {
        for x in 0..6 {
            let inside = (1..4).contains(&x) && (2..4).contains(&y);
            assert_eq!(at(&buf, x, y), if inside { 0xFF010203 } else { 7 }, "pixel {x},{y}");
        }
    }
}

#[test]
fn set_pixel_is_relative_and_checked() {
    let mut buf = PixelBuffer::new(4, 4, 0);
    let r = buf.whole().subview(Rect { x: 1, y: 1, w: 2, h: 2 }).unwrap();
    assert_eq!(buf.set_pixel(&r, (1, 0), &rgb(255, 0, 0)), Ok(()));
    assert_eq!(at(&buf, 2, 1), 0xFFFF0000);
    assert_eq!(buf.set_pixel(&r, (2, 0), &rgb(255, 0, 0)), Err(BufferError::OutOfBounds));
    assert_eq!(buf.blit_pixel(&r, (0, 2), 5), Err(BufferError::OutOfBounds));
    assert_eq!(buf.blit_pixel(&r, (0, 1), 0x12345678), Ok(()));
    assert_eq!(at(&buf, 1, 2), 0x12345678);
    assert_eq!(buf.pixels().iter().filter(|p| **p != 0).count(), 2);
}

#[test]
fn blit_block_clips_to_region_and_data() {
    let mut buf = PixelBuffer::new(5, 4, 0);
    let r = buf.whole().subview(Rect { x: 1, y: 1, w: 2, h: 2 }).unwrap();
    // 3 by 3 block, rows of 12 bytes; the last pixel's bytes are cut short.
    let mut data = Vec::new();
    for i in 0..9u8 {
        data.extend_from_slice(&[i, 0x10, 0x20, 0xFF]);
    }
    data.truncate(34);
    let block = PixelBlock { data, stride: 12, width: 3, height: 3 };
    buf.blit_block(&r, &block);
    assert_eq!(at(&buf, 1, 1), 0xFF201000);
    assert_eq!(at(&buf, 2, 1), 0xFF201001);
    assert_eq!(at(&buf, 1, 2), 0xFF201003);
    assert_eq!(at(&buf, 2, 2), 0xFF201004);
    assert_eq!(at(&buf, 3, 1), 0);
    assert_eq!(at(&buf, 1, 3), 0);
}

#[test]
fn blit_block_skips_pixels_past_the_data() {
    let mut buf = PixelBuffer::new(2, 1, 9);
    let r = buf.whole();
    let block = PixelBlock { data: vec![1, 2, 3, 4, 5, 6], stride: 8, width: 2, height: 1 };
    buf.blit_block(&r, &block);
    assert_eq!(at(&buf, 0, 0), 0x04030201);
    assert_eq!(at(&buf, 1, 0), 9);
}
