use fcg::image::{rgba, ImageBuffer};

#[test]
fn rgba_puts_red_in_the_lowest_byte() {
    assert_eq!(rgba(0x01, 0x02, 0x03, 0x04), 0x0403_0201);
    assert_eq!(rgba(0xff, 0, 0, 0), 0x0000_00ff);
    assert_eq!(rgba(0, 0, 0xff, 0), 0x00ff_0000);
}

#[test]
fn rgba_full_and_empty_channels() {
    // a channel of 1.0 encodes to 255, one of 0.0 to 0
    assert_eq!(rgba(255, 255, 255, 255), u32::MAX);
    assert_eq!(rgba(0, 0, 0, 255), 0xff00_0000);
    assert_eq!(rgba(0, 0, 0, 0), 0);
}

#[test]
fn new_buffer_is_zeroed() {
    let ib = ImageBuffer::new(4, 3);
    assert_eq!(ib.width(), 4);
    assert_eq!(ib.height(), 3);
    assert_eq!(ib.data().len(), 12);
    assert!(ib.data().iter().all(|&c| c == 0));
}

#[test]
fn empty_buffer() {
    let ib = ImageBuffer::new(0, 5);
    assert_eq!(ib.data().len(), 0);
}

#[test]
fn set_pixel_writes_row_major() {
    let mut ib = ImageBuffer::new(4, 3);
    ib.set_pixel(1, 2, 7);
    ib.set_pixel(3, 0, 9);
    assert_eq!(ib.data()[2 * 4 + 1], 7);
    assert_eq!(ib.data()[3], 9);
    assert_eq!(ib.pixel(1, 2), 7);
    assert_eq!(ib.pixel(3, 0), 9);
    assert_eq!(ib.pixel(0, 0), 0);
    assert_eq!(ib.data().iter().filter(|&&c| c != 0).count(), 2);
}

#[test]
fn set_pixel_overwrites() {
    let mut ib = ImageBuffer::new(2, 2);
    ib.set_pixel(1, 1, 5);
    ib.set_pixel(1, 1, 6);
    assert_eq!(ib.pixel(1, 1), 6);
}
