use texdec::error::TexError;
use texdec::pixel::convert_pixel;
use texdec::reader::Reader;

#[test]
fn pixel_rgba8888_passthrough() {
    let data = [10u8, 20, 30, 40, 50, 60, 70, 80];
    let mut r = Reader::new(&data);
    assert_eq!(convert_pixel(&mut r, 0).unwrap(), [10, 20, 30, 40]);
    assert_eq!(convert_pixel(&mut r, 1).unwrap(), [50, 60, 70, 80]);
    assert_eq!(r.len(), 0);
}

#[test]
fn pixel_rgba4444() {
    let data = [0x34u8, 0x12];
    let mut r = Reader::new(&data);
    assert_eq!(convert_pixel(&mut r, 2).unwrap(), [16, 32, 48, 64]);
}

#[test]
fn pixel_rgba5551() {
    let data = [0xFFu8, 0xFF];
    let mut r = Reader::new(&data);
    assert_eq!(convert_pixel(&mut r, 3).unwrap(), [248, 248, 248, 128]);
}

#[test]
fn pixel_rgb565_opaque() {
    let data = [0xFFu8, 0xFF];
    let mut r = Reader::new(&data);
    assert_eq!(convert_pixel(&mut r, 4).unwrap(), [248, 252, 248, 255]);
}

#[test]
fn pixel_la88() {
    let data = [0x34u8, 0x12];
    let mut r = Reader::new(&data);
    assert_eq!(convert_pixel(&mut r, 6).unwrap(), [18, 18, 18, 52]);
}

#[test]
fn pixel_l8() {
    let data = [0x7Fu8];
    let mut r = Reader::new(&data);
    assert_eq!(convert_pixel(&mut r, 10).unwrap(), [127, 127, 127, 127]);
}

#[test]
fn pixel_unknown_code() {
    let data = [1u8, 2, 3, 4];
    let mut r = Reader::new(&data);
    let e = convert_pixel(&mut r, 5);
    assert!(matches!(e, Err(TexError::UnknownPixel(5))));
    assert_eq!(r.len(), 4);
}

#[test]
fn pixel_truncated_reads_zero_fill() {
    let data = [5u8, 6];
    let mut r = Reader::new(&data);
    assert_eq!(convert_pixel(&mut r, 0).unwrap(), [5, 6, 0, 0]);
    assert_eq!(r.len(), 0);
    let data2 = [7u8];
    let mut r2 = Reader::new(&data2);
    assert_eq!(convert_pixel(&mut r2, 2).unwrap(), [0, 0, 0, 0]);
    assert_eq!(r2.len(), 0);
}
