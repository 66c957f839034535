use bad_apple_flut::color::Color;
use bad_apple_flut::pixel::Pixel;
use bad_apple_flut::protocol::{pixels_to_cmds, Protocol};

#[test]
fn plaintext_byte_exact() {
    let mut buf: Vec<u8> = Vec::new();
    Protocol::Plaintext.encode(&mut buf, 0, 255, 0, 128, 5, 7);
    assert_eq!(buf, b"PX 5 7 ff0080\n".to_vec());
}

#[test]
fn plaintext_multi_digit_coordinates() {
    let mut buf: Vec<u8> = Vec::new();
    Protocol::Plaintext.encode(&mut buf, 0, 1, 2, 3, 65535, 1000);
    assert_eq!(buf, b"PX 65535 1000 010203\n".to_vec());
}

#[test]
fn bin_flutties_byte_exact() {
    let mut buf: Vec<u8> = Vec::new();
    Protocol::BinFlutties.encode(&mut buf, 3, 255, 0, 128, 5, 7);
    assert_eq!(buf, vec![0xB3, 0, 5, 0, 7, 255, 0, 128]);
    assert_eq!(buf.len(), 8);
}

#[test]
fn bin_flutties_masks_canvas_and_is_big_endian() {
    let mut buf: Vec<u8> = Vec::new();
    Protocol::BinFlutties.encode(&mut buf, 0x1F, 1, 2, 3, 0x1234, 0x0102);
    assert_eq!(buf, vec![0xBF, 0x12, 0x34, 0x01, 0x02, 1, 2, 3]);
}

#[test]
fn bin_flurry_byte_exact() {
    let mut buf: Vec<u8> = Vec::new();
    Protocol::BinFlurry.encode(&mut buf, 3, 255, 0, 128, 5, 7);
    assert_eq!(buf, vec![0x80, 3, 5, 0, 7, 0, 255, 0, 128]);
    assert_eq!(buf.len(), 9);
}

#[test]
fn bin_flurry_is_little_endian() {
    let mut buf: Vec<u8> = Vec::new();
    Protocol::BinFlurry.encode(&mut buf, 9, 1, 2, 3, 0x1234, 0x0102);
    assert_eq!(buf, vec![0x80, 9, 0x34, 0x12, 0x02, 0x01, 1, 2, 3]);
}

#[test]
fn pixels_to_cmds_concatenates_in_order_with_offset() {
    let px = vec![
        Pixel { x: 5, y: 7, color: Color::new(255, 0, 128) },
        Pixel { x: 0, y: 0, color: Color::new(0, 0, 0) },
    ];
    let out = pixels_to_cmds(Protocol::Plaintext, 0, &px, 10, 20);
    assert_eq!(out, b"PX 15 27 ff0080\nPX 10 20 000000\n".to_vec());
}

#[test]
fn pixels_to_cmds_empty_is_empty() {
    let out = pixels_to_cmds(Protocol::BinFlurry, 0, &[], 0, 0);
    assert!(out.is_empty());
}

#[test]
fn default_protocol_is_plaintext() {
    assert_eq!(Protocol::default(), Protocol::Plaintext);
}
