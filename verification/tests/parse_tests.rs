use bad_apple_flut::color::Color;
use bad_apple_flut::parse::{parse_framerate, parse_ppm};
use bad_apple_flut::Error;

fn ppm_bytes(header: &str, data: &[u8]) -> Vec<u8> {
    let mut v = header.as_bytes().to_vec();
    v.extend_from_slice(data);
    v
}

#[test]
fn parses_a_small_frame_file() {
    let bytes = ppm_bytes(
        "P6\n2 2\n255\n",
        &[0, 0, 0, 255, 255, 255, 1, 2, 3, 128, 128, 128],
    );
    let f = parse_ppm(&bytes).unwrap_or_else(|_| panic!("well-formed frame file"));
    assert_eq!(f.width(), 2);
    assert_eq!(f.height(), 2);
    assert_eq!(
        f.data().as_slice(),
        &[
            Color::new(0, 0, 0),
            Color::new(255, 255, 255),
            Color::new(1, 2, 3),
            Color::new(128, 128, 128),
        ]
    );
}

#[test]
fn tolerates_extra_blanks_in_the_dimensions_line() {
    let bytes = ppm_bytes("P6\n  1  \t 1 \n255\n", &[9, 8, 7]);
    let f = parse_ppm(&bytes).unwrap_or_else(|_| panic!("well-formed frame file"));
    assert_eq!(f.width(), 1);
    assert_eq!(f.height(), 1);
    assert_eq!(f.data().as_slice(), &[Color::new(9, 8, 7)]);
}

#[test]
fn rejects_a_file_without_a_dimensions_line() {
    match parse_ppm(b"P6") {
        Err(Error::FileParseError(_)) => {},
        _ => panic!("a missing dimensions line is a parse error"),
    }
}

#[test]
fn rejects_a_malformed_width() {
    match parse_ppm(b"P6\nx 2\n255\n") {
        Err(Error::FileParseError(_)) => {},
        _ => panic!("a non-numeric width is a parse error"),
    }
    match parse_ppm(b"P6\n2a 2\n255\n") {
        Err(Error::FileParseError(_)) => {},
        _ => panic!("a dirty width token is a parse error"),
    }
}

#[test]
fn rejects_a_missing_height() {
    match parse_ppm(b"P6\n2\n255\n") {
        Err(Error::FileParseError(_)) => {},
        _ => panic!("a missing height is a parse error"),
    }
}

#[test]
fn rejects_mismatched_pixel_data() {
    // one byte short of 1x1
    match parse_ppm(b"P6\n1 1\n255\nab") {
        Err(Error::FileParseError(_)) => {},
        _ => panic!("short pixel data is a parse error"),
    }
    // a trailing partial triple
    let bytes = ppm_bytes("P6\n1 1\n255\n", &[1, 2, 3, 4]);
    match parse_ppm(&bytes) {
        Err(Error::FileParseError(_)) => {},
        _ => panic!("extra pixel data is a parse error"),
    }
}

#[test]
fn parses_a_plain_framerate_fraction() {
    assert_eq!(parse_framerate("30/1"), Ok((30, 1)));
    assert_eq!(parse_framerate("30000/1001\n"), Ok((30000, 1001)));
    assert_eq!(parse_framerate("25/1\nsecond line ignored"), Ok((25, 1)));
}

#[test]
fn rejects_a_malformed_framerate() {
    for bad in ["30", "abc/1", "30/", "30/x", "/1", "30/1 fps", "2147483648/1"] {
        match parse_framerate(bad) {
            Err(Error::FileParseError(_)) => {},
            _ => panic!("malformed frame rate must be rejected"),
        }
    }
}
