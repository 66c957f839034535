use bad_apple_flut::color::Color;
use bad_apple_flut::frame::{Frame, FrameData};
use bad_apple_flut::pixel::Pixel;

fn black() -> Color {
    Color::new(0, 0, 0)
}

fn white() -> Color {
    Color::new(255, 255, 255)
}

fn frame_2x2(c: Color) -> Frame {
    Frame::new(2, 2, vec![c; 4])
}

#[test]
fn apply_full_snapshot_is_identity() {
    let f = frame_2x2(white());
    let again = f.apply_frame_data(&f.to_full_frame_data());
    assert_eq!(again, f);
}

#[test]
fn apply_empty_is_identity() {
    let f = frame_2x2(black());
    let again = f.apply_frame_data(&FrameData::Empty);
    assert_eq!(again, f);
}

#[test]
fn apply_delta_twice_is_idempotent() {
    let f = frame_2x2(black());
    let d = FrameData::Delta(vec![
        Pixel { x: 1, y: 0, color: white() },
        Pixel { x: 0, y: 1, color: Color::new(10, 20, 30) },
    ]);
    let once = f.apply_frame_data(&d);
    let twice = once.apply_frame_data(&d);
    assert_eq!(twice, once);
}

#[test]
fn apply_delta_overwrites_only_listed_positions() {
    let f = frame_2x2(black());
    let d = FrameData::Delta(vec![Pixel { x: 1, y: 1, color: white() }]);
    let r = f.apply_frame_data(&d);
    assert_eq!(r.data().as_slice(), &[black(), black(), black(), white()]);
    assert_eq!(r.width(), 2);
    assert_eq!(r.height(), 2);
}

#[test]
fn apply_delta_later_entries_win() {
    let f = frame_2x2(black());
    let d = FrameData::Delta(vec![
        Pixel { x: 0, y: 0, color: white() },
        Pixel { x: 0, y: 0, color: Color::new(7, 7, 7) },
    ]);
    let r = f.apply_frame_data(&d);
    assert_eq!(r.data()[0], Color::new(7, 7, 7));
}

#[test]
fn apply_full_replaces_everything() {
    let f = frame_2x2(black());
    let d = FrameData::Full { width: 1, height: 2, data: vec![white(), black()] };
    let r = f.apply_frame_data(&d);
    assert_eq!(r.width(), 1);
    assert_eq!(r.height(), 2);
    assert_eq!(r.data().as_slice(), &[white(), black()]);
}

#[test]
fn debug_frame_is_neutral_gray() {
    let f = Frame::debug(3, 2);
    assert_eq!(f.width(), 3);
    assert_eq!(f.height(), 2);
    assert_eq!(f.data().len(), 6);
    for c in f.data() {
        assert_eq!(*c, Color::new(128, 128, 128));
    }
}

#[test]
fn duplicate_is_equal() {
    let f = frame_2x2(Color::new(1, 2, 3));
    assert_eq!(f.duplicate(), f);
}

#[test]
fn frame_to_pixels_scan_order() {
    let f = Frame::new(2, 1, vec![black(), white()]);
    let px = f.to_pixels();
    assert_eq!(
        px,
        vec![
            Pixel { x: 0, y: 0, color: black() },
            Pixel { x: 1, y: 0, color: white() },
        ]
    );
}

#[test]
fn frame_data_to_pixels() {
    assert_eq!(FrameData::Empty.to_pixels(), vec![]);

    let d = FrameData::Delta(vec![Pixel { x: 5, y: 6, color: white() }]);
    assert_eq!(d.to_pixels(), vec![Pixel { x: 5, y: 6, color: white() }]);

    let full = FrameData::Full { width: 2, height: 2, data: vec![black(), white(), white(), black()] };
    let px = full.to_pixels();
    assert_eq!(px.len(), 4);
    assert_eq!(px[0], Pixel { x: 0, y: 0, color: black() });
    assert_eq!(px[1], Pixel { x: 1, y: 0, color: white() });
    assert_eq!(px[2], Pixel { x: 0, y: 1, color: white() });
    assert_eq!(px[3], Pixel { x: 1, y: 1, color: black() });
}

#[test]
fn from_frame_data_full() {
    let f = Frame::from_frame_data(FrameData::Full {
        width: 2,
        height: 1,
        data: vec![black(), white()],
    });
    assert_eq!(f, Frame::new(2, 1, vec![black(), white()]));
}

#[test]
fn from_frame_data_empty() {
    let f = Frame::from_frame_data(FrameData::Empty);
    assert_eq!(f.width(), 0);
    assert_eq!(f.height(), 0);
    assert_eq!(f.data().len(), 0);
}

#[test]
fn from_frame_data_delta_sizes_to_maxima_over_gray() {
    let red = Color::new(255, 0, 0);
    let f = Frame::from_frame_data(FrameData::Delta(vec![Pixel { x: 1, y: 0, color: red }]));
    assert_eq!(f.width(), 2);
    assert_eq!(f.height(), 1);
    assert_eq!(f.data().as_slice(), &[Color::new(128, 128, 128), red]);
}

#[test]
fn data_mut_allows_in_place_edit() {
    let mut f = frame_2x2(black());
    f.data_mut()[2] = white();
    assert_eq!(f.data()[2], white());
}
