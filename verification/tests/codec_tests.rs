use bad_apple_flut::color::Color;
use bad_apple_flut::compression::{
    CompressionAlgConfig, DeltaCompressorV1, DeltaCompressorV2, VideoCompressor, VideoCompressorV1,
    VideoCompressorV2,
};
use bad_apple_flut::frame::{Frame, FrameData};
use bad_apple_flut::levels::{CompressionLevelArg, CompressionLevelV1, CompressionLevelV2};
use bad_apple_flut::pixel::Pixel;
use bad_apple_flut::Error;

fn black() -> Color {
    Color::new(0, 0, 0)
}

fn white() -> Color {
    Color::new(255, 255, 255)
}

#[test]
fn first_frame_is_always_full() {
    let mut codec = DeltaCompressorV1::new(CompressionLevelV1::Low, false);
    let f = Frame::new(2, 2, vec![black(); 4]);
    let out = codec.compress_frame(&f);
    assert_eq!(out, FrameData::Full { width: 2, height: 2, data: vec![black(); 4] });
}

#[test]
fn black_to_white_yields_full_then_all_pixel_delta() {
    // a 2-frame all-black -> all-white sequence under the threshold codec
    let mut codec = DeltaCompressorV1::new(CompressionLevelV1::Low, false);
    let f1 = Frame::new(2, 2, vec![black(); 4]);
    let f2 = Frame::new(2, 2, vec![white(); 4]);
    let out1 = codec.compress_frame(&f1);
    let out2 = codec.compress_frame(&f2);
    assert_eq!(out1, FrameData::Full { width: 2, height: 2, data: vec![black(); 4] });
    assert_eq!(
        out2,
        FrameData::Delta(vec![
            Pixel { x: 0, y: 0, color: white() },
            Pixel { x: 1, y: 0, color: white() },
            Pixel { x: 0, y: 1, color: white() },
            Pixel { x: 1, y: 1, color: white() },
        ])
    );
}

#[test]
fn sub_threshold_nudge_yields_empty() {
    // a single-pixel color nudge below the threshold yields Empty
    let mut codec = DeltaCompressorV1::new(CompressionLevelV1::Low, false);
    let f1 = Frame::new(2, 2, vec![black(); 4]);
    let mut d2 = vec![black(); 4];
    d2[3] = Color::new(2, 2, 2);
    let f2 = Frame::new(2, 2, d2);
    codec.compress_frame(&f1);
    let out = codec.compress_frame(&f2);
    assert_eq!(out, FrameData::Empty);
}

#[test]
fn identical_frames_yield_empty() {
    let mut codec = DeltaCompressorV1::new(CompressionLevelV1::High, false);
    let f = Frame::new(2, 2, vec![Color::new(9, 99, 199); 4]);
    codec.compress_frame(&f);
    let out = codec.compress_frame(&f.duplicate());
    assert_eq!(out, FrameData::Empty);
}

#[test]
fn codec_diffs_against_its_own_reconstruction() {
    // frame 2 equals frame 1 except a sub-threshold nudge, so nothing is
    // emitted; frame 3 equals frame 2, and must still be Empty because the
    // codec diffs against its reconstruction (frame 1), not frame 2
    let mut codec = DeltaCompressorV1::new(CompressionLevelV1::Low, false);
    let f1 = Frame::new(1, 1, vec![black()]);
    let f2 = Frame::new(1, 1, vec![Color::new(2, 2, 2)]);
    codec.compress_frame(&f1);
    assert_eq!(codec.compress_frame(&f2), FrameData::Empty);
    assert_eq!(codec.compress_frame(&f2.duplicate()), FrameData::Empty);
}

#[test]
fn budget_codec_respects_budget_and_ranks_by_distance() {
    let mut codec = DeltaCompressorV2::new(CompressionLevelV2::new(1), false);
    let f1 = Frame::new(2, 1, vec![black(), black()]);
    let f2 = Frame::new(2, 1, vec![Color::new(10, 10, 10), white()]);
    codec.compress_frame(&f1);
    let out = codec.compress_frame(&f2);
    // the white pixel moved much farther and the budget is one
    assert_eq!(out, FrameData::Delta(vec![Pixel { x: 1, y: 0, color: white() }]));
}

#[test]
fn budget_codec_breaks_ties_by_scan_order() {
    let mut codec = DeltaCompressorV2::new(CompressionLevelV2::new(1), false);
    let f1 = Frame::new(2, 1, vec![black(), black()]);
    let f2 = Frame::new(2, 1, vec![white(), white()]);
    codec.compress_frame(&f1);
    let out = codec.compress_frame(&f2);
    assert_eq!(out, FrameData::Delta(vec![Pixel { x: 0, y: 0, color: white() }]));
}

#[test]
fn budget_codec_emits_everything_within_budget_in_scan_order_of_rank() {
    let mut codec = DeltaCompressorV2::new(CompressionLevelV2::new(10), false);
    let f1 = Frame::new(2, 1, vec![black(), black()]);
    let f2 = Frame::new(2, 1, vec![Color::new(10, 10, 10), white()]);
    codec.compress_frame(&f1);
    let out = codec.compress_frame(&f2);
    // both qualify; the farther pixel ranks first
    assert_eq!(
        out,
        FrameData::Delta(vec![
            Pixel { x: 1, y: 0, color: white() },
            Pixel { x: 0, y: 0, color: Color::new(10, 10, 10) },
        ])
    );
}

#[test]
fn budget_zero_yields_empty() {
    let mut codec = DeltaCompressorV2::new(CompressionLevelV2::new(0), false);
    let f1 = Frame::new(1, 1, vec![black()]);
    let f2 = Frame::new(1, 1, vec![white()]);
    codec.compress_frame(&f1);
    assert_eq!(codec.compress_frame(&f2), FrameData::Empty);
}

#[test]
fn noise_floor_swallows_imperceptible_change() {
    let mut codec = match VideoCompressorV2::new(CompressionLevelArg::Number(100), false) {
        Ok(c) => c,
        Err(_) => panic!("numeric level must fit the budget codec"),
    };
    let f1 = Frame::new(1, 1, vec![black()]);
    let f2 = Frame::new(1, 1, vec![Color::new(1, 1, 1)]);
    codec.compress_frame(&f1);
    assert_eq!(codec.compress_frame(&f2), FrameData::Empty);
}

#[test]
fn debug_mode_snapshots_delta_over_gray() {
    let mut codec = DeltaCompressorV1::new(CompressionLevelV1::Low, true);
    let f1 = Frame::new(2, 1, vec![black(), black()]);
    let mut d2 = vec![black(), black()];
    d2[1] = white();
    let f2 = Frame::new(2, 1, d2);
    codec.compress_frame(&f1);
    let out = codec.compress_frame(&f2);
    assert_eq!(
        out,
        FrameData::Full { width: 2, height: 1, data: vec![Color::new(128, 128, 128), white()] }
    );
}

#[test]
fn debug_mode_still_advances_by_the_real_delta() {
    let mut codec = DeltaCompressorV1::new(CompressionLevelV1::Low, true);
    let f1 = Frame::new(1, 1, vec![black()]);
    let f2 = Frame::new(1, 1, vec![white()]);
    codec.compress_frame(&f1);
    codec.compress_frame(&f2);
    // the reconstruction is now white, so a white frame is no change at all
    assert_eq!(
        codec.compress_frame(&f2.duplicate()),
        FrameData::Full { width: 1, height: 1, data: vec![Color::new(128, 128, 128)] }
    );
}

#[test]
fn dispatcher_rejects_mismatched_levels() {
    match VideoCompressor::new(CompressionAlgConfig::V1, CompressionLevelArg::Number(5), false) {
        Err(Error::InvalidArgs(_)) => {},
        _ => panic!("the threshold codec takes no numeric level"),
    }
    match VideoCompressor::new(CompressionAlgConfig::V2, CompressionLevelArg::Medium, false) {
        Err(Error::InvalidArgs(_)) => {},
        _ => panic!("the budget codec takes only a numeric level"),
    }
    assert!(VideoCompressor::new(CompressionAlgConfig::V1, CompressionLevelArg::Medium, false)
        .is_ok());
    assert!(VideoCompressor::new(CompressionAlgConfig::V2, CompressionLevelArg::Number(5), false)
        .is_ok());
}

#[test]
fn dispatcher_runs_the_configured_codec() {
    let mut codec =
        match VideoCompressor::new(CompressionAlgConfig::V1, CompressionLevelArg::Low, false) {
            Ok(c) => c,
            Err(_) => panic!("preset level must fit the threshold codec"),
        };
    let f1 = Frame::new(1, 1, vec![black()]);
    let f2 = Frame::new(1, 1, vec![white()]);
    assert_eq!(
        codec.compress_frame(&f1),
        FrameData::Full { width: 1, height: 1, data: vec![black()] }
    );
    assert_eq!(
        codec.compress_frame(&f2),
        FrameData::Delta(vec![Pixel { x: 0, y: 0, color: white() }])
    );
}

#[test]
fn v1_front_rejects_numeric_level() {
    match VideoCompressorV1::new(CompressionLevelArg::Number(1), false) {
        Err(Error::InvalidArgs(_)) => {},
        _ => panic!("numeric level must be rejected"),
    }
    assert!(VideoCompressorV1::new(CompressionLevelArg::TrashCompactor, false).is_ok());
}
