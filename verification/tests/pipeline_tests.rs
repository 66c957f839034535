use bad_apple_flut::color::Color;
use bad_apple_flut::compression::{CompressionAlgConfig, VideoCompressor};
use bad_apple_flut::frame::{Frame, FrameData};
use bad_apple_flut::levels::CompressionLevelArg;
use bad_apple_flut::pipeline::{compress_chunk, compress_frames_chunked};
use bad_apple_flut::Error;

fn gray_level(v: u8) -> Color {
    Color::new(v, v, v)
}

fn frames(levels: &[u8]) -> Vec<Frame> {
    levels.iter().map(|v| Frame::new(1, 1, vec![gray_level(*v)])).collect()
}

#[test]
fn chunk_starts_with_a_full_frame() {
    let mut codec =
        VideoCompressor::new(CompressionAlgConfig::V2, CompressionLevelArg::Number(10), false)
            .unwrap_or_else(|_| panic!("numeric level must fit"));
    let fs = frames(&[0, 0, 255]);
    let out = compress_chunk(&mut codec, &fs);
    assert_eq!(out.len(), 3);
    assert!(matches!(out[0], FrameData::Full { .. }));
    assert_eq!(out[1], FrameData::Empty);
    assert!(matches!(out[2], FrameData::Delta(_)));
}

#[test]
fn chunked_run_emits_full_at_every_chunk_start() {
    let fs = frames(&[0, 255, 0, 255, 0]);
    let out = compress_frames_chunked(
        CompressionAlgConfig::V1,
        CompressionLevelArg::Low,
        false,
        &fs,
        2,
    )
    .unwrap_or_else(|_| panic!("preset level must fit"));
    assert_eq!(out.len(), 5);
    assert!(matches!(out[0], FrameData::Full { .. }));
    assert!(matches!(out[1], FrameData::Delta(_)));
    assert!(matches!(out[2], FrameData::Full { .. }));
    assert!(matches!(out[3], FrameData::Delta(_)));
    assert!(matches!(out[4], FrameData::Full { .. }));
}

#[test]
fn chunked_and_unchunked_emit_one_update_per_frame() {
    let fs = frames(&[0, 10, 20, 30, 40, 50, 60]);
    let chunked = compress_frames_chunked(
        CompressionAlgConfig::V1,
        CompressionLevelArg::Low,
        false,
        &fs,
        3,
    )
    .unwrap_or_else(|_| panic!("preset level must fit"));
    let unchunked = compress_frames_chunked(
        CompressionAlgConfig::V1,
        CompressionLevelArg::Low,
        false,
        &fs,
        7,
    )
    .unwrap_or_else(|_| panic!("preset level must fit"));
    assert_eq!(chunked.len(), fs.len());
    assert_eq!(unchunked.len(), fs.len());
}

#[test]
fn one_big_chunk_equals_a_single_codec_run() {
    let fs = frames(&[0, 255, 0]);
    let mut codec =
        VideoCompressor::new(CompressionAlgConfig::V1, CompressionLevelArg::Low, false)
            .unwrap_or_else(|_| panic!("preset level must fit"));
    let single = compress_chunk(&mut codec, &fs);
    let chunked = compress_frames_chunked(
        CompressionAlgConfig::V1,
        CompressionLevelArg::Low,
        false,
        &fs,
        100,
    )
    .unwrap_or_else(|_| panic!("preset level must fit"));
    assert_eq!(chunked, single);
}

#[test]
fn chunked_rejects_a_mismatched_level() {
    let fs = frames(&[0]);
    match compress_frames_chunked(
        CompressionAlgConfig::V2,
        CompressionLevelArg::Low,
        false,
        &fs,
        2,
    ) {
        Err(Error::InvalidArgs(_)) => {},
        _ => panic!("the budget codec takes only a numeric level"),
    }
}

#[test]
fn empty_stream_compresses_to_nothing() {
    let fs: Vec<Frame> = Vec::new();
    let out = compress_frames_chunked(
        CompressionAlgConfig::V1,
        CompressionLevelArg::Low,
        false,
        &fs,
        4,
    )
    .unwrap_or_else(|_| panic!("preset level must fit"));
    assert!(out.is_empty());
}
