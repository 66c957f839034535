use bad_apple_flut::cache::{gen_cache_id, CacheKey};
use bad_apple_flut::color::Color;
use bad_apple_flut::levels::{
    pixels_per_frame_budget, CompressionLevelArg, CompressionLevelV1, CompressionLevelV2,
};
use bad_apple_flut::settings::{verify_args, ArgsCheck};
use bad_apple_flut::Error;

#[test]
fn test_color_to_yuv() {
    assert_eq!(Color::new(255, 255, 255).to_yuv(), (255, 128, 128));
    assert_eq!(Color::new(0, 0, 0).to_yuv(), (0, 128, 128));
}

#[test]
fn yuv_chroma_separates_primaries() {
    let (_, ur, vr) = Color::new(255, 0, 0).to_yuv();
    let (_, ub, vb) = Color::new(0, 0, 255).to_yuv();
    assert!(vr > 128 && ur < 128);
    assert!(ub > 128 && vb < 128);
}

#[test]
fn cielab_endpoints() {
    assert_eq!(Color::new(0, 0, 0).to_cielab(), (0, 0, 0));
    let (l, a, b) = Color::new(255, 255, 255).to_cielab();
    assert_eq!(l, 100);
    assert_eq!((a, b), (0, 0));
}

#[test]
fn level_names_parse_case_insensitively() {
    assert_eq!(CompressionLevelArg::try_from("none".to_string()), Ok(CompressionLevelArg::Off));
    assert_eq!(CompressionLevelArg::try_from("LOW".to_string()), Ok(CompressionLevelArg::Low));
    assert_eq!(
        CompressionLevelArg::try_from("Medium".to_string()),
        Ok(CompressionLevelArg::Medium)
    );
    assert_eq!(CompressionLevelArg::try_from("high".to_string()), Ok(CompressionLevelArg::High));
    assert_eq!(
        CompressionLevelArg::try_from("Trash-Compactor".to_string()),
        Ok(CompressionLevelArg::TrashCompactor)
    );
}

#[test]
fn numeric_levels_parse_and_junk_does_not() {
    assert_eq!(
        CompressionLevelArg::try_from("768".to_string()),
        Ok(CompressionLevelArg::Number(768))
    );
    assert!(CompressionLevelArg::try_from("".to_string()).is_err());
    assert!(CompressionLevelArg::try_from("76x8".to_string()).is_err());
    assert!(CompressionLevelArg::try_from("99999999999999999999999999".to_string()).is_err());
}

#[test]
fn threshold_tables() {
    assert_eq!(CompressionLevelV1::Off.luminance_treshold(), 0);
    assert_eq!(CompressionLevelV1::Low.luminance_treshold(), 3);
    assert_eq!(CompressionLevelV1::Medium.luminance_treshold(), 7);
    assert_eq!(CompressionLevelV1::High.luminance_treshold(), 15);
    assert_eq!(CompressionLevelV1::TrashCompactor.luminance_treshold(), 32);

    // the chroma tolerance shrinks as the predecessor luma grows
    assert_eq!(CompressionLevelV1::Medium.chroma_threshold(0), 16);
    assert_eq!(CompressionLevelV1::Medium.chroma_threshold(255), 2);
    assert_eq!(CompressionLevelV1::Low.chroma_threshold(0), 8);
    assert_eq!(CompressionLevelV1::Low.chroma_threshold(128), 3);
    assert_eq!(CompressionLevelV1::High.chroma_threshold(0), 32);
    let mut last = u16::MAX;
    for y in 0..=255u16 {
        let t = CompressionLevelV1::Medium.chroma_threshold(y as u8);
        assert!(t <= last);
        last = t;
    }
}

#[test]
fn level_conversions() {
    assert!(CompressionLevelV1::try_from_arg(CompressionLevelArg::Number(5)).is_err());
    assert_eq!(
        CompressionLevelV1::try_from_arg(CompressionLevelArg::High),
        Ok(CompressionLevelV1::High)
    );
    assert_eq!(
        CompressionLevelV2::try_from_arg(CompressionLevelArg::Number(5)),
        Ok(CompressionLevelV2::new(5))
    );
    assert!(CompressionLevelV2::try_from_arg(CompressionLevelArg::High).is_err());
}

#[test]
fn per_frame_budget_scales_by_the_frame_rate() {
    // 768 KiB of pixels per second at 30 fps
    assert_eq!(pixels_per_frame_budget(768, 30_000_000), 26214);
    // one microframe per second saturates
    assert_eq!(pixels_per_frame_budget(usize::MAX, 1), usize::MAX);
}

#[test]
fn cache_ids_are_stable_and_key_sensitive() {
    let k1 = CacheKey::new("a.mp4".to_string(), 640, -1, 30_000_000);
    let k1_again = CacheKey::new("a.mp4".to_string(), 640, -1, 30_000_000);
    let k2 = CacheKey::new("a.mp4".to_string(), 640, -1, 30_000_001);
    assert_eq!(gen_cache_id(&k1), 0xc24af3e87ef449a4);
    assert_eq!(gen_cache_id(&k1), gen_cache_id(&k1_again));
    assert_eq!(gen_cache_id(&k2), 0x74958334acd4eaa1);
    assert_ne!(gen_cache_id(&k1), gen_cache_id(&k2));
    let empty = CacheKey::new(String::new(), 0, 0, 0);
    assert_eq!(gen_cache_id(&empty), 0x88201fb960ff6465);
}

fn good_args() -> ArgsCheck {
    ArgsCheck {
        input_empty: false,
        input_exists: true,
        input_is_file: true,
        width: Some(640),
        height: None,
        fps_positive: Some(true),
        send_threads: 4,
        compress_threads: 4,
        has_host: true,
        has_target: false,
        aot_frame_group_size: 100,
    }
}

#[test]
fn good_arguments_validate() {
    assert_eq!(verify_args(&good_args()), Ok(()));
}

#[test]
fn bad_arguments_raise_argument_errors() {
    for a in [
        ArgsCheck { width: Some(-1), ..good_args() },
        ArgsCheck { height: Some(-2), ..good_args() },
        ArgsCheck { fps_positive: Some(false), ..good_args() },
        ArgsCheck { input_empty: true, ..good_args() },
        ArgsCheck { input_exists: false, ..good_args() },
        ArgsCheck { input_is_file: false, ..good_args() },
    ] {
        match verify_args(&a) {
            Err(Error::InvalidArgs(_)) => {},
            _ => panic!("expected an argument error"),
        }
    }
}

#[test]
fn bad_configuration_raises_configuration_errors() {
    for a in [
        ArgsCheck { send_threads: 0, ..good_args() },
        ArgsCheck { compress_threads: 0, ..good_args() },
        ArgsCheck { has_host: false, has_target: false, ..good_args() },
        ArgsCheck { aot_frame_group_size: 0, ..good_args() },
    ] {
        match verify_args(&a) {
            Err(Error::InvalidConfig(_)) => {},
            _ => panic!("expected a configuration error"),
        }
    }
}
