use beam_agent::encoder::{
    appsrc_queue_max_bytes, build_encoder_element, detect_encoder_type, encoder_attempts,
    pixel_format, Encoder, EncoderType, Property, PropertyValue, Pulled, Stage,
};

/// What is known after the encoders were tried in turn, where only those named in
/// `present` can be created.
fn tried(preferred: Option<&str>, present: &[&str]) -> Vec<bool> {
    match encoder_attempts(preferred) {
        Ok(attempts) => attempts
            .iter()
            .map(|encoder| present.contains(&encoder.name()))
            .collect(),
        Err(_) => Vec::new(),
    }
}

fn detect(preferred: Option<&str>, present: &[&str]) -> Result<(EncoderType, String), String> {
    detect_encoder_type(preferred, &tried(preferred, present))
}

const ALL: [&str; 4] = ["nvh264enc", "nvcudah264enc", "vah264enc", "x264enc"];

#[test]
fn encoder_type_equality() {
    assert_eq!(EncoderType::Nvidia, EncoderType::Nvidia);
    assert_eq!(EncoderType::NvidiaCuda, EncoderType::NvidiaCuda);
    assert_ne!(EncoderType::Nvidia, EncoderType::NvidiaCuda);
    assert_ne!(EncoderType::VaApi, EncoderType::Software);
}

#[test]
fn encoder_type_is_copy() {
    // EncoderType must remain Copy so it can be passed by value through
    // the detection + build paths without ownership concerns.
    let a = EncoderType::Software;
    let b = a;
    assert_eq!(a, b);
}

#[test]
fn encoder_type_debug_format_includes_variant_name() {
    // Detection logs use {?encoder_type}; verify each variant renders
    // with its identifier so log search works.
    for (enc_type, expected) in [
        (EncoderType::Nvidia, "Nvidia"),
        (EncoderType::NvidiaCuda, "NvidiaCuda"),
        (EncoderType::VaApi, "VaApi"),
        (EncoderType::Software, "Software"),
    ] {
        let dbg = format!("{enc_type:?}");
        assert!(
            dbg.contains(expected),
            "Debug format for {enc_type:?} should contain {expected}, got {dbg}"
        );
    }
}

#[test]
fn appsrc_queue_3_frames_at_1080p() {
    // 1920 * 1080 * 4 (BGRA) * 3 (frames) = 24.88 MB
    let bytes = appsrc_queue_max_bytes(1920, 1080);
    assert_eq!(bytes, 24_883_200);
}

#[test]
fn appsrc_queue_at_4k() {
    // 3840 * 2160 * 4 * 3 = 99.53 MB
    let bytes = appsrc_queue_max_bytes(3840, 2160);
    assert_eq!(bytes, 99_532_800);
}

#[test]
fn appsrc_queue_at_zero_dims() {
    // Zero dims (defensive) produce zero buffer requirement.
    assert_eq!(appsrc_queue_max_bytes(0, 0), 0);
    assert_eq!(appsrc_queue_max_bytes(1920, 0), 0);
    assert_eq!(appsrc_queue_max_bytes(0, 1080), 0);
}

#[test]
fn detect_encoder_rejects_unknown_name() {
    let err = detect(Some("totally_fake_encoder"), &ALL).unwrap_err();
    assert!(err.contains("Unknown encoder"), "{err}");
}

#[test]
fn detect_encoder_maps_known_names_to_types() {
    let mappings = [
        ("nvh264enc", EncoderType::Nvidia),
        ("nvcudah264enc", EncoderType::NvidiaCuda),
        ("vah264enc", EncoderType::VaApi),
        ("x264enc", EncoderType::Software),
    ];
    for (name, expected_type) in mappings {
        let (enc_type, enc_name) = detect(Some(name), &ALL).unwrap();
        assert_eq!(enc_name, name);
        assert_eq!(enc_type, expected_type, "Wrong type for {name}");
    }
}

#[test]
fn detect_encoder_auto_finds_something() {
    for present in ALL {
        let (enc_type, name) = detect(None, &[present]).unwrap();
        assert_eq!(name, present);
        match enc_type {
            EncoderType::Nvidia => assert_eq!(name, "nvh264enc"),
            EncoderType::NvidiaCuda => assert_eq!(name, "nvcudah264enc"),
            EncoderType::VaApi => assert_eq!(name, "vah264enc"),
            EncoderType::Software => assert_eq!(name, "x264enc"),
        }
    }
}

#[test]
fn cuda_encoder_comes_first() {
    assert_eq!(detect(None, &ALL).unwrap().1, "nvcudah264enc");
    assert_eq!(
        detect(None, &["x264enc", "vah264enc", "nvh264enc"]).unwrap().1,
        "nvh264enc"
    );
}

#[test]
fn nvidia_uses_bgra_format() {
    assert_eq!(pixel_format(EncoderType::Nvidia), "BGRA");
}

#[test]
fn encoder_format_selection_per_type() {
    assert_eq!(pixel_format(EncoderType::Nvidia), "BGRA");
    assert_eq!(pixel_format(EncoderType::NvidiaCuda), "BGRA");
    assert_eq!(pixel_format(EncoderType::VaApi), "BGRx");
    assert_eq!(pixel_format(EncoderType::Software), "BGRx");
}

#[test]
fn detect_encoder_falls_through_to_auto_when_preferred_unavailable() {
    let (enc_type, name) = detect(Some("nvh264enc"), &["x264enc"]).unwrap();
    assert_eq!(name, "x264enc");
    assert_eq!(enc_type, EncoderType::Software);
}

#[test]
fn detect_encoder_uses_preferred_when_available() {
    let (enc_type, name) = detect(Some("x264enc"), &ALL).unwrap();
    assert_eq!(name, "x264enc");
    assert_eq!(enc_type, EncoderType::Software);
}

#[test]
fn detect_encoder_rejects_unknown_name_message_format() {
    assert_eq!(
        detect(Some("garbage-encoder-name"), &ALL).unwrap_err(),
        "Unknown encoder: garbage-encoder-name. Use nvh264enc, nvcudah264enc, vah264enc, or x264enc."
    );
}

#[test]
fn no_encoder_is_an_error() {
    let expected = "No H.264 encoder found. Install gstreamer plugins (good/bad/ugly).";
    assert_eq!(detect(None, &[]).unwrap_err(), expected);
    assert_eq!(detect(Some("x264enc"), &[]).unwrap_err(), expected);
    // Nothing was tried.
    assert_eq!(
        detect_encoder_type(None, &Vec::new()).unwrap_err(),
        expected
    );
}

fn value(properties: &[Property], name: &str) -> Option<PropertyValue> {
    properties.iter().find(|p| p.name == name).map(|p| p.value)
}

#[test]
fn build_encoder_element_x264enc_constructs() {
    let properties = build_encoder_element(EncoderType::Software, 2_000_000, 30);
    assert_eq!(
        value(&properties, "bitrate"),
        Some(PropertyValue::Unsigned(2_000_000))
    );
    assert_eq!(
        value(&properties, "tune"),
        Some(PropertyValue::Named("zerolatency"))
    );
    assert_eq!(properties.len(), 5);
}

#[test]
fn frame_buffer_holds_one_frame() {
    let buffer = |framerate: u32| {
        value(
            &build_encoder_element(EncoderType::Nvidia, 50_000, framerate),
            "vbv-buffer-size",
        )
    };
    assert_eq!(buffer(120), Some(PropertyValue::Unsigned(416)));
    assert_eq!(buffer(0), Some(PropertyValue::Unsigned(50_000)));
    let cuda = build_encoder_element(EncoderType::NvidiaCuda, 50_000, 60);
    assert_eq!(
        value(&cuda, "vbv-buffer-size"),
        Some(PropertyValue::Unsigned(833))
    );
    assert_eq!(value(&cuda, "gop-size"), Some(PropertyValue::Signed(-1)));
}

#[test]
fn pipelines_are_built_in_order() {
    let encoder = |name: &str| {
        Encoder::with_encoder_preference(
            1920,
            1080,
            60,
            20_000,
            Some(name),
            &tried(Some(name), &ALL),
        )
        .unwrap()
    };
    let nvidia = encoder("nvh264enc");
    assert_eq!(
        nvidia.stages,
        vec![
            Stage::Source,
            Stage::Encode,
            Stage::ProfileFilter,
            Stage::Parse,
            Stage::StreamFilter,
            Stage::Sink
        ]
    );
    assert_eq!(nvidia.format, "BGRA");
    assert_eq!(nvidia.max_bytes, 24_883_200);
    let cuda = encoder("nvcudah264enc");
    assert_eq!(cuda.stages[1], Stage::Convert);
    assert_eq!(cuda.format, "BGRA");
    let software = encoder("x264enc");
    assert_eq!(software.stages.len(), 7);
    assert_eq!(software.format, "BGRx");
    assert_eq!((software.width, software.height, software.framerate), (1920, 1080, 60));
    assert!(Encoder::with_encoder_preference(1920, 1080, 60, 20_000, None, &vec![]).is_err());
}

#[test]
fn pulled_frames_are_passed_on() {
    assert_eq!(Encoder::pull_encoded(Pulled::Frame(vec![1])), Ok(Some(vec![1])));
    assert_eq!(Encoder::pull_encoded(Pulled::Empty), Ok(None));
    assert_eq!(
        Encoder::pull_encoded(Pulled::Disconnected),
        Err("Encoder pipeline disconnected".to_string())
    );
}

#[test]
fn unknown_names_are_refused_at_any_frame_size() {
    let huge = |name| {
        Encoder::with_encoder_preference(65536, 65536, 60, 20_000, Some(name), &vec![false])
    };
    let error = huge("h265enc").unwrap_err();
    assert!(error.contains("Unknown encoder") && error.contains("h265enc"));
    assert!(huge("x264enc").is_err());
}
