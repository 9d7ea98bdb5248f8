use beam_agent::audio::{frame_size, samples_from_pcm, AudioCapture, OpusChannels};

/// A connection that failed, as one to a server that is not there.
fn refused() -> Result<(), String> {
    Err("Connection refused".to_string())
}

fn err_msg(result: Result<AudioCapture, String>) -> String {
    match result {
        Ok(_) => String::new(),
        Err(e) => e,
    }
}

#[test]
fn audio_capture_rejects_invalid_server() {
    let result = AudioCapture::new(48000, 2, refused());
    assert!(
        result.is_err(),
        "Should fail with bogus PulseAudio server path"
    );
}

#[test]
fn audio_spec_params() {
    // Verify the frame math: 20ms at 48kHz stereo s16le
    let sample_rate: u32 = 48000;
    let channels: u16 = 2;
    let frame = frame_size(sample_rate, channels);
    let samples_per_frame = frame.samples;
    let frame_bytes = frame.bytes;
    assert_eq!(
        samples_per_frame, 960,
        "20ms at 48kHz = 960 samples per channel"
    );
    assert_eq!(
        frame_bytes, 3840,
        "960 samples * 2 channels * 2 bytes = 3840"
    );
}

#[test]
fn audio_frame_math_24khz_mono() {
    // 20ms at 24kHz mono s16le = 480 samples, 960 bytes
    let sample_rate: u32 = 24000;
    let channels: u16 = 1;
    let frame = frame_size(sample_rate, channels);
    let samples_per_frame = frame.samples;
    let frame_bytes = frame.bytes;
    assert_eq!(samples_per_frame, 480);
    assert_eq!(frame_bytes, 960);
}

#[test]
fn audio_frame_math_8khz_mono() {
    // 20ms at 8kHz mono s16le = 160 samples, 320 bytes
    let sample_rate: u32 = 8000;
    let channels: u16 = 1;
    let frame = frame_size(sample_rate, channels);
    let samples_per_frame = frame.samples;
    let frame_bytes = frame.bytes;
    assert_eq!(samples_per_frame, 160);
    assert_eq!(frame_bytes, 320);
}

#[test]
fn audio_frame_math_48khz_stereo_matches_24khz_stereo_doubled() {
    // 48kHz stereo has exactly 2x the per-frame byte budget of 24kHz stereo.
    let bytes_48 = frame_size(48000, 2).bytes;
    let bytes_24 = frame_size(24000, 2).bytes;
    assert_eq!(bytes_48, bytes_24 * 2);
}

#[test]
fn audio_capture_rejects_invalid_channel_count_zero() {
    // 0 channels is invalid for PulseAudio — connection itself should fail
    // before we get to the Opus sanity check.
    let result = AudioCapture::new(48000, 0, refused());
    assert!(result.is_err());
}

#[test]
fn audio_capture_rejects_invalid_channel_count_three() {
    // 3 channels: PulseAudio may accept it, but our match in
    // AudioCapture::new rejects anything except 1 or 2 for Opus.
    // Either branch (connection failure or unsupported channel count)
    // produces an Err, which is what we assert here.
    let result = AudioCapture::new(48000, 3, refused());
    assert!(result.is_err());
}

#[test]
fn audio_capture_rejects_unsupported_sample_rate() {
    // 44.1kHz is not in our Opus sample-rate match. Even if PulseAudio
    // would accept it, our explicit list (48k/24k/16k/12k/8k) rejects.
    let result = AudioCapture::new(44100, 2, refused());
    assert!(result.is_err());
}

#[test]
fn audio_pcm_to_i16_little_endian_conversion() {
    // The byte order is that of the s16le PulseAudio format.
    let pcm = [0x00u8, 0x80]; // -32768 in s16le
    let sample = samples_from_pcm(&pcm)[0];
    assert_eq!(sample, i16::MIN);

    let pcm = [0xFFu8, 0x7F]; // 32767 in s16le
    let sample = samples_from_pcm(&pcm)[0];
    assert_eq!(sample, i16::MAX);

    let pcm = [0x00u8, 0x00];
    let sample = samples_from_pcm(&pcm)[0];
    assert_eq!(sample, 0);
}

#[test]
fn audio_capture_accepts_all_documented_sample_rates() {
    // The documented Opus sample rates are 48k/24k/16k/12k/8k. All must
    // be syntactically accepted by AudioCapture::new (PulseAudio connect
    // will fail with bogus server, but our rate-check must NOT be the
    // reason).
    for sample_rate in [48000u32, 24000, 16000, 12000, 8000] {
        let result = AudioCapture::new(sample_rate, 2, refused());
        let err = err_msg(result);
        assert!(
            !err.is_empty(),
            "Expected PulseAudio connect error for rate {sample_rate}"
        );
        // The error message should NOT contain "Unsupported sample rate"
        // (which would mean our validation rejected it).
        assert!(
            !err.contains("Unsupported sample rate"),
            "Sample rate {sample_rate} should pass our validation, but got: {err}"
        );
    }
}

#[test]
fn audio_capture_rejects_high_unsupported_sample_rate() {
    let result = AudioCapture::new(96000, 2, refused());
    assert!(result.is_err());
}

#[test]
fn audio_capture_rejects_low_unsupported_sample_rate() {
    let result = AudioCapture::new(4000, 2, refused());
    assert!(result.is_err());
}

#[test]
fn audio_capture_accepts_mono_channel_count() {
    // 1 channel = Mono, valid for Opus.
    let result = AudioCapture::new(48000, 1, refused());
    // PulseAudio connect fails first; ensure we don't fail on channel
    // count validation.
    let err = err_msg(result);
    assert!(!err.contains("Unsupported channel count"));
}

#[test]
fn audio_capture_accepts_stereo_channel_count() {
    let result = AudioCapture::new(48000, 2, refused());
    let err = err_msg(result);
    assert!(!err.contains("Unsupported channel count"));
}

#[test]
fn audio_frame_math_consistent_across_rates() {
    // 20ms at every supported rate must produce a frame size divisible
    // by 2 (s16) * channels.
    for sample_rate in [48000u32, 24000, 16000, 12000, 8000] {
        for channels in [1u16, 2] {
            let frame = frame_size(sample_rate, channels);
            let samples = frame.samples;
            let frame_bytes = frame.bytes;
            assert_eq!(
                frame_bytes % (channels as u64 * 2),
                0,
                "frame_bytes must be evenly divisible by channels*2"
            );
            // 20ms at all supported rates must be > 0 samples
            assert!(samples > 0);
        }
    }
}

#[test]
fn audio_frame_math_16khz_mono() {
    let sample_rate: u32 = 16000;
    let channels: u16 = 1;
    let frame = frame_size(sample_rate, channels);
    let samples_per_frame = frame.samples;
    let frame_bytes = frame.bytes;
    assert_eq!(samples_per_frame, 320);
    assert_eq!(frame_bytes, 640);
}

#[test]
fn audio_frame_math_12khz_stereo() {
    let sample_rate: u32 = 12000;
    let channels: u16 = 2;
    let frame = frame_size(sample_rate, channels);
    let samples_per_frame = frame.samples;
    let frame_bytes = frame.bytes;
    assert_eq!(samples_per_frame, 240);
    assert_eq!(frame_bytes, 960);
}

#[test]
fn audio_pcm_roundtrip_various_values() {
    // Ensure little-endian encode + decode round trip preserves the
    // sample.
    for original in [
        0i16, 1, -1, 100, -100, 1000, -1000, 32000, -32000, 32767, -32768,
    ] {
        let bytes = original.to_le_bytes();
        let restored = samples_from_pcm(&bytes)[0];
        assert_eq!(restored, original);
    }
}

#[test]
fn connected_formats_are_checked() {
    assert_eq!(
        AudioCapture::new(48000, 3, Ok(())).unwrap_err(),
        "Unsupported channel count: 3"
    );
    assert_eq!(
        AudioCapture::new(44100, 2, Ok(())).unwrap_err(),
        "Unsupported sample rate for Opus: 44100"
    );
    assert_eq!(
        AudioCapture::new(44100, 3, Ok(())).unwrap_err(),
        "Unsupported channel count: 3"
    );
    assert_eq!(
        AudioCapture::new(44100, 3, refused()).unwrap_err(),
        "PulseAudio connection failed: Connection refused"
    );
    let mono = AudioCapture::new(8000, 1, Ok(())).unwrap();
    assert_eq!(mono.opus_channels(), OpusChannels::Mono);
    let stereo = AudioCapture::new(48000, 2, Ok(())).unwrap();
    assert_eq!(stereo.opus_channels(), OpusChannels::Stereo);
}

#[test]
fn odd_byte_of_pcm_is_left_out() {
    assert_eq!(samples_from_pcm(&[0x01, 0x00, 0xFF, 0xFF, 0x7F]), vec![1, -1]);
    assert!(samples_from_pcm(&[]).is_empty());
}
