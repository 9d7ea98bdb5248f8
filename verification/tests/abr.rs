use beam_agent::abr::{abr_enabled, video_totals, BitrateControl, Interval, VideoTotals};
use beam_agent::encoder::EncoderType;
use beam_agent::peer::StreamStats;

fn outbound(video: bool, packets_sent: u64) -> StreamStats {
    StreamStats::Outbound {
        video,
        packets_sent,
    }
}

fn inbound(video: bool, packets_lost: i64, round_trip_time: Option<f64>) -> StreamStats {
    StreamStats::RemoteInbound {
        video,
        packets_lost,
        round_trip_time: round_trip_time.map(f64::to_bits),
    }
}

fn totals(packets_sent: u64, packets_lost: i64) -> VideoTotals {
    VideoTotals {
        packets_sent,
        packets_lost,
    }
}

#[test]
fn totals_are_those_of_the_last_video_stream() {
    let stats = vec![
        StreamStats::Other,
        outbound(false, 7),
        outbound(true, 100),
        inbound(true, 3, None),
        inbound(false, 9, Some(0.1)),
        outbound(true, 200),
    ];
    assert_eq!(video_totals(&stats), totals(200, 3));
    assert_eq!(video_totals(&Vec::new()), totals(0, 0));
}

#[test]
fn intervals_count_from_the_last_totals() {
    let mut control = BitrateControl::new(EncoderType::VaApi, 1000, 500, 2000);
    assert_eq!(control.interval(totals(100, 5)), Interval { sent: 100, lost: 5 });
    let _ = control.step(&vec![outbound(true, 100), inbound(true, 5, None)]);
    assert_eq!(control.interval(totals(150, 6)), Interval { sent: 50, lost: 1 });
    // Counters that start anew.
    assert_eq!(control.interval(totals(10, 0)), Interval { sent: 0, lost: 0 });
    let _ = control.step(&vec![outbound(true, 10), inbound(true, i64::MIN, None)]);
    assert_eq!(
        control.interval(totals(10, i64::MAX)),
        Interval {
            sent: 0,
            lost: i64::MAX as u64
        }
    );
}

#[test]
fn bitrate_stays_in_its_bounds() {
    // Nothing is lost, and the way is short: half as much again.
    let mut control = BitrateControl::new(EncoderType::VaApi, 1000, 800, 1400);
    let swift = vec![outbound(true, 100), inbound(true, 0, Some(0.049))];
    assert_eq!(control.step(&swift), Some(1400));
    assert_eq!(control.step(&swift), None);
    // Three tenths of 10 in 100 are 3 in 100: between the bounds.
    let mut control = BitrateControl::new(EncoderType::VaApi, 1000, 800, 1400);
    assert_eq!(control.step(&vec![outbound(true, 100), inbound(true, 10, None)]), None);
    // Of 20 in 100 they are 6 in 100: too many.
    let mut control = BitrateControl::new(EncoderType::VaApi, 1000, 500, 1400);
    assert_eq!(
        control.step(&vec![outbound(true, 100), inbound(true, 20, None)]),
        Some(700)
    );
    assert_eq!(
        control.step(&vec![outbound(true, 200), inbound(true, 40, None)]),
        Some(500)
    );
    // The way is long: a fifth more.
    let mut control = BitrateControl::new(EncoderType::VaApi, 1000, 500, 1400);
    let clean = vec![outbound(true, 100), inbound(true, 0, Some(0.05))];
    assert_eq!(control.step(&clean), Some(1200));
    assert_eq!(control.bitrate(), 1200);
}

#[test]
fn nvidia_bitrate_does_not_change() {
    assert!(!abr_enabled(EncoderType::Nvidia));
    assert!(!abr_enabled(EncoderType::NvidiaCuda));
    assert!(abr_enabled(EncoderType::VaApi));
    assert!(abr_enabled(EncoderType::Software));
    for encoder in [EncoderType::Nvidia, EncoderType::NvidiaCuda] {
        let mut control = BitrateControl::new(encoder, 1000, 800, 1400);
        let lossy = vec![outbound(true, 100), inbound(true, 90, None)];
        assert_eq!(control.step(&lossy), None);
        let clean = vec![outbound(true, 10_000), inbound(true, 90, Some(0.01))];
        assert_eq!(control.step(&clean), None);
        assert_eq!(control.bitrate(), 1000);
    }
}

#[test]
fn steps_are_those_of_floating_point_numbers() {
    let (min, max) = (500u32, 4_000_000_000u32);
    let mut control = BitrateControl::new(EncoderType::Software, 50_000, min, max);
    let (mut current, mut ema) = (50_000u32, 0.0f64);
    let (mut sent, mut lost) = (0u64, 0i64);
    let mut seed: u64 = 3;
    for turn in 0..3000u64 {
        seed = seed.wrapping_mul(6364136223846793005).wrapping_add(1442695040888963407);
        let more = (seed >> 40) % 1000;
        // Long times without loss let the mean fade away.
        let gone = if turn % 1000 < 40 { (seed >> 20) % (more / 5 + 1) } else { 0 };
        sent += more;
        lost += gone as i64;
        let times = [(seed >> 33) as f64 / 1e11, 0.0, (seed >> 50) as f64 / 3e5];
        let stats = vec![
            outbound(true, sent),
            inbound(true, lost, Some(times[0])),
            inbound(true, lost, Some(times[1])),
            inbound(false, 0, Some(9.0)),
            inbound(true, lost, Some(times[2])),
        ];
        let rate = if more > 0 { gone as f64 / more as f64 } else { 0.0 };
        ema = ema * 0.7 + rate * 0.3;
        let rtt = (times[0] + times[1] + times[2]) / 3.0;
        let next = if ema > 0.05 {
            ((current as f64 * 0.7) as u32).max(min)
        } else if ema < 0.01 && rtt < 0.05 {
            ((current as f64 * 1.5) as u32).min(max)
        } else if ema < 0.01 {
            ((current as f64 * 1.2) as u32).min(max)
        } else {
            current
        };
        let want = if next != current { Some(next) } else { None };
        assert_eq!(control.step(&stats), want, "turn {turn}");
        current = next;
        assert_eq!(control.bitrate(), current);
    }
}
