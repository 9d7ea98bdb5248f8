use beam_agent::abr::BitrateControl;
use beam_agent::capture_loop::format_capture_heartbeat_fps;
use beam_agent::encoder::EncoderType;
use beam_agent::input::InputInjector;
use beam_agent::number::{
    bits_of_whole, negated_bits, share_is_below, share_of_bits, sum_of_bits, whole_part_of_bits,
};
use beam_agent::peer::StreamStats;

/// Numbers of all kinds, with those that are infinite or none.
fn numbers() -> Vec<f64> {
    let mut v = vec![
        0.0,
        -0.0,
        1.0,
        -1.0,
        0.3,
        -0.7,
        0.05,
        2_147_483_646.5,
        2_147_483_647.0,
        2_147_483_648.0,
        -2_147_483_648.0,
        -2_147_483_648.5,
        -2_147_483_649.0,
        4_294_967_296.0,
        1e-300,
        5e-324,
        -5e-324,
        1e18,
        1e300,
        -1e300,
        f64::MAX,
        f64::MIN,
        f64::MIN_POSITIVE,
        f64::INFINITY,
        f64::NEG_INFINITY,
        f64::NAN,
    ];
    let mut seed: u64 = 5;
    for _ in 0..40 {
        seed = seed
            .wrapping_mul(6364136223846793005)
            .wrapping_add(1442695040888963407);
        v.push(f64::from_bits(seed));
    }
    v
}

fn same(a: f64, b: f64) -> bool {
    a == b || (a.is_nan() && b.is_nan())
}

#[test]
fn sums_are_those_of_floating_point_numbers() {
    for a in numbers() {
        for b in numbers() {
            let sum = f64::from_bits(sum_of_bits(a.to_bits(), b.to_bits()));
            assert!(same(sum, a + b), "{a} + {b} gave {sum}");
        }
    }
    let opposites = sum_of_bits(f64::INFINITY.to_bits(), f64::NEG_INFINITY.to_bits());
    assert!(f64::from_bits(opposites).is_nan());
    let doubled = sum_of_bits(f64::MAX.to_bits(), f64::MAX.to_bits());
    assert_eq!(f64::from_bits(doubled), f64::INFINITY);
}

#[test]
fn whole_parts_are_those_of_a_cast() {
    for a in numbers() {
        assert_eq!(whole_part_of_bits(a.to_bits()), a as i32, "{a}");
    }
}

#[test]
fn whole_numbers_have_their_bits() {
    for n in [0i64, 1, -1, 30, -2_147_483_648, 2_147_483_648, 4_294_967_295] {
        assert_eq!(f64::from_bits(bits_of_whole(n)), n as f64);
    }
}

#[test]
fn shares_are_compared_as_floating_point_numbers() {
    let bound = 0.05f64;
    for a in numbers() {
        for count in [1u32, 2, 3, 7, u32::MAX] {
            let below = share_is_below(a.to_bits(), count, bound.to_bits());
            assert_eq!(below, a / f64::from(count) < bound, "{a} / {count}");
        }
    }
}

#[test]
fn scrolls_of_any_size_accumulate() {
    for a in numbers() {
        for b in numbers() {
            let mut ours = a.to_bits();
            let discrete = InputInjector::accumulate_scroll(&mut ours, b.to_bits());
            let mut native = a + b;
            let expected = native as i32;
            if expected != 0 {
                native -= f64::from(expected);
            }
            assert_eq!(discrete, expected, "{a} and {b}");
            assert!(same(f64::from_bits(ours), native), "{a} and {b}");
        }
    }
}

fn bitrate_after(times: &[f64]) -> u32 {
    let stats = times
        .iter()
        .map(|time| StreamStats::RemoteInbound {
            video: true,
            packets_lost: 0,
            round_trip_time: Some(time.to_bits()),
        })
        .collect();
    let mut control = BitrateControl::new(EncoderType::Software, 1000, 100, 10_000);
    control.step(&stats);
    control.bitrate()
}

#[test]
fn round_trips_of_any_size_are_counted() {
    for a in numbers() {
        for b in numbers() {
            let quick = (0.0 + a + b) / 2.0 < 0.05;
            let expected = if quick { 1500 } else { 1200 };
            assert_eq!(bitrate_after(&[a, b]), expected, "{a} and {b}");
        }
    }
    assert_eq!(bitrate_after(&[]), 1500);
    assert_eq!(bitrate_after(&[f64::NAN]), 1200);
    assert_eq!(bitrate_after(&[f64::INFINITY]), 1200);
    assert_eq!(bitrate_after(&[-1.0]), 1500);
}

#[test]
fn heartbeats_of_any_length_are_written() {
    for elapsed in numbers() {
        for frames in [0u64, 1, 7, 120, 1 << 60, u64::MAX] {
            let expected = if elapsed <= 0.0 {
                "0.0".to_string()
            } else {
                format!("{:.1}", frames as f64 / elapsed)
            };
            let text = format_capture_heartbeat_fps(frames, elapsed.to_bits());
            assert_eq!(text, expected, "{frames} in {elapsed}");
        }
    }
    assert_eq!(format_capture_heartbeat_fps(7, f64::NAN.to_bits()), "NaN");
    assert_eq!(format_capture_heartbeat_fps(7, 5e-324f64.to_bits()), "inf");
    assert_eq!(format_capture_heartbeat_fps(7, f64::INFINITY.to_bits()), "0.0");
    assert_eq!(
        format_capture_heartbeat_fps(3, 1e-30f64.to_bits()),
        format!("{:.1}", 3.0 / 1e-30)
    );
}

#[test]
fn shares_and_opposites_are_those_of_floating_point_numbers() {
    for a in numbers() {
        assert!(same(f64::from_bits(negated_bits(a.to_bits())), -a));
        if a.abs() < 1e-250 {
            continue;
        }
        for count in [1u32, 3, 30, u32::MAX] {
            let share = f64::from_bits(share_of_bits(a.to_bits(), count));
            assert!(same(share, a / f64::from(count)), "{a} / {count}");
        }
    }
}

#[test]
fn scrolls_without_bound_keep_counting() {
    let mut injector = InputInjector::new(7, true).unwrap();
    // Two notches to the right, and none up or down.
    assert_eq!(injector.inject_scroll(60.0f64.to_bits(), f64::NAN.to_bits()).len(), 4);
    // An endless sum stays endless, and no number at all never clicks.
    let mut accum = f64::INFINITY.to_bits();
    let more = f64::NEG_INFINITY.to_bits();
    assert_eq!(InputInjector::accumulate_scroll(&mut accum, more), 0);
    assert!(f64::from_bits(accum).is_nan());
}

#[test]
fn axes_scroll_one_by_one() {
    let thirty = 30.0f64.to_bits();
    let half = 15.0f64.to_bits();
    let mut both = InputInjector::new(7, true).unwrap();
    let mut single = InputInjector::new(7, true).unwrap();
    for (dx, dy) in [(thirty, half), (half, half), (half, thirty)] {
        let mut events = single.inject_scroll_vertical(dy);
        events.extend(single.inject_scroll_horizontal(dx));
        assert_eq!(both.inject_scroll(dx, dy), events);
    }
    // A vertical scroll leaves the horizontal axis as it was.
    let mut injector = InputInjector::new(7, true).unwrap();
    assert_eq!(injector.inject_scroll_horizontal(half).len(), 0);
    assert_eq!(injector.inject_scroll_vertical(thirty).len(), 2);
    assert_eq!(injector.inject_scroll_vertical(thirty)[0].detail, 5);
    let right = injector.inject_scroll_horizontal(half);
    assert_eq!(right.len(), 2);
    assert_eq!(right[0].detail, 7);
}
