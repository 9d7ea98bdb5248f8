//! Adaptive bitrate: what follows from the packets that were lost.

use crate::double::{
    double_product, double_quotient, double_sum, nearest_double, powers_grow,
    rounding_keeps_lower_bounds, rounding_keeps_upper_bounds, Double, SignedDouble,
};
use crate::encoder::EncoderType;
use crate::float_bits::{exponent_bits, scaled_size};
use crate::number::{
    number_is_below, number_of, number_share, number_sum, share_is_below, sum_of_bits, Number,
};
use crate::peer::StreamStats;
use vstd::arithmetic::power2::{lemma2_to64_rest, lemma_pow2_adds, lemma_pow2_pos, pow2};
use vstd::prelude::*;

verus! {

/// What the statistics say of the video streams: of several, the last counts.
#[derive(Debug, Clone, Copy, PartialEq, Eq, Structural)]
pub struct VideoTotals {
    pub packets_sent: u64,
    pub packets_lost: i64,
}

/// The totals after one more stream.
pub open spec fn with_stream(totals: VideoTotals, stats: StreamStats) -> VideoTotals {
    match stats {
        StreamStats::Outbound { video: true, packets_sent } => VideoTotals {
            packets_sent,
            ..totals
        },
        StreamStats::RemoteInbound { video: true, packets_lost, .. } => VideoTotals {
            packets_lost,
            ..totals
        },
        _ => totals,
    }
}

/// What the statistics say of the video streams.
pub open spec fn totals_of(stats: Seq<StreamStats>) -> VideoTotals
    decreases stats.len(),
{
    if stats.len() == 0 {
        VideoTotals { packets_sent: 0, packets_lost: 0 }
    } else {
        with_stream(totals_of(stats.drop_last()), stats.last())
    }
}

/// What the statistics say of the video streams.
pub fn video_totals(stats: &Vec<StreamStats>) -> (r: VideoTotals)
    ensures
        r == totals_of(stats@),
{
    let mut totals = VideoTotals { packets_sent: 0, packets_lost: 0 };
    let mut i: usize = 0;
    while i < stats.len()
        invariant
            i <= stats@.len(),
            totals == totals_of(stats@.take(i as int)),
        decreases stats.len() - i,
    {
        assert(stats@.take(i as int + 1).drop_last() =~= stats@.take(i as int));
        match stats[i] {
            StreamStats::Outbound { video, packets_sent } => {
                if video {
                    totals = VideoTotals { packets_sent, packets_lost: totals.packets_lost };
                }
            },
            StreamStats::RemoteInbound { video, packets_lost, .. } => {
                if video {
                    totals = VideoTotals { packets_sent: totals.packets_sent, packets_lost };
                }
            },
            StreamStats::Other => {},
        }
        i = i + 1;
    }
    assert(stats@.take(stats@.len() as int) =~= stats@);
    totals
}

/// The difference of two counters, held to what 64 bits with a sign can hold.
pub open spec fn saturated_difference(a: i64, b: i64) -> int {
    if a - b > i64::MAX {
        i64::MAX as int
    } else if a - b < i64::MIN {
        i64::MIN as int
    } else {
        a - b
    }
}

/// The packets of one interval.
#[derive(Debug, Clone, Copy, PartialEq, Eq, Structural)]
pub struct Interval {
    pub sent: u64,
    /// Lost packets; a count that fell back is none.
    pub lost: u64,
}

// ---------------------------------------------------------------------------
// The link
// ---------------------------------------------------------------------------

/// The round-trip time that one stream reports, where it is one of video.
pub open spec fn round_trip_of(stats: StreamStats) -> Option<u64> {
    match stats {
        StreamStats::RemoteInbound { video: true, round_trip_time, .. } => round_trip_time,
        _ => None,
    }
}

/// The round-trip times of some streams together, and how many there are.
pub open spec fn round_trips(stats: Seq<StreamStats>) -> (Number, nat)
    decreases stats.len(),
{
    if stats.len() == 0 {
        (Number::Finite(0), 0)
    } else {
        let front = round_trips(stats.drop_last());
        match round_trip_of(stats.last()) {
            Some(bits) => (number_sum(front.0, number_of(bits)), front.1 + 1),
            None => front,
        }
    }
}

/// The mean round-trip time, in seconds; 0 where none is known.
pub open spec fn mean_round_trip(stats: Seq<StreamStats>) -> Number {
    let (sum, count) = round_trips(stats);
    if count > 0 {
        number_share(sum, count)
    } else {
        Number::Finite(0)
    }
}

/// A number that is not zero has no exponent beyond its size.
proof fn lemma_exponent_is_small(d: Double, bound: nat)
    requires
        d.mantissa > 0,
        d.scaled() < pow2(bound),
    ensures
        d.exponent < bound,
{
    if d.exponent >= bound {
        powers_grow(bound, d.exponent as nat);
        let e = pow2(d.exponent as nat);
        assert(d.mantissa * e >= e) by (nonlinear_arith)
            requires
                d.mantissa >= 1,
        ;
    }
}

/// The first of some streams have no more round-trip times than all.
proof fn lemma_front_has_fewer(stats: Seq<StreamStats>, n: int)
    requires
        0 <= n <= stats.len(),
    ensures
        round_trips(stats.take(n)).1 <= round_trips(stats).1,
    decreases stats.len() - n,
{
    if n < stats.len() {
        lemma_front_has_fewer(stats, n + 1);
        assert(stats.take(n + 1).drop_last() =~= stats.take(n));
    } else {
        assert(stats.take(n) =~= stats);
    }
}

/// Whether the mean round-trip time of some streams is less than fifty milliseconds.
fn is_quick(stats: &Vec<StreamStats>) -> (r: bool)
    requires
        round_trips(stats@).1 <= u32::MAX,
    ensures
        r == number_is_below(mean_round_trip(stats@), scaled_size(FIVE_HUNDREDTHS) as int),
{
    let mut sum: u64 = 0;
    let mut count: u32 = 0;
    let mut i: usize = 0;
    while i < stats.len()
        invariant
            i <= stats@.len(),
            round_trips(stats@).1 <= u32::MAX,
            (number_of(sum), count as nat) == round_trips(stats@.take(i as int)),
        decreases stats.len() - i,
    {
        assert(stats@.take(i as int + 1).drop_last() =~= stats@.take(i as int));
        proof {
            lemma_front_has_fewer(stats@, i as int + 1);
        }
        if let StreamStats::RemoteInbound { video, round_trip_time, .. } = stats[i] {
            if video {
                if let Some(bits) = round_trip_time {
                    sum = sum_of_bits(sum, bits);
                    count = count + 1;
                }
            }
        }
        i = i + 1;
    }
    assert(stats@.take(stats@.len() as int) =~= stats@);
    proof {
        assert(exponent_bits(FIVE_HUNDREDTHS) == 0x3FA);
        let e = pow2(0x3F9);
        powers_grow(200, 0x3F9);
        lemma_pow2_pos(200);
        assert(0x19_9999_9999_999A * e >= e) by (nonlinear_arith);
        assert(scaled_size(FIVE_HUNDREDTHS) >= pow2(200));
    }
    count == 0 || share_is_below(sum, count, FIVE_HUNDREDTHS)
}

/// Where the link stands, by the share of packets that are lost and the time
/// that they take.
#[derive(Debug, Clone, Copy, PartialEq, Eq, Structural)]
pub enum LinkState {
    /// More than five in a hundred packets are lost.
    Lossy,
    /// Less than one in a hundred is lost, and the way takes less than fifty
    /// milliseconds.
    Swift,
    /// Less than one in a hundred is lost.
    Clean,
    /// Between the two.
    Steady,
}

/// The bits of 0.05: a share of packets above which a link is lossy, and a time in
/// seconds below which it is swift.
pub const FIVE_HUNDREDTHS: u64 = 0x3FA9_9999_9999_999A;

/// The bits of 0.01: a share of packets below which a link is clean.
pub const ONE_HUNDREDTH: u64 = 0x3F84_7AE1_47AE_147B;

/// The bits of 0.7: what the bitrate falls to on a lossy link, and the share that an
/// earlier loss keeps in the mean.
pub const SEVEN_TENTHS: u64 = 0x3FE6_6666_6666_6666;

/// The bits of 0.3: the share that a new loss has in the mean.
pub const THREE_TENTHS: u64 = 0x3FD3_3333_3333_3333;

/// The bits of 1.5: what the bitrate rises to on a swift link.
pub const THREE_HALVES: u64 = 0x3FF8_0000_0000_0000;

/// The bits of 1.2: what the bitrate rises to on a clean link.
pub const SIX_FIFTHS: u64 = 0x3FF3_3333_3333_3333;

/// Where a link stands. The loss is given times two to the power 1074.
pub open spec fn link_of(loss: nat, round_trip: Number) -> LinkState {
    if loss > scaled_size(FIVE_HUNDREDTHS) {
        LinkState::Lossy
    } else if loss < scaled_size(ONE_HUNDREDTH) && number_is_below(
        round_trip,
        scaled_size(FIVE_HUNDREDTHS) as int,
    ) {
        LinkState::Swift
    } else if loss < scaled_size(ONE_HUNDREDTH) {
        LinkState::Clean
    } else {
        LinkState::Steady
    }
}

/// Where a link stands.
fn link_state(loss: Double, stats: &Vec<StreamStats>) -> (r: LinkState)
    requires
        loss.wf(),
        round_trips(stats@).1 <= u32::MAX,
    ensures
        r == link_of(loss.scaled(), mean_round_trip(stats@)),
{
    assert(exponent_bits(FIVE_HUNDREDTHS) == 0x3FA);
    assert(exponent_bits(ONE_HUNDREDTH) == 0x3F8);
    let high: Double = Double::from_bits(FIVE_HUNDREDTHS);
    let low: Double = Double::from_bits(ONE_HUNDREDTH);
    if high.is_below(loss) {
        LinkState::Lossy
    } else if loss.is_below(low) {
        if is_quick(stats) {
            LinkState::Swift
        } else {
            LinkState::Clean
        }
    } else {
        LinkState::Steady
    }
}

/// The share of packets that were lost in an interval, times two to the power 1074;
/// 0 where none was sent.
pub open spec fn loss_of(interval: Interval) -> nat {
    if interval.sent > 0 {
        double_quotient(
            nearest_double(interval.lost as nat * pow2(1074), 1),
            nearest_double(interval.sent as nat * pow2(1074), 1),
        )
    } else {
        0
    }
}

/// The mean loss after one more interval: seven tenths of what it was and three of
/// the new one, in floating-point numbers.
pub open spec fn smoothed_loss(mean: nat, loss: nat) -> nat {
    double_sum(
        double_product(mean, scaled_size(SEVEN_TENTHS)) as int,
        double_product(loss, scaled_size(THREE_TENTHS)) as int,
    ) as nat
}

/// The largest mean loss that there can be, times two to the power 1074.
pub open spec fn max_loss() -> nat {
    pow2(1138)
}

/// Whether the bitrate of an encoder may change while it runs. NVIDIA's encoders
/// then spoil the colours.
pub fn abr_enabled(encoder: EncoderType) -> (r: bool)
    ensures
        r == !(encoder == EncoderType::Nvidia || encoder == EncoderType::NvidiaCuda),
{
    encoder != EncoderType::Nvidia && encoder != EncoderType::NvidiaCuda
}

/// A bitrate times a factor in floating-point numbers: the whole part of it, as far
/// as 32 bits reach. The factor is given times two to the power 1074.
pub open spec fn scaled_bitrate(bitrate: u32, factor: nat) -> u32 {
    let whole = double_product(bitrate as nat * pow2(1074), factor) / pow2(1074);
    if whole > u32::MAX {
        u32::MAX
    } else {
        whole as u32
    }
}

/// The bitrate that follows from a link's state: not below the lowest where it
/// falls, nor above the highest where it rises.
pub open spec fn next_bitrate(link: LinkState, current: u32, min: u32, max: u32) -> u32 {
    match link {
        LinkState::Lossy => at_least(scaled_bitrate(current, scaled_size(SEVEN_TENTHS)), min),
        LinkState::Swift => at_most(scaled_bitrate(current, scaled_size(THREE_HALVES)), max),
        LinkState::Clean => at_most(scaled_bitrate(current, scaled_size(SIX_FIFTHS)), max),
        LinkState::Steady => current,
    }
}

pub open spec fn at_least(n: u32, min: u32) -> u32 {
    if n < min {
        min
    } else {
        n
    }
}

pub open spec fn at_most(n: u32, max: u32) -> u32 {
    if n > max {
        max
    } else {
        n
    }
}

/// How the factors stand to one.
proof fn lemma_factors()
    ensures
        exponent_bits(SEVEN_TENTHS) == 0x3FE,
        exponent_bits(THREE_TENTHS) == 0x3FD,
        exponent_bits(THREE_HALVES) == 0x3FF,
        exponent_bits(SIX_FIFTHS) == 0x3FF,
        4 * scaled_size(SEVEN_TENTHS) <= 3 * pow2(1074),
        2 * scaled_size(THREE_TENTHS) <= pow2(1074),
        pow2(1074) <= scaled_size(THREE_HALVES) <= 2 * pow2(1074),
        pow2(1074) <= scaled_size(SIX_FIFTHS) <= 2 * pow2(1074),
{
    lemma2_to64_rest();
    lemma_pow2_adds(53, 1021);
    lemma_pow2_adds(54, 1020);
    lemma_pow2_adds(52, 1022);
    assert(exponent_bits(SEVEN_TENTHS) == 0x3FE);
    assert(exponent_bits(THREE_TENTHS) == 0x3FD);
    assert(exponent_bits(THREE_HALVES) == 0x3FF);
    assert(exponent_bits(SIX_FIFTHS) == 0x3FF);
    assert(scaled_size(SEVEN_TENTHS) == 0x16_6666_6666_6666 * pow2(1021));
    assert(scaled_size(THREE_TENTHS) == 0x13_3333_3333_3333 * pow2(1020));
    assert(scaled_size(THREE_HALVES) == 0x18_0000_0000_0000 * pow2(1022));
    assert(scaled_size(SIX_FIFTHS) == 0x13_3333_3333_3333 * pow2(1022));
}

/// A bitrate times a factor.
fn scale_bitrate(bitrate: u32, factor: u64) -> (r: u32)
    requires
        exponent_bits(factor) <= 0x3FF,
        scaled_size(factor) <= 2 * pow2(1074),
    ensures
        r == scaled_bitrate(bitrate, scaled_size(factor)),
{
    let product: Double = Double::whole(bitrate).times(Double::from_bits(factor));
    proof {
        let one = pow2(1074);
        let f = scaled_size(factor);
        let twice = (2 * bitrate) as nat;
        lemma_pow2_pos(1074);
        lemma2_to64_rest();
        lemma_pow2_adds(64, 1074);
        assert(bitrate as nat * one * f <= twice * one * one) by (nonlinear_arith)
            requires
                f <= 2 * one,
                twice == 2 * bitrate,
        ;
        rounding_keeps_upper_bounds(bitrate as nat * one * f, one, twice, 1074);
        assert(twice * one < 0x1_0000_0000_0000_0000 * one) by (nonlinear_arith)
            requires
                twice < 0x1_0000_0000_0000_0000,
                one > 0,
        ;
    }
    let whole: u64 = product.whole_part();
    if whole > 0xFFFF_FFFF {
        0xFFFF_FFFF
    } else {
        whole as u32
    }
}

/// The state of the bitrate control.
#[derive(Debug, Clone, Copy, PartialEq, Eq, Structural)]
pub struct BitrateControl {
    bitrate: u32,
    min: u32,
    max: u32,
    enabled: bool,
    seen: VideoTotals,
    /// The mean share of packets that are lost.
    loss: Double,
}

impl BitrateControl {
    /// The bitrate.
    pub closed spec fn current(self) -> u32 {
        self.bitrate
    }

    /// The lowest and the highest bitrate.
    pub closed spec fn bounds(self) -> (u32, u32) {
        (self.min, self.max)
    }

    /// Whether the bitrate may change.
    pub closed spec fn is_enabled(self) -> bool {
        self.enabled
    }

    /// The totals that were seen last.
    pub closed spec fn totals(self) -> VideoTotals {
        self.seen
    }

    /// The mean share of packets that are lost, times two to the power 1074.
    pub closed spec fn mean_loss(self) -> nat {
        self.loss.scaled()
    }

    /// What holds of a control at all times.
    pub closed spec fn wf(self) -> bool {
        &&& self.loss.wf()
        &&& self.loss.exponent <= 2000
        &&& self.loss.scaled() <= max_loss()
    }

    /// The control at its start.
    pub fn new(encoder: EncoderType, initial: u32, min: u32, max: u32) -> (r: Self)
        ensures
            is_new_control(r, encoder, initial, min, max),
    {
        assert(0 * pow2(0) == 0);
        BitrateControl {
            bitrate: initial,
            min,
            max,
            enabled: abr_enabled(encoder),
            seen: VideoTotals { packets_sent: 0, packets_lost: 0 },
            loss: Double { mantissa: 0, exponent: 0 },
        }
    }

    /// The bitrate.
    pub fn bitrate(&self) -> (r: u32)
        ensures
            r == self.current(),
    {
        self.bitrate
    }

    /// The packets from the totals that were seen last to new ones. Counters that
    /// start anew count as nothing.
    pub fn interval(&self, totals: VideoTotals) -> (r: Interval)
        ensures
            r == interval_of(self.totals(), totals),
            self.totals().packets_sent <= totals.packets_sent ==> self.totals().packets_sent
                + r.sent == totals.packets_sent,
            self.totals().packets_sent > totals.packets_sent ==> r.sent == 0,
            self.totals().packets_lost <= totals.packets_lost ==> (self.totals().packets_lost
                + r.lost == totals.packets_lost || r.lost == i64::MAX),
            self.totals().packets_lost > totals.packets_lost ==> r.lost == 0,
    {
        let sent: u64 = if totals.packets_sent > self.seen.packets_sent {
            totals.packets_sent - self.seen.packets_sent
        } else {
            0
        };
        let lost: u64 = if totals.packets_lost > self.seen.packets_lost {
            let difference: i128 = totals.packets_lost as i128 - self.seen.packets_lost as i128;
            if difference > i64::MAX as i128 {
                i64::MAX as u64
            } else {
                difference as u64
            }
        } else {
            0
        };
        Interval { sent, lost }
    }

    /// Takes the statistics of a second: counts the packets, smooths the loss, and
    /// gives the new bitrate where it is another. Round-trip times are counted in 32
    /// bits.
    pub fn step(&mut self, stats: &Vec<StreamStats>) -> (r: Option<u32>)
        requires
            old(self).wf(),
            old(self).is_enabled() ==> round_trips(stats@).1 <= u32::MAX,
        ensures
            is_step(*old(self), stats@, *final(self), r),
    {
        let totals: VideoTotals = video_totals(stats);
        let interval: Interval = self.interval(totals);
        let loss: Double = smooth(self.loss, loss_rate(interval));
        self.seen = totals;
        self.loss = loss;
        if !self.enabled {
            return None;
        }
        proof {
            lemma_factors();
            assert(scaled_size(SEVEN_TENTHS) <= 2 * pow2(1074));
        }
        let next: u32 = match link_state(loss, stats) {
            LinkState::Lossy => {
                let scaled: u32 = scale_bitrate(self.bitrate, SEVEN_TENTHS);
                if scaled < self.min {
                    self.min
                } else {
                    scaled
                }
            },
            LinkState::Swift => {
                let scaled: u32 = scale_bitrate(self.bitrate, THREE_HALVES);
                if scaled > self.max {
                    self.max
                } else {
                    scaled
                }
            },
            LinkState::Clean => {
                let scaled: u32 = scale_bitrate(self.bitrate, SIX_FIFTHS);
                if scaled > self.max {
                    self.max
                } else {
                    scaled
                }
            },
            LinkState::Steady => self.bitrate,
        };
        if next == self.bitrate {
            return None;
        }
        self.bitrate = next;
        Some(next)
    }
}

/// Whether a control that takes the statistics of a second becomes another, and gives
/// a bitrate or none.
pub open spec fn is_step(
    before: BitrateControl,
    stats: Seq<StreamStats>,
    after: BitrateControl,
    r: Option<u32>,
) -> bool {
    &&& after.wf()
    &&& after.bounds() == before.bounds()
    &&& after.is_enabled() == before.is_enabled()
    &&& after.totals() == totals_of(stats)
    &&& after.mean_loss() == smoothed_loss(
        before.mean_loss(),
        loss_of(interval_of(before.totals(), totals_of(stats))),
    )
    &&& after.current() == if before.is_enabled() {
        next_bitrate(
            link_of(after.mean_loss(), mean_round_trip(stats)),
            before.current(),
            before.bounds().0,
            before.bounds().1,
        )
    } else {
        before.current()
    }
    &&& r == if after.current() != before.current() {
        Some(after.current())
    } else {
        None
    }
}

/// Whether a control is as one starts.
pub open spec fn is_new_control(
    control: BitrateControl,
    encoder: EncoderType,
    initial: u32,
    min: u32,
    max: u32,
) -> bool {
    &&& control.wf()
    &&& control.current() == initial
    &&& control.bounds() == (min, max)
    &&& control.is_enabled() == !(encoder == EncoderType::Nvidia || encoder
        == EncoderType::NvidiaCuda)
    &&& control.totals() == (VideoTotals { packets_sent: 0, packets_lost: 0 })
    &&& control.mean_loss() == 0
}

/// A session of a control: its states, the first as it starts, the statistics that lead
/// from each to the next, and what it gives for them.
pub open spec fn is_session(
    states: Seq<BitrateControl>,
    stats: Seq<Seq<StreamStats>>,
    given: Seq<Option<u32>>,
    encoder: EncoderType,
    initial: u32,
    min: u32,
    max: u32,
) -> bool {
    &&& states.len() == stats.len() + 1
    &&& given.len() == stats.len()
    &&& is_new_control(states[0], encoder, initial, min, max)
    &&& forall|i: int|
        0 <= i < stats.len() ==> is_step(
            states[i],
            #[trigger] stats[i],
            states[i + 1],
            given[i],
        )
}

/// With an encoder of NVIDIA no other bitrate is ever given, whatever is lost and
/// however long the way takes.
pub proof fn nvidia_bitrate_never_changes(
    states: Seq<BitrateControl>,
    stats: Seq<Seq<StreamStats>>,
    given: Seq<Option<u32>>,
    encoder: EncoderType,
    initial: u32,
    min: u32,
    max: u32,
)
    requires
        is_session(states, stats, given, encoder, initial, min, max),
        encoder == EncoderType::Nvidia || encoder == EncoderType::NvidiaCuda,
    ensures
        forall|i: int| 0 <= i < given.len() ==> (#[trigger] given[i]) is None,
        forall|i: int| 0 <= i < states.len() ==> (#[trigger] states[i]).current() == initial,
{
    assert forall|i: int| 0 <= i < given.len() implies (#[trigger] given[i]) is None by {
        lemma_still_off(states, stats, given, encoder, initial, min, max, i);
        assert(is_step(states[i], stats[i], states[i + 1], given[i]));
    }
    assert forall|i: int| 0 <= i < states.len() implies (#[trigger] states[i]).current()
        == initial by {
        lemma_still_off(states, stats, given, encoder, initial, min, max, i);
    }
}

/// A control that is off stays off.
proof fn lemma_still_off(
    states: Seq<BitrateControl>,
    stats: Seq<Seq<StreamStats>>,
    given: Seq<Option<u32>>,
    encoder: EncoderType,
    initial: u32,
    min: u32,
    max: u32,
    i: int,
)
    requires
        is_session(states, stats, given, encoder, initial, min, max),
        encoder == EncoderType::Nvidia || encoder == EncoderType::NvidiaCuda,
        0 <= i < states.len(),
    ensures
        !states[i].is_enabled(),
        states[i].current() == initial,
    decreases i,
{
    if i > 0 {
        lemma_still_off(states, stats, given, encoder, initial, min, max, i - 1);
        assert(is_step(states[i - 1], stats[i - 1], states[i], given[i - 1]));
    }
}

/// The packets from some totals to later ones.
pub open spec fn interval_of(before: VideoTotals, after: VideoTotals) -> Interval {
    Interval {
        sent: if after.packets_sent > before.packets_sent {
            (after.packets_sent - before.packets_sent) as u64
        } else {
            0
        },
        lost: if after.packets_lost > before.packets_lost {
            saturated_difference(after.packets_lost, before.packets_lost) as u64
        } else {
            0
        },
    }
}

/// The share of packets that were lost in an interval.
fn loss_rate(interval: Interval) -> (r: Double)
    requires
        interval.lost <= i64::MAX,
    ensures
        r.wf(),
        r.scaled() == loss_of(interval),
        r.scaled() <= pow2(1137),
        r.exponent <= 2000,
{
    if interval.sent == 0 {
        assert(0 * pow2(0) == 0);
        return Double { mantissa: 0, exponent: 0 };
    }
    let lost: Double = Double::nearest_whole(interval.lost);
    let sent: Double = Double::nearest_whole(interval.sent);
    let rate: Double = lost.over(sent);
    proof {
        let one = pow2(1074);
        let n = interval.lost as nat;
        lemma2_to64_rest();
        lemma_pow2_pos(1074);
        lemma_pow2_adds(63, 1074);
        assert(n * one <= 1 * pow2(1137) * 1) by (nonlinear_arith)
            requires
                n <= 0x8000_0000_0000_0000,
                pow2(1137) == 0x8000_0000_0000_0000 * one,
        ;
        rounding_keeps_upper_bounds(n * one, 1, 1, 1137);
        let m = interval.sent as nat;
        assert(1 * one * 1 <= m * one) by (nonlinear_arith)
            requires
                m >= 1,
        ;
        rounding_keeps_lower_bounds(m * one, 1, 1, 1074);
        let l = lost.scaled();
        let s = sent.scaled();
        assert(l * one <= 1 * pow2(1137) * s) by (nonlinear_arith)
            requires
                l <= pow2(1137),
                one <= s,
        ;
        rounding_keeps_upper_bounds(l * one, s, 1, 1137);
    }
    rate
}

/// The mean loss after one more interval.
fn smooth(mean: Double, loss: Double) -> (r: Double)
    requires
        mean.wf(),
        mean.exponent <= 2000,
        mean.scaled() <= max_loss(),
        loss.wf(),
        loss.exponent <= 2000,
        loss.scaled() <= pow2(1137),
    ensures
        r.wf(),
        r.exponent <= 2000,
        r.scaled() <= max_loss(),
        r.scaled() == smoothed_loss(mean.scaled(), loss.scaled()),
{
    proof {
        lemma_factors();
    }
    let kept: Double = Double::from_bits(SEVEN_TENTHS);
    let added: Double = Double::from_bits(THREE_TENTHS);
    let old_part: Double = mean.times(kept);
    let new_part: Double = loss.times(added);
    proof {
        let one = pow2(1074);
        let a = mean.scaled();
        let b = loss.scaled();
        let f = scaled_size(SEVEN_TENTHS);
        let g = scaled_size(THREE_TENTHS);
        lemma_pow2_pos(1074);
        vstd::arithmetic::power2::lemma2_to64();
        lemma_pow2_adds(2, 1136);
        lemma_pow2_adds(1, 1136);
        let u = pow2(1136);
        assert(a * f <= 3 * u * one) by (nonlinear_arith)
            requires
                a <= 4 * u,
                4 * f <= 3 * one,
        ;
        rounding_keeps_upper_bounds(a * f, one, 3, 1136);
        assert(b * g <= 1 * u * one) by (nonlinear_arith)
            requires
                b <= 2 * u,
                2 * g <= one,
        ;
        rounding_keeps_upper_bounds(b * g, one, 1, 1136);
        let sum = (old_part.scaled() + new_part.scaled()) as nat;
        assert(sum <= 1 * pow2(1138) * 1);
        rounding_keeps_upper_bounds(sum, 1, 1, 1138);
        lemma2_to64_rest();
        lemma_pow2_adds(64, 42);
        assert(mean.mantissa * kept.mantissa < pow2(106)) by (nonlinear_arith)
            requires
                mean.mantissa < 0x20_0000_0000_0000,
                kept.mantissa < 0x20_0000_0000_0000,
                pow2(106) == 0x1_0000_0000_0000_0000 * 0x400_0000_0000,
        ;
        assert(loss.mantissa * added.mantissa < pow2(106)) by (nonlinear_arith)
            requires
                loss.mantissa < 0x20_0000_0000_0000,
                added.mantissa < 0x20_0000_0000_0000,
                pow2(106) == 0x1_0000_0000_0000_0000 * 0x400_0000_0000,
        ;
    }
    let sum: SignedDouble = SignedDouble { negative: false, size: old_part }.plus(
        SignedDouble { negative: false, size: new_part },
    );
    if sum.size.mantissa == 0 {
        assert(0 * pow2(0) == 0);
        assert(sum.size.scaled() == 0) by (nonlinear_arith)
            requires
                sum.size.scaled() == sum.size.mantissa as nat * pow2(sum.size.exponent as nat),
                sum.size.mantissa == 0,
        ;
        return Double { mantissa: 0, exponent: 0 };
    }
    proof {
        powers_grow(1138, 1139);
        lemma_pow2_adds(1, 1138);
        vstd::arithmetic::power2::lemma2_to64();
        lemma_pow2_pos(1138);
        lemma_exponent_is_small(sum.size, 1139);
    }
    sum.size
}

/// The bitrate stays between its bounds, whatever the link does.
pub proof fn bitrate_stays_in_bounds(link: LinkState, current: u32, min: u32, max: u32)
    requires
        min <= current <= max,
    ensures
        min <= next_bitrate(link, current, min, max) <= max,
{
    lemma_factors();
    lemma_scaling(current, scaled_size(SEVEN_TENTHS));
    lemma_scaling(current, scaled_size(THREE_HALVES));
    lemma_scaling(current, scaled_size(SIX_FIFTHS));
}

/// A lossy link never raises the bitrate, and a clean one never lowers it.
pub proof fn bitrate_follows_the_link(link: LinkState, current: u32, min: u32, max: u32)
    requires
        min <= current <= max,
    ensures
        link == LinkState::Lossy ==> next_bitrate(link, current, min, max) <= current,
        link == LinkState::Swift || link == LinkState::Clean ==> next_bitrate(
            link,
            current,
            min,
            max,
        ) >= current,
        link == LinkState::Steady ==> next_bitrate(link, current, min, max) == current,
{
    lemma_factors();
    lemma_scaling(current, scaled_size(SEVEN_TENTHS));
    lemma_scaling(current, scaled_size(THREE_HALVES));
    lemma_scaling(current, scaled_size(SIX_FIFTHS));
}

/// By how much the bitrate moves: a lossy link takes three tenths of it, a swift one
/// adds a half to it and a clean one a fifth, in whole units and within the bounds.
pub proof fn bitrate_moves_by_fixed_shares(current: u32, min: u32, max: u32)
    requires
        min <= current <= max,
    ensures
        ({
            let lower = next_bitrate(LinkState::Lossy, current, min, max);
            let swift = next_bitrate(LinkState::Swift, current, min, max);
            let clean = next_bitrate(LinkState::Clean, current, min, max);
            &&& lower == min || 7 * current - 10 <= 10 * lower <= 7 * current
            &&& 10 * lower >= 7 * current - 10
            &&& swift == max || swift == u32::MAX || swift == 3 * current / 2
            &&& 2 * swift <= 3 * current
            &&& clean == max || clean == u32::MAX || 6 * current - 5 <= 5 * clean
            &&& 5 * clean <= 6 * current
        }),
{
    let one = pow2(1074);
    let n = current as nat;
    lemma_pow2_pos(1074);
    lemma_factors();
    lemma_tenths(n, scaled_size(SEVEN_TENTHS), 7);
    lemma_tenths(n, scaled_size(SIX_FIFTHS), 12);
    // A half more.
    let f = scaled_size(THREE_HALVES);
    let half = pow2(1073);
    vstd::arithmetic::power2::lemma2_to64();
    lemma_pow2_adds(1, 1073);
    lemma_pow2_adds(52, 1022);
    lemma_pow2_adds(51, 1022);
    lemma2_to64_rest();
    assert(f == 0x18_0000_0000_0000 * pow2(1022));
    assert(f == 3 * half);
    let t = (3 * n) as nat;
    assert(n * one * f == t * half * one) by (nonlinear_arith)
        requires
            f == 3 * half,
            t == 3 * n,
    ;
    rounding_keeps_upper_bounds(n * one * f, one, t, 1073);
    rounding_keeps_lower_bounds(n * one * f, one, t, 1073);
    let product = double_product(n * one, f);
    assert(product == t * half);
    assert(product / one == t / 2) by {
        let w = t / 2;
        let d = t % 2;
        assert(product == w * one + d * half) by (nonlinear_arith)
            requires
                product == t * half,
                one == 2 * half,
                t == 2 * w + d,
        ;
        assert(0 <= d * half < one) by (nonlinear_arith)
            requires
                0 <= d < 2,
                one == 2 * half,
                half > 0,
        ;
        vstd::arithmetic::div_mod::lemma_fundamental_div_mod_converse(
            product as int,
            one as int,
            w as int,
            (d * half) as int,
        );
    }
}

/// A number times a factor that is just below some tenths.
proof fn lemma_tenths(n: nat, factor: nat, tenths: nat)
    requires
        n <= u32::MAX,
        tenths <= 12,
        (tenths == 7 && factor == scaled_size(SEVEN_TENTHS)) || (tenths == 12 && factor
            == scaled_size(SIX_FIFTHS)),
    ensures
        ({
            let whole = double_product(n * pow2(1074), factor) / pow2(1074);
            tenths * n - 10 <= 10 * whole <= tenths * n
        }),
{
    let one = pow2(1074);
    lemma_pow2_pos(1074);
    lemma2_to64_rest();
    vstd::arithmetic::power2::lemma2_to64();
    lemma_pow2_adds(53, 1021);
    lemma_pow2_adds(52, 1022);
    lemma_pow2_adds(1, 1021);
    lemma_pow2_adds(4, 1070);
    lemma_pow2_pos(1021);
    let u = pow2(1021);
    assert(exponent_bits(SEVEN_TENTHS) == 0x3FE);
    assert(exponent_bits(SIX_FIFTHS) == 0x3FF);
    assert(scaled_size(SEVEN_TENTHS) == 0x16_6666_6666_6666 * pow2(1021));
    assert(scaled_size(SIX_FIFTHS) == 0x13_3333_3333_3333 * pow2(1022));
    assert(one == 0x20_0000_0000_0000 * u);
    let gap = (tenths * one - 10 * factor) as nat;
    assert(10 * factor <= tenths * one);
    assert(gap <= 8 * u);
    let product = double_product(n * one, factor);
    let whole = product / one;
    // From below.
    let all = (tenths * n) as nat;
    let k: nat = if all == 0 { 0 } else { ((all - 1) / 10) as nat };
    assert(10 * (n * factor) == all * one - n * gap) by (nonlinear_arith)
        requires
            gap == tenths * one - 10 * factor,
            all == tenths * n,
    ;
    assert(n * gap <= one) by (nonlinear_arith)
        requires
            n <= 0xFFFF_FFFF,
            gap <= 8 * u,
            one == 0x20_0000_0000_0000 * u,
    ;
    assert(k * one <= n * factor) by {
        if all > 0 {
            assert(10 * (k * one) <= all * one - one) by (nonlinear_arith)
                requires
                    10 * k <= all - 1,
                    one > 0,
            ;
        } else {
            assert(k * one == 0) by (nonlinear_arith)
                requires
                    k == 0,
            ;
        }
    }
    assert(k * one * one <= n * one * factor) by (nonlinear_arith)
        requires
            k * one <= n * factor,
    ;
    rounding_keeps_lower_bounds(n * one * factor, one, k, 1074);
    assert(whole >= k) by (nonlinear_arith)
        requires
            whole == product / one,
            k * one <= product,
            one > 0,
    ;
    // From above, in sixteenths.
    let top = ((16 * all + 9) / 10) as nat;
    let unit = pow2(1070);
    assert(n * factor <= top * unit) by (nonlinear_arith)
        requires
            10 * (n * factor) <= all * one,
            one == 16 * unit,
            10 * top >= 16 * all,
    ;
    assert(n * one * factor <= top * unit * one) by (nonlinear_arith)
        requires
            n * factor <= top * unit,
    ;
    rounding_keeps_upper_bounds(n * one * factor, one, top, 1070);
    vstd::arithmetic::div_mod::lemma_fundamental_div_mod(product as int, one as int);
    assert(one * whole <= product);
    assert(16 * whole <= top) by (nonlinear_arith)
        requires
            one * whole <= product,
            product <= top * unit,
            one == 16 * unit,
            unit > 0,
    ;
    assert(10 * whole <= all);
}

/// What counts as lossy, clean and swift, in shares of the packets and in seconds: a
/// link is not lossy at a loss of five in a hundred or less, and is at more. It is clean
/// or swift at one in a hundred or less, and not at more. It is swift at fifty
/// milliseconds or less, and not at more. Each bound is met but for the part that a
/// floating-point number cannot hold.
pub proof fn link_states_have_fixed_bounds(loss: nat, round_trip: int)
    ensures
        ({
            let one = pow2(1074);
            let link = link_of(loss, Number::Finite(round_trip));
            &&& 100 * loss <= 5 * one ==> link != LinkState::Lossy
            &&& 1_000_000 * loss > 50_001 * one ==> link == LinkState::Lossy
            &&& 100 * loss <= one && 100 * round_trip <= 5 * one ==> link == LinkState::Swift
            &&& 100 * loss <= one && 1_000_000 * round_trip > 50_001 * one ==> link
                == LinkState::Clean
            &&& 1_000_000 * loss > 10_001 * one && 100 * loss <= 5 * one ==> link
                == LinkState::Steady
        }),
        100 * loss <= pow2(1074) ==> link_of(loss, Number::Nothing) == LinkState::Clean,
{
    let one = pow2(1074);
    lemma2_to64_rest();
    lemma_pow2_adds(57, 1017);
    lemma_pow2_adds(59, 1015);
    lemma_pow2_pos(1017);
    lemma_pow2_pos(1015);
    assert(exponent_bits(FIVE_HUNDREDTHS) == 0x3FA);
    assert(exponent_bits(ONE_HUNDREDTH) == 0x3F8);
    assert(scaled_size(FIVE_HUNDREDTHS) == 0x19_9999_9999_999A * pow2(1017));
    assert(scaled_size(ONE_HUNDREDTH) == 0x14_7AE1_47AE_147B * pow2(1015));
}

/// Streams that are no video do not count, wherever they stand among the others.
pub proof fn only_video_counts(front: Seq<StreamStats>, stats: StreamStats, back: Seq<StreamStats>)
    requires
        match stats {
            StreamStats::Outbound { video, .. } => !video,
            StreamStats::RemoteInbound { video, .. } => !video,
            StreamStats::Other => true,
        },
    ensures
        totals_of(front.push(stats) + back) == totals_of(front + back),
        mean_round_trip(front.push(stats) + back) == mean_round_trip(front + back),
        round_trips(front.push(stats) + back) == round_trips(front + back),
    decreases back.len(),
{
    if back.len() == 0 {
        assert(front.push(stats) + back =~= front.push(stats));
        assert(front + back =~= front);
        assert(front.push(stats).drop_last() =~= front);
    } else {
        only_video_counts(front, stats, back.drop_last());
        assert((front.push(stats) + back).drop_last() =~= front.push(stats) + back.drop_last());
        assert((front + back).drop_last() =~= front + back.drop_last());
    }
}

/// The packets that a video stream reports as sent and as lost are those that count, as
/// long as no other video stream reports some behind it.
pub proof fn video_packets_are_counted(
    front: Seq<StreamStats>,
    sent: u64,
    lost: i64,
    round_trip: Option<u64>,
)
    ensures
        ({
            let outbound = StreamStats::Outbound { video: true, packets_sent: sent };
            let inbound = StreamStats::RemoteInbound {
                video: true,
                packets_lost: lost,
                round_trip_time: round_trip,
            };
            &&& totals_of(front.push(outbound)).packets_sent == sent
            &&& totals_of(front.push(outbound)).packets_lost == totals_of(front).packets_lost
            &&& totals_of(front.push(inbound)).packets_lost == lost
            &&& totals_of(front.push(inbound)).packets_sent == totals_of(front).packets_sent
            &&& round_trips(front.push(outbound)) == round_trips(front)
            &&& round_trips(front.push(inbound)).1 == round_trips(front).1 + (
            if round_trip is Some {
                1nat
            } else {
                0nat
            })
        }),
{
    let outbound = StreamStats::Outbound { video: true, packets_sent: sent };
    let inbound = StreamStats::RemoteInbound {
        video: true,
        packets_lost: lost,
        round_trip_time: round_trip,
    };
    assert(front.push(outbound).drop_last() =~= front);
    assert(front.push(inbound).drop_last() =~= front);
}

/// A factor of at most one does not raise a bitrate, and one of at least one does
/// not lower it.
proof fn lemma_scaling(bitrate: u32, factor: nat)
    ensures
        factor <= pow2(1074) ==> scaled_bitrate(bitrate, factor) <= bitrate,
        factor >= pow2(1074) ==> scaled_bitrate(bitrate, factor) >= bitrate,
{
    let one = pow2(1074);
    let n = bitrate as nat;
    let product = double_product(n * one, factor);
    lemma_pow2_pos(1074);
    if factor <= one {
        assert(n * one * factor <= n * one * one) by (nonlinear_arith)
            requires
                factor <= one,
        ;
        rounding_keeps_upper_bounds(n * one * factor, one, n, 1074);
        assert(product / one <= n) by (nonlinear_arith)
            requires
                product <= n * one,
                one > 0,
        ;
    }
    if factor >= one {
        assert(n * one * one <= n * one * factor) by (nonlinear_arith)
            requires
                factor >= one,
        ;
        rounding_keeps_lower_bounds(n * one * factor, one, n, 1074);
        assert(product / one >= n) by (nonlinear_arith)
            requires
                product >= n * one,
                one > 0,
        ;
    }
}

/// The loss of an interval is the share of its packets that were lost: in parts of a
/// millionth or so it reaches what that share reaches, and does not exceed what it does not.
/// Where nothing was sent there is none.
pub proof fn loss_is_the_share_of_lost_packets(interval: Interval, parts: nat)
    requires
        interval.sent < 0x20_0000_0000_0000,
        interval.lost < 0x20_0000_0000_0000,
        parts < 0x20_0000_0000_0000,
    ensures
        interval.sent == 0 ==> loss_of(interval) == 0,
        interval.sent > 0 && parts * interval.sent <= interval.lost * 0x10_0000 ==> parts * pow2(
            1054,
        ) <= loss_of(interval),
        interval.sent > 0 && parts * interval.sent >= interval.lost * 0x10_0000 ==> parts * pow2(
            1054,
        ) >= loss_of(interval),
        pow2(1074) == 0x10_0000 * pow2(1054),
{
    let one = pow2(1074);
    let unit = pow2(1054);
    let lost = interval.lost as nat;
    let sent = interval.sent as nat;
    vstd::arithmetic::power2::lemma2_to64();
    lemma_pow2_adds(20, 1054);
    lemma_pow2_pos(1054);
    crate::double::numbers_round_to_themselves(lost, 1074);
    crate::double::numbers_round_to_themselves(sent, 1074);
    if sent > 0 {
        let num = lost * one * one;
        let den = sent * one;
        assert(den > 0) by (nonlinear_arith)
            requires
                den == sent * one,
                sent > 0,
                one > 0,
        ;
        if parts * sent <= lost * 0x10_0000 {
            assert(parts * unit * den <= num) by (nonlinear_arith)
                requires
                    parts * sent <= lost * 0x10_0000,
                    den == sent * one,
                    num == lost * one * one,
                    one == 0x10_0000 * unit,
            ;
            rounding_keeps_lower_bounds(num, den, parts, 1054);
        }
        if parts * sent >= lost * 0x10_0000 {
            assert(parts * unit * den >= num) by (nonlinear_arith)
                requires
                    parts * sent >= lost * 0x10_0000,
                    den == sent * one,
                    num == lost * one * one,
                    one == 0x10_0000 * unit,
            ;
            rounding_keeps_upper_bounds(num, den, parts, 1054);
        }
    }
}

/// The mean loss keeps seven tenths of what it was and takes three tenths of the new loss,
/// but for less than a thousand-millionth.
pub proof fn loss_is_smoothed_by_tenths(mean: nat, loss: nat)
    requires
        mean <= 2 * pow2(1074),
        loss <= 2 * pow2(1074),
    ensures
        7 * mean + 3 * loss - 32 * pow2(1034) <= 10 * smoothed_loss(mean, loss) <= 7 * mean + 3
            * loss + 32 * pow2(1034),
        pow2(1074) == 0x100_0000_0000 * pow2(1034),
{
    let one = pow2(1074);
    let unit = pow2(1034);
    lemma2_to64_rest();
    lemma_pow2_adds(40, 1034);
    lemma_pow2_pos(1034);
    let a = mean / unit;
    let b = loss / unit;
    vstd::arithmetic::div_mod::lemma_fundamental_div_mod(mean as int, unit as int);
    vstd::arithmetic::div_mod::lemma_fundamental_div_mod(loss as int, unit as int);
    vstd::arithmetic::div_mod::lemma_mod_bound(mean as int, unit as int);
    vstd::arithmetic::div_mod::lemma_mod_bound(loss as int, unit as int);
    assert(unit * a == a * unit && unit * b == b * unit) by (nonlinear_arith);
    assert(a <= 0x200_0000_0000) by (nonlinear_arith)
        requires
            a * unit <= 2 * (0x100_0000_0000 * unit),
            unit > 0,
    ;
    assert(b <= 0x200_0000_0000) by (nonlinear_arith)
        requires
            b * unit <= 2 * (0x100_0000_0000 * unit),
            unit > 0,
    ;
    assert((a + 1) * unit == a * unit + unit && (b + 1) * unit == b * unit + unit)
        by (nonlinear_arith);
    let (k, kk) = lemma_part(mean, a, scaled_size(SEVEN_TENTHS), 7);
    let (m, mm) = lemma_part(loss, b, scaled_size(THREE_TENTHS), 3);
    let x = double_product(mean, scaled_size(SEVEN_TENTHS));
    let y = double_product(loss, scaled_size(THREE_TENTHS));
    let low = k + m;
    let high = kk + mm;
    assert(low * unit == k * unit + m * unit && high * unit == kk * unit + mm * unit)
        by (nonlinear_arith)
        requires
            low == k + m,
            high == kk + mm,
    ;
    let sum = (x + y) as nat;
    rounding_keeps_lower_bounds(sum, 1, low, 1034);
    rounding_keeps_upper_bounds(sum, 1, high, 1034);
    let s = smoothed_loss(mean, loss);
    assert(low * unit <= s <= high * unit);
    assert(10 * (low * unit) >= (7 * a + 3 * b - 22) * unit) by (nonlinear_arith)
        requires
            10 * low >= 7 * a + 3 * b - 22,
            unit > 0,
    ;
    assert(10 * (high * unit) <= (7 * a + 3 * b + 28) * unit) by (nonlinear_arith)
        requires
            10 * high <= 7 * a + 3 * b + 28,
            unit > 0,
    ;
    assert((7 * a + 3 * b - 22) * unit == 7 * (a * unit) + 3 * (b * unit) - 22 * unit)
        by (nonlinear_arith);
    assert((7 * a + 3 * b + 28) * unit == 7 * (a * unit) + 3 * (b * unit) + 28 * unit)
        by (nonlinear_arith);
}

/// A number times a factor that is just below some tenths, held between whole units.
proof fn lemma_part(x: nat, a: nat, factor: nat, tenths: nat) -> (r: (nat, nat))
    requires
        a <= 0x200_0000_0000,
        a * pow2(1034) <= x <= (a + 1) * pow2(1034),
        (tenths == 7 && factor == scaled_size(SEVEN_TENTHS)) || (tenths == 3 && factor
            == scaled_size(THREE_TENTHS)),
    ensures
        r.0 * pow2(1034) <= double_product(x, factor) <= r.1 * pow2(1034),
        tenths * a - 11 <= 10 * r.0,
        10 * r.1 <= tenths * (a + 1) + 9,
        r.0 <= 0x400_0000_0000,
        r.1 <= 0x400_0000_0000,
{
    let one = pow2(1074);
    let unit = pow2(1034);
    lemma_pow2_pos(1034);
    lemma_pow2_pos(1020);
    lemma2_to64_rest();
    vstd::arithmetic::power2::lemma2_to64();
    lemma_pow2_adds(53, 1021);
    lemma_pow2_adds(54, 1020);
    lemma_pow2_adds(1, 1020);
    lemma_pow2_pos(1074);
    let u = pow2(1020);
    assert(exponent_bits(SEVEN_TENTHS) == 0x3FE);
    assert(exponent_bits(THREE_TENTHS) == 0x3FD);
    assert(scaled_size(SEVEN_TENTHS) == 0x16_6666_6666_6666 * pow2(1021));
    assert(scaled_size(THREE_TENTHS) == 0x13_3333_3333_3333 * pow2(1020));
    assert(one == 0x40_0000_0000_0000 * u);
    let gap = (tenths * one - 10 * factor) as nat;
    assert(10 * factor <= tenths * one);
    assert(gap <= 8 * u);
    let all = (tenths * a) as nat;
    let k: nat = if all == 0 {
        0
    } else {
        ((all - 1) / 10) as nat
    };
    let next = (tenths * (a + 1)) as nat;
    let top = ((next + 9) / 10) as nat;
    assert(all <= 7 * 0x200_0000_0000 && next <= 7 * 0x200_0000_0001) by (nonlinear_arith)
        requires
            all == tenths * a,
            next == tenths * (a + 1),
            tenths <= 7,
            a <= 0x200_0000_0000,
    ;
    assert(10 * (a * factor) == all * one - a * gap) by (nonlinear_arith)
        requires
            gap == tenths * one - 10 * factor,
            all == tenths * a,
    ;
    assert(a * gap <= one) by (nonlinear_arith)
        requires
            a <= 0x200_0000_0000,
            gap <= 8 * u,
            one == 0x40_0000_0000_0000 * u,
    ;
    assert(k * one <= a * factor) by {
        if all > 0 {
            assert(10 * (k * one) <= all * one - one) by (nonlinear_arith)
                requires
                    10 * k <= all - 1,
                    one > 0,
            ;
        } else {
            assert(k * one == 0) by (nonlinear_arith)
                requires
                    k == 0,
            ;
            assert(a * factor >= 0) by (nonlinear_arith);
        }
    }
    assert(k * unit * one <= x * factor) by (nonlinear_arith)
        requires
            k * one <= a * factor,
            a * unit <= x,
    ;
    rounding_keeps_lower_bounds(x * factor, one, k, 1034);
    assert((a + 1) * factor <= top * one) by (nonlinear_arith)
        requires
            10 * factor <= tenths * one,
            next == tenths * (a + 1),
            10 * top >= next,
    ;
    assert(x * factor <= top * unit * one) by (nonlinear_arith)
        requires
            (a + 1) * factor <= top * one,
            x <= (a + 1) * unit,
    ;
    rounding_keeps_upper_bounds(x * factor, one, top, 1034);
    (k, top)
}

} // verus!
