//! Audio frames: from PulseAudio's PCM bytes to the samples that Opus encodes.

use crate::text::{append_decimal, decimal};
use vstd::prelude::*;

verus! {

/// The bitrate of the Opus stream, in bits per second.
pub const OPUS_BITRATE: i32 = 256_000;

/// The largest Opus frame, in bytes.
pub const OPUS_BUFFER_LEN: usize = 4000;

/// The channel layouts that Opus takes.
#[derive(Debug, Clone, Copy, PartialEq, Eq, Structural)]
pub enum OpusChannels {
    Mono,
    Stereo,
}

/// Samples per channel in a frame of 20 ms.
pub open spec fn samples_per_frame(sample_rate: u32) -> nat {
    (sample_rate * 20 / 1000) as nat
}

/// Bytes in a frame of 20 ms, two for each sample.
pub open spec fn frame_bytes(sample_rate: u32, channels: u16) -> nat {
    samples_per_frame(sample_rate) * channels as nat * 2
}

/// Whether Opus takes a sample rate.
pub open spec fn is_opus_rate(sample_rate: u32) -> bool {
    sample_rate == 48000 || sample_rate == 24000 || sample_rate == 16000 || sample_rate == 12000
        || sample_rate == 8000
}

/// The sample that two bytes spell, low byte first, in two's complement.
pub open spec fn sample_of(low: u8, high: u8) -> int {
    let n = low + 256 * high;
    if n < 0x8000 {
        n
    } else {
        n - 0x1_0000
    }
}

/// The samples that PCM bytes spell, two bytes each; an odd byte at the end is
/// left out.
pub open spec fn samples_of(pcm: Seq<u8>) -> Seq<int> {
    Seq::new((pcm.len() / 2) as nat, |i: int| sample_of(pcm[2 * i], pcm[2 * i + 1]))
}

/// Why audio cannot be captured; `None` where it can. A failed connection comes
/// before the format.
pub open spec fn capture_error(
    sample_rate: u32,
    channels: u16,
    connected: Result<(), String>,
) -> Option<Seq<char>> {
    match connected {
        Err(e) => Some("PulseAudio connection failed: "@ + e@),
        Ok(_) => format_error(sample_rate, channels),
    }
}

/// Why Opus does not take a format; `None` where it does.
pub open spec fn format_error(sample_rate: u32, channels: u16) -> Option<Seq<char>> {
    if channels != 1 && channels != 2 {
        Some("Unsupported channel count: "@ + decimal(channels as nat))
    } else if !is_opus_rate(sample_rate) {
        Some("Unsupported sample rate for Opus: "@ + decimal(sample_rate as nat))
    } else {
        None
    }
}

/// The size of a frame of 20 ms: samples per channel, and bytes.
#[derive(Debug, Clone, Copy, PartialEq, Eq, Structural)]
pub struct FrameSize {
    pub samples: u32,
    pub bytes: u64,
}

/// The size of a frame of 20 ms of 16-bit samples.
pub fn frame_size(sample_rate: u32, channels: u16) -> (r: FrameSize)
    requires
        sample_rate * 20 <= u32::MAX,
    ensures
        r.samples == samples_per_frame(sample_rate),
        r.bytes == frame_bytes(sample_rate, channels),
{
    let samples: u32 = sample_rate * 20 / 1000;
    assert(samples * channels * 2 <= 0xFFFF_FFFF * 0xFFFF * 2) by (nonlinear_arith)
        requires
            samples <= 0xFFFF_FFFF,
            channels <= 0xFFFF,
    ;
    assert(samples * channels >= 0) by (nonlinear_arith)
        requires
            samples >= 0,
            channels >= 0,
    ;
    FrameSize { samples, bytes: samples as u64 * channels as u64 * 2 }
}

/// The form of the audio that is captured.
#[derive(Debug, Clone, Copy, PartialEq, Eq, Structural)]
pub struct AudioCapture {
    sample_rate: u32,
    channels: u16,
}

impl AudioCapture {
    /// The sample rate.
    pub closed spec fn rate(self) -> u32 {
        self.sample_rate
    }

    /// The number of channels.
    pub closed spec fn channel_count(self) -> u16 {
        self.channels
    }

    /// The capture of the given form over a connection to PulseAudio, or why
    /// there is none.
    pub fn new(sample_rate: u32, channels: u16, connected: Result<(), String>) -> (r: Result<
        Self,
        String,
    >)
        ensures
            match capture_error(sample_rate, channels, connected) {
                Some(e) => r is Err && r->Err_0@ == e,
                None => {
                    &&& r is Ok
                    &&& r->Ok_0.rate() == sample_rate
                    &&& r->Ok_0.channel_count() == channels
                },
            },
    {
        if let Err(e) = connected {
            let mut message: String = "PulseAudio connection failed: ".to_owned();
            message.append(e.as_str());
            return Err(message);
        }
        if channels != 1 && channels != 2 {
            let mut e: String = "Unsupported channel count: ".to_owned();
            append_decimal(&mut e, channels as u64);
            return Err(e);
        }
        if sample_rate != 48000 && sample_rate != 24000 && sample_rate != 16000 && sample_rate
            != 12000 && sample_rate != 8000 {
            let mut e: String = "Unsupported sample rate for Opus: ".to_owned();
            append_decimal(&mut e, sample_rate as u64);
            return Err(e);
        }
        Ok(AudioCapture { sample_rate, channels })
    }

    /// The channel layout for Opus.
    pub fn opus_channels(&self) -> (r: OpusChannels)
        ensures
            r == (if self.channel_count() == 1 {
                OpusChannels::Mono
            } else {
                OpusChannels::Stereo
            }),
    {
        if self.channels == 1 {
            OpusChannels::Mono
        } else {
            OpusChannels::Stereo
        }
    }
}

/// Converts PCM bytes, 16 bits little-endian, to samples.
pub fn samples_from_pcm(pcm: &[u8]) -> (r: Vec<i16>)
    ensures
        r@.len() == samples_of(pcm@).len(),
        forall|i: int| 0 <= i < r@.len() ==> #[trigger] r@[i] == samples_of(pcm@)[i],
{
    let mut r: Vec<i16> = Vec::new();
    let len: usize = pcm.len();
    let count: usize = len / 2;
    let mut i: usize = 0;
    while i < count
        invariant
            i <= count,
            len == pcm@.len(),
            count == pcm@.len() / 2,
            r@.len() == i,
            forall|k: int|
                0 <= k < i ==> #[trigger] r@[k] == sample_of(pcm@[2 * k], pcm@[2 * k + 1]),
        decreases count - i,
    {
        r.push(sample(pcm[2 * i], pcm[2 * i + 1]));
        i = i + 1;
    }
    r
}

/// The sample that two bytes spell, low byte first.
fn sample(low: u8, high: u8) -> (r: i16)
    ensures
        r == sample_of(low, high),
{
    let n: i32 = low as i32 + 256 * (high as i32);
    if n < 0x8000 {
        n as i16
    } else {
        (n - 0x1_0000) as i16
    }
}

/// Samples that are written as bytes, low byte first, read back the same.
pub proof fn samples_read_back(value: int)
    requires
        i16::MIN <= value <= i16::MAX,
    ensures
        sample_of((value % 256) as u8, (value / 256 % 256) as u8) == value,
{
}

/// What is written of some samples, low byte first, reads back the same, and what comes
/// behind the last whole sample is left out.
pub proof fn pcm_reads_back(values: Seq<int>, pcm: Seq<u8>)
    requires
        pcm.len() == 2 * values.len() || pcm.len() == 2 * values.len() + 1,
        forall|i: int|
            0 <= i < values.len() ==> i16::MIN <= #[trigger] values[i] <= i16::MAX && pcm[2 * i]
                == values[i] % 256 && pcm[2 * i + 1] == values[i] / 256 % 256,
    ensures
        samples_of(pcm) == values,
{
    assert forall|i: int| 0 <= i < values.len() implies samples_of(pcm)[i]
        == #[trigger] values[i] by {
        samples_read_back(values[i]);
    }
    assert(samples_of(pcm) =~= values);
}

/// Every format that Opus takes has frames of whole samples, at least one.
pub proof fn opus_frames_are_whole(sample_rate: u32, channels: u16)
    requires
        format_error(sample_rate, channels) is None,
    ensures
        samples_per_frame(sample_rate) * 1000 == sample_rate * 20,
        samples_per_frame(sample_rate) > 0,
        frame_bytes(sample_rate, channels) <= 3840,
        samples_per_frame(sample_rate) * 50 == sample_rate,
        frame_bytes(sample_rate, channels) * 25 == sample_rate * channels,
{
}

} // verus!
