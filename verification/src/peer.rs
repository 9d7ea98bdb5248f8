//! The WebRTC peer: the codecs it offers, the ICE servers it asks, and which of
//! several peers is the current one.

use crate::encoder::EncoderType;
use crate::text::has_prefix;
use vstd::prelude::*;

verus! {

/// An ICE server, as the agent is told of it.
#[derive(Debug, Clone, PartialEq, Eq)]
pub struct IceServerConfig {
    pub urls: Vec<String>,
    pub username: Option<String>,
    pub credential: Option<String>,
}

/// What it takes to make a peer. A browser that connects again gets a new one.
#[derive(Debug, Clone, PartialEq, Eq)]
pub struct PeerConfig {
    pub ice_servers: Vec<IceServerConfig>,
    pub encoder_type: EncoderType,
}

/// An ICE server, as a peer connection takes it: without a user name or a
/// credential, these are empty.
#[derive(Debug, Clone, PartialEq, Eq)]
pub struct IceServer {
    pub urls: Vec<String>,
    pub username: String,
    pub credential: String,
}

/// An ICE server as plain text.
#[verifier::ext_equal]
pub struct IceServerText {
    pub urls: Seq<Seq<char>>,
    pub username: Seq<char>,
    pub credential: Seq<char>,
}

impl View for IceServer {
    type V = IceServerText;

    open spec fn view(&self) -> IceServerText {
        IceServerText {
            urls: crate::text::texts(self.urls@),
            username: self.username@,
            credential: self.credential@,
        }
    }
}

/// A text, or the empty one.
pub open spec fn or_empty(s: Option<String>) -> Seq<char> {
    match s {
        Some(t) => t@,
        None => Seq::empty(),
    }
}

/// An ICE server with what it was not given left empty.
pub open spec fn server_of(config: IceServerConfig) -> IceServerText {
    IceServerText {
        urls: crate::text::texts(config.urls@),
        username: or_empty(config.username),
        credential: or_empty(config.credential),
    }
}

/// The public STUN servers, asked where no server is configured.
pub open spec fn default_server() -> IceServerText {
    IceServerText {
        urls: seq!["stun:stun.l.google.com:19302"@, "stun:stun1.l.google.com:19302"@],
        username: Seq::empty(),
        credential: Seq::empty(),
    }
}

/// The ICE servers that a peer asks.
pub open spec fn servers_of(configs: Seq<IceServerConfig>) -> Seq<IceServerText> {
    if configs.len() == 0 {
        seq![default_server()]
    } else {
        configs.map_values(|c: IceServerConfig| server_of(c))
    }
}

/// ICE servers as plain text.
pub open spec fn server_texts(servers: Seq<IceServer>) -> Seq<IceServerText> {
    servers.map_values(|s: IceServer| s@)
}

/// A copy of some texts.
fn copied(v: &Vec<String>) -> (r: Vec<String>)
    ensures
        crate::text::texts(r@) == crate::text::texts(v@),
{
    let mut r: Vec<String> = Vec::new();
    let mut i: usize = 0;
    while i < v.len()
        invariant
            i <= v@.len(),
            r@.len() == i,
            forall|k: int| 0 <= k < i ==> (#[trigger] r@[k])@ == v@[k]@,
        decreases v.len() - i,
    {
        r.push(v[i].as_str().to_owned());
        i = i + 1;
    }
    assert(crate::text::texts(r@) =~= crate::text::texts(v@));
    r
}

/// The ICE servers that a peer asks: those that are configured, or the public
/// STUN servers where none is.
pub fn ice_servers(configs: &Vec<IceServerConfig>) -> (r: Vec<IceServer>)
    ensures
        server_texts(r@) == servers_of(configs@),
{
    let mut servers: Vec<IceServer> = Vec::new();
    if configs.len() == 0 {
        let mut urls: Vec<String> = Vec::new();
        urls.push("stun:stun.l.google.com:19302".to_owned());
        urls.push("stun:stun1.l.google.com:19302".to_owned());
        assert(crate::text::texts(urls@) =~= default_server().urls);
        let server = IceServer { urls, username: String::new(), credential: String::new() };
        assert(server@ =~= default_server());
        servers.push(server);
        assert(server_texts(servers@) =~= servers_of(configs@));
        return servers;
    }
    let mut i: usize = 0;
    while i < configs.len()
        invariant
            i <= configs@.len(),
            servers@.len() == i,
            forall|k: int| 0 <= k < i ==> (#[trigger] servers@[k])@ == server_of(configs@[k]),
        decreases configs.len() - i,
    {
        let urls: Vec<String> = copied(&configs[i].urls);
        let username: String = match &configs[i].username {
            Some(s) => s.as_str().to_owned(),
            None => String::new(),
        };
        let credential: String = match &configs[i].credential {
            Some(s) => s.as_str().to_owned(),
            None => String::new(),
        };
        let server = IceServer { urls, username, credential };
        assert(server@ =~= server_of(configs@[i as int]));
        servers.push(server);
        i = i + 1;
    }
    assert(server_texts(servers@) =~= servers_of(configs@));
    servers
}

// ---------------------------------------------------------------------------
// Codecs
// ---------------------------------------------------------------------------

/// A codec's family.
#[derive(Debug, Clone, Copy, PartialEq, Eq, Structural)]
pub enum Codec {
    H264,
    Opus,
}

/// A codec that a peer offers.
#[derive(Debug, Clone, PartialEq, Eq)]
pub struct CodecParameters {
    pub codec: Codec,
    pub clock_rate: u32,
    pub channels: u16,
    pub fmtp: &'static str,
    /// The kinds of RTCP feedback, each with its parameter.
    pub feedback: Vec<(&'static str, &'static str)>,
    pub payload_type: u8,
}

/// A codec as plain text and numbers.
#[verifier::ext_equal]
pub struct CodecText {
    pub codec: Codec,
    pub clock_rate: u32,
    pub channels: u16,
    pub fmtp: Seq<char>,
    pub feedback: Seq<(Seq<char>, Seq<char>)>,
    pub payload_type: u8,
}

impl View for CodecParameters {
    type V = CodecText;

    open spec fn view(&self) -> CodecText {
        CodecText {
            codec: self.codec,
            clock_rate: self.clock_rate,
            channels: self.channels,
            fmtp: self.fmtp@,
            feedback: self.feedback@.map_values(|f: (&'static str, &'static str)| (f.0@, f.1@)),
            payload_type: self.payload_type,
        }
    }
}

/// H.264, constrained baseline: what browsers always offer.
pub const H264_BASELINE_FMTP: &'static str =
    "level-asymmetry-allowed=1;packetization-mode=1;profile-level-id=42e01f";

/// H.264, main profile.
pub const H264_MAIN_FMTP: &'static str =
    "level-asymmetry-allowed=1;packetization-mode=1;profile-level-id=4d001f";

pub const OPUS_FMTP: &'static str = "minptime=10;useinbandfec=1";

/// The RTCP feedback that H.264 has.
pub open spec fn h264_feedback() -> Seq<(Seq<char>, Seq<char>)> {
    seq![
        ("goog-remb"@, ""@),
        ("ccm"@, "fir"@),
        ("nack"@, ""@),
        ("nack"@, "pli"@),
        ("transport-cc"@, ""@),
    ]
}

/// H.264 with the given parameters.
pub open spec fn h264_codec(fmtp: Seq<char>, payload_type: u8) -> CodecText {
    CodecText {
        codec: Codec::H264,
        clock_rate: 90000,
        channels: 0,
        fmtp,
        feedback: h264_feedback(),
        payload_type,
    }
}

/// Opus, as the agent sends it.
pub open spec fn opus_codec() -> CodecText {
    CodecText {
        codec: Codec::Opus,
        clock_rate: 48000,
        channels: 2,
        fmtp: OPUS_FMTP@,
        feedback: Seq::empty(),
        payload_type: 111,
    }
}

/// The codecs of a peer, in the order in which they are offered. Only what the
/// agent sends is among them: constrained baseline, for `nvh264enc` the main
/// profile too, and Opus.
pub open spec fn codecs_for(encoder: EncoderType) -> Seq<CodecText> {
    if encoder == EncoderType::Nvidia {
        seq![
            h264_codec(H264_BASELINE_FMTP@, 125),
            h264_codec(H264_MAIN_FMTP@, 102),
            opus_codec(),
        ]
    } else {
        seq![h264_codec(H264_BASELINE_FMTP@, 125), opus_codec()]
    }
}

/// Codecs as plain text and numbers.
pub open spec fn codec_texts(codecs: Seq<CodecParameters>) -> Seq<CodecText> {
    codecs.map_values(|c: CodecParameters| c@)
}

fn h264(fmtp: &'static str, payload_type: u8) -> (r: CodecParameters)
    ensures
        r@ == h264_codec(fmtp@, payload_type),
{
    let mut feedback: Vec<(&'static str, &'static str)> = Vec::new();
    feedback.push(("goog-remb", ""));
    feedback.push(("ccm", "fir"));
    feedback.push(("nack", ""));
    feedback.push(("nack", "pli"));
    feedback.push(("transport-cc", ""));
    let r = CodecParameters {
        codec: Codec::H264,
        clock_rate: 90000,
        channels: 0,
        fmtp,
        feedback,
        payload_type,
    };
    assert(r@.feedback =~= h264_feedback());
    r
}

fn opus() -> (r: CodecParameters)
    ensures
        r@ == opus_codec(),
{
    let r = CodecParameters {
        codec: Codec::Opus,
        clock_rate: 48000,
        channels: 2,
        fmtp: OPUS_FMTP,
        feedback: Vec::new(),
        payload_type: 111,
    };
    assert(r@.feedback =~= Seq::<(Seq<char>, Seq<char>)>::empty());
    r
}

/// The codecs of a peer, in the order in which they are offered.
pub fn codecs(encoder: EncoderType) -> (r: Vec<CodecParameters>)
    ensures
        codec_texts(r@) == codecs_for(encoder),
{
    let mut v: Vec<CodecParameters> = Vec::new();
    v.push(h264(H264_BASELINE_FMTP, 125));
    if encoder == EncoderType::Nvidia {
        v.push(h264(H264_MAIN_FMTP, 102));
    }
    v.push(opus());
    assert(codec_texts(v@) =~= codecs_for(encoder));
    v
}

/// A track that a peer sends.
#[derive(Debug, Clone, Copy, PartialEq, Eq)]
pub struct Track {
    pub codec: Codec,
    pub clock_rate: u32,
    pub channels: u16,
    pub fmtp: &'static str,
    /// The track's name.
    pub id: &'static str,
    /// The name of the stream that it belongs to.
    pub stream: &'static str,
}

/// A track as plain text and numbers.
#[verifier::ext_equal]
pub struct TrackText {
    pub codec: Codec,
    pub clock_rate: u32,
    pub channels: u16,
    pub fmtp: Seq<char>,
    pub id: Seq<char>,
    pub stream: Seq<char>,
}

impl View for Track {
    type V = TrackText;

    open spec fn view(&self) -> TrackText {
        TrackText {
            codec: self.codec,
            clock_rate: self.clock_rate,
            channels: self.channels,
            fmtp: self.fmtp@,
            id: self.id@,
            stream: self.stream@,
        }
    }
}

/// The track that video goes out on. It names the parameters of the codec, so
/// that it is not bound to another variant.
pub open spec fn video_track_text() -> TrackText {
    TrackText {
        codec: Codec::H264,
        clock_rate: 90000,
        channels: 0,
        fmtp: H264_BASELINE_FMTP@,
        id: "video"@,
        stream: "beam"@,
    }
}

/// The track that audio goes out on.
pub open spec fn audio_track_text() -> TrackText {
    TrackText {
        codec: Codec::Opus,
        clock_rate: 48000,
        channels: 2,
        fmtp: Seq::empty(),
        id: "audio"@,
        stream: "beam"@,
    }
}

/// The track that video goes out on, whatever the encoder.
pub fn video_track() -> (r: Track)
    ensures
        r@ == video_track_text(),
{
    Track {
        codec: Codec::H264,
        clock_rate: 90000,
        channels: 0,
        fmtp: H264_BASELINE_FMTP,
        id: "video",
        stream: "beam",
    }
}

/// The track that audio goes out on.
pub fn audio_track() -> (r: Track)
    ensures
        r@ == audio_track_text(),
{
    proof {
        reveal_strlit("");
    }
    Track {
        codec: Codec::Opus,
        clock_rate: 48000,
        channels: 2,
        fmtp: "",
        id: "audio",
        stream: "beam",
    }
}

/// The codec that a peer offers first is the one that its video track names, and
/// the last the one of its audio track, whatever the encoder; and no two codecs
/// share a payload type.
pub proof fn offered_codecs_agree(encoder: EncoderType)
    ensures
        codecs_for(encoder)[0].codec == video_track_text().codec,
        codecs_for(encoder)[0].clock_rate == video_track_text().clock_rate,
        codecs_for(encoder)[0].fmtp == video_track_text().fmtp,
        codecs_for(encoder).last().codec == audio_track_text().codec,
        codecs_for(encoder).last().clock_rate == audio_track_text().clock_rate,
        codecs_for(encoder).last().channels == audio_track_text().channels,
        forall|i: int, j: int|
            0 <= i < j < codecs_for(encoder).len() ==> (#[trigger] codecs_for(
                encoder,
            )[i]).payload_type != (#[trigger] codecs_for(encoder)[j]).payload_type,
{
}

// ---------------------------------------------------------------------------
// Peers
// ---------------------------------------------------------------------------

/// The label of the data channel that input comes on.
pub const INPUT_CHANNEL: &'static str = "input";

/// Numbers the peers, so that a loop sees when the peer that it writes to was
/// replaced.
#[derive(Debug, Clone, Copy, PartialEq, Eq, Structural)]
pub struct PeerGenerations {
    last: u64,
}

impl PeerGenerations {
    /// How many peers there were.
    pub closed spec fn count(self) -> u64 {
        self.last
    }

    pub fn new() -> (r: Self)
        ensures
            r.count() == 0,
    {
        PeerGenerations { last: 0 }
    }

    /// Whether no number is left for another peer.
    pub fn is_exhausted(&self) -> (r: bool)
        ensures
            r == (self.count() == u64::MAX),
    {
        self.last == u64::MAX
    }

    /// The number of the next peer: one more than that of the last.
    pub fn next(&mut self) -> (r: u64)
        requires
            old(self).count() < u64::MAX,
        ensures
            final(self).count() == old(self).count() + 1,
            r == final(self).count(),
    {
        self.last = self.last + 1;
        self.last
    }
}

/// The states of a counter, each one peer behind the one before it: the `i`-th peer
/// takes the number that the state behind it shows.
pub open spec fn is_history(states: Seq<PeerGenerations>) -> bool {
    forall|i: int, j: int|
        0 <= i && j == i + 1 && j < states.len() ==> (#[trigger] states[j]).count() == (
        #[trigger] states[i]).count() + 1
}

/// No two peers share a generation: a later peer has a larger one, and all are
/// positive.
pub proof fn generations_never_repeat(states: Seq<PeerGenerations>, i: int, j: int)
    requires
        is_history(states),
        0 <= i < j < states.len() - 1,
    ensures
        1 <= states[i + 1].count() < states[j + 1].count(),
    decreases j - i,
{
    assert(states[i + 1].count() == states[i].count() + 1);
    assert(states[j + 1].count() == states[j].count() + 1);
    if i + 1 < j {
        generations_never_repeat(states, i, j - 1);
    }
}

/// Whether a line of a session description tells how media were negotiated.
pub open spec fn tells_of_media(line: Seq<char>, answer: bool) -> bool {
    ||| crate::text::behind_prefix(line, "m="@) is Some
    ||| crate::text::behind_prefix(line, "a=rtpmap:"@) is Some
    ||| crate::text::behind_prefix(line, "a=fmtp:"@) is Some
    ||| crate::text::behind_prefix(line, "a=group:"@) is Some
    ||| crate::text::behind_prefix(line, "a=mid:"@) is Some
    ||| crate::text::behind_prefix(line, "a=ssrc:"@) is Some
    ||| answer && crate::text::behind_prefix(line, "a=bundle"@) is Some
}

/// Whether a line of an offer or an answer tells how media were negotiated, and
/// is worth logging.
pub fn is_media_line(line: &str, answer: bool) -> (r: bool)
    ensures
        r == tells_of_media(line@, answer),
{
    has_prefix(line, "m=") || has_prefix(line, "a=rtpmap:") || has_prefix(line, "a=fmtp:")
        || has_prefix(line, "a=group:") || has_prefix(line, "a=mid:") || has_prefix(
        line,
        "a=ssrc:",
    ) || (answer && has_prefix(line, "a=bundle"))
}

/// What the statistics of a peer say of one stream.
#[derive(Debug, Clone, Copy, PartialEq, Eq, Structural)]
pub enum StreamStats {
    /// A stream that the agent sends.
    Outbound { video: bool, packets_sent: u64 },
    /// What the browser reports of one. The round-trip time is a floating-point
    /// number of seconds, by its bits.
    RemoteInbound { video: bool, packets_lost: i64, round_trip_time: Option<u64> },
    /// Anything else.
    Other,
}

/// The packets sent of the first video stream among some; 0 where there is none.
pub open spec fn first_video_sent(stats: Seq<StreamStats>) -> u64
    decreases stats.len(),
{
    if stats.len() == 0 {
        0
    } else {
        match stats[0] {
            StreamStats::Outbound { video: true, packets_sent } => packets_sent,
            _ => first_video_sent(stats.skip(1)),
        }
    }
}

/// How many video packets were sent. Where this stands still while samples are
/// written, they are dropped in silence.
pub fn video_packets_sent(stats: &Vec<StreamStats>) -> (r: u64)
    ensures
        r == first_video_sent(stats@),
{
    let mut i: usize = 0;
    assert(stats@.skip(0) =~= stats@);
    while i < stats.len()
        invariant
            i <= stats@.len(),
            first_video_sent(stats@) == first_video_sent(stats@.skip(i as int)),
        decreases stats.len() - i,
    {
        assert(stats@.skip(i as int)[0] == stats@[i as int]);
        if let StreamStats::Outbound { video, packets_sent } = stats[i] {
            if video {
                return packets_sent;
            }
        }
        assert(stats@.skip(i as int).skip(1) =~= stats@.skip(i as int + 1));
        i = i + 1;
    }
    0
}

/// Of several video streams that are sent the first counts, whatever else stands before
/// it.
pub proof fn first_video_stream_counts(
    front: Seq<StreamStats>,
    packets: u64,
    back: Seq<StreamStats>,
)
    requires
        forall|i: int|
            0 <= i < front.len() ==> !(#[trigger] front[i] matches StreamStats::Outbound {
                video,
                ..
            } && video),
    ensures
        first_video_sent(
            front.push(StreamStats::Outbound { video: true, packets_sent: packets }) + back,
        ) == packets,
        first_video_sent(front) == 0,
    decreases front.len(),
{
    let found = StreamStats::Outbound { video: true, packets_sent: packets };
    let all = front.push(found) + back;
    if front.len() == 0 {
        assert(all[0] == found);
    } else {
        let rest = front.skip(1);
        assert forall|i: int| 0 <= i < rest.len() implies !(
        #[trigger] rest[i] matches StreamStats::Outbound { video, .. } && video) by {
            assert(rest[i] == front[i + 1]);
        }
        first_video_stream_counts(rest, packets, back);
        assert(all[0] == front[0]);
        assert(all.skip(1) =~= rest.push(found) + back);
        assert(!(front[0] matches StreamStats::Outbound { video, .. } && video));
    }
}

/// Every server that is configured is used as it is, in order; public ones are used only
/// where none is configured.
pub proof fn configured_servers_are_used(configs: Seq<IceServerConfig>, i: int)
    requires
        0 <= i < configs.len(),
    ensures
        servers_of(configs).len() == configs.len(),
        servers_of(configs)[i].urls == crate::text::texts(configs[i].urls@),
        configs[i].username is Some ==> servers_of(configs)[i].username == configs[i].username->0@,
        configs[i].credential is Some ==> servers_of(configs)[i].credential
            == configs[i].credential->0@,
        configs[i].username is None ==> servers_of(configs)[i].username.len() == 0,
        configs[i].credential is None ==> servers_of(configs)[i].credential.len() == 0,
        servers_of(Seq::empty()).len() == 1,
{
}

/// Every encoder's video is offered in the baseline profile and at 90 kHz, with a request
/// for keyframes as feedback; the main profile is offered too for NVENC alone. Audio is
/// offered in stereo at 48 kHz.
pub proof fn offers_fit_the_encoder(encoder: EncoderType)
    ensures
        ({
            let offers = codecs_for(encoder);
            &&& offers.len() == if encoder == EncoderType::Nvidia {
                3nat
            } else {
                2nat
            }
            &&& forall|i: int|
                0 <= i < offers.len() - 1 ==> (#[trigger] offers[i]).codec == Codec::H264
                    && offers[i].clock_rate == 90000 && offers[i].feedback.contains(
                    ("nack"@, "pli"@),
                ) && offers[i].feedback.contains(("ccm"@, "fir"@))
            &&& offers[0].fmtp
                == "level-asymmetry-allowed=1;packetization-mode=1;profile-level-id=42e01f"@
            &&& offers[0].payload_type == 125
            &&& encoder == EncoderType::Nvidia ==> offers[1].payload_type == 102 && offers[1].fmtp
                == "level-asymmetry-allowed=1;packetization-mode=1;profile-level-id=4d001f"@
            &&& offers.last().codec == Codec::Opus && offers.last().clock_rate == 48000
                && offers.last().channels == 2 && offers.last().payload_type == 111
        }),
{
    let feedback = h264_feedback();
    assert(feedback[3] == ("nack"@, "pli"@));
    assert(feedback[1] == ("ccm"@, "fir"@));
}

/// The lines of a session description that tell of media are those that start with one of
/// seven prefixes, whatever follows; the last of them counts in answers alone. A line that
/// starts with another letter than `m` or `a` is none.
pub proof fn media_lines_are_told_by_their_start(rest: Seq<char>, line: Seq<char>, answer: bool)
    ensures
        tells_of_media("m="@ + rest, answer),
        tells_of_media("a=rtpmap:"@ + rest, answer),
        tells_of_media("a=fmtp:"@ + rest, answer),
        tells_of_media("a=group:"@ + rest, answer),
        tells_of_media("a=mid:"@ + rest, answer),
        tells_of_media("a=ssrc:"@ + rest, answer),
        tells_of_media("a=bundle"@ + rest, answer) == answer,
        line.len() == 0 || (line[0] != 'm' && line[0] != 'a') ==> !tells_of_media(line, answer),
{
    reveal_strlit("m=");
    reveal_strlit("a=rtpmap:");
    reveal_strlit("a=fmtp:");
    reveal_strlit("a=group:");
    reveal_strlit("a=mid:");
    reveal_strlit("a=ssrc:");
    reveal_strlit("a=bundle");
    lemma_starts("m="@, rest);
    lemma_starts("a=rtpmap:"@, rest);
    lemma_starts("a=fmtp:"@, rest);
    lemma_starts("a=group:"@, rest);
    lemma_starts("a=mid:"@, rest);
    lemma_starts("a=ssrc:"@, rest);
    lemma_starts("a=bundle"@, rest);
    let bundle = "a=bundle"@ + rest;
    assert(bundle[0] == 'a' && bundle[2] == 'b');
    lemma_other_start(bundle, "m="@, 0);
    lemma_other_start(bundle, "a=rtpmap:"@, 2);
    lemma_other_start(bundle, "a=fmtp:"@, 2);
    lemma_other_start(bundle, "a=group:"@, 2);
    lemma_other_start(bundle, "a=mid:"@, 2);
    lemma_other_start(bundle, "a=ssrc:"@, 2);
    if line.len() == 0 || (line[0] != 'm' && line[0] != 'a') {
        lemma_other_start(line, "m="@, 0);
        lemma_other_start(line, "a=rtpmap:"@, 0);
        lemma_other_start(line, "a=fmtp:"@, 0);
        lemma_other_start(line, "a=group:"@, 0);
        lemma_other_start(line, "a=mid:"@, 0);
        lemma_other_start(line, "a=ssrc:"@, 0);
        lemma_other_start(line, "a=bundle"@, 0);
    }
}

proof fn lemma_starts(prefix: Seq<char>, rest: Seq<char>)
    ensures
        crate::text::behind_prefix(prefix + rest, prefix) is Some,
{
    assert((prefix + rest).subrange(0, prefix.len() as int) =~= prefix);
}

proof fn lemma_other_start(line: Seq<char>, prefix: Seq<char>, i: int)
    requires
        0 <= i < prefix.len(),
        line.len() <= i || line[i] != prefix[i],
    ensures
        crate::text::behind_prefix(line, prefix) is None,
{
    if prefix.is_prefix_of(line) {
        assert(line.subrange(0, prefix.len() as int)[i] == line[i]);
    }
}

} // verus!
