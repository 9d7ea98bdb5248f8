use beam_agent::encoder::EncoderType;
use beam_agent::peer::{
    audio_track, codecs, ice_servers, is_media_line, video_packets_sent, video_track, Codec,
    IceServerConfig, PeerGenerations, StreamStats,
};

#[test]
fn public_stun_servers_are_asked_by_default() {
    let servers = ice_servers(&Vec::new());
    assert_eq!(servers.len(), 1);
    assert_eq!(
        servers[0].urls,
        vec![
            "stun:stun.l.google.com:19302",
            "stun:stun1.l.google.com:19302"
        ]
    );
    assert_eq!(servers[0].username, "");
    assert_eq!(servers[0].credential, "");
}

#[test]
fn configured_servers_are_asked() {
    let servers = ice_servers(&vec![
        IceServerConfig {
            urls: vec!["turn:example.test".to_string()],
            username: Some("name".to_string()),
            credential: Some("word".to_string()),
        },
        IceServerConfig {
            urls: vec!["stun:example.test".to_string()],
            username: None,
            credential: None,
        },
    ]);
    assert_eq!(servers.len(), 2);
    assert_eq!(servers[0].urls, vec!["turn:example.test"]);
    assert_eq!(servers[0].username, "name");
    assert_eq!(servers[0].credential, "word");
    assert_eq!(servers[1].username, "");
}

#[test]
fn codecs_depend_on_the_encoder() {
    let nvidia = codecs(EncoderType::Nvidia);
    let types: Vec<u8> = nvidia.iter().map(|c| c.payload_type).collect();
    assert_eq!(types, vec![125, 102, 111]);
    assert!(nvidia[0].fmtp.ends_with("profile-level-id=42e01f"));
    assert!(nvidia[1].fmtp.ends_with("profile-level-id=4d001f"));
    assert_eq!(nvidia[0].feedback.len(), 5);
    assert_eq!(nvidia[0].feedback[3], ("nack", "pli"));
    for encoder in [
        EncoderType::NvidiaCuda,
        EncoderType::VaApi,
        EncoderType::Software,
    ] {
        let list = codecs(encoder);
        assert_eq!(list.len(), 2);
        assert_eq!((list[0].codec, list[0].clock_rate), (Codec::H264, 90000));
        assert_eq!((list[1].codec, list[1].clock_rate), (Codec::Opus, 48000));
        assert_eq!(list[1].channels, 2);
        assert_eq!(list[1].fmtp, "minptime=10;useinbandfec=1");
        assert!(list[1].feedback.is_empty());
    }
}

#[test]
fn peers_are_numbered() {
    let mut generations = PeerGenerations::new();
    assert_eq!(generations.next(), 1);
    assert_eq!(generations.next(), 2);
    assert!(!generations.is_exhausted());
}

#[test]
fn media_lines_are_found() {
    assert!(is_media_line("m=video 9 UDP/TLS/RTP/SAVPF 125", false));
    assert!(is_media_line("a=fmtp:125 profile-level-id=42e01f", false));
    assert!(!is_media_line("a=candidate:1 1 udp 1 10.0.0.1 9 typ host", false));
    assert!(!is_media_line("a=bundle-only", false));
    assert!(is_media_line("a=bundle-only", true));
}

fn stats() -> Vec<StreamStats> {
    vec![
        StreamStats::Other,
        StreamStats::Outbound {
            video: false,
            packets_sent: 7,
        },
        StreamStats::Outbound {
            video: true,
            packets_sent: 100,
        },
        StreamStats::RemoteInbound {
            video: true,
            packets_lost: 3,
            round_trip_time: None,
        },
        StreamStats::Outbound {
            video: true,
            packets_sent: 200,
        },
    ]
}

#[test]
fn sent_packets_are_those_of_the_first_video_stream() {
    assert_eq!(video_packets_sent(&stats()), 100);
    assert_eq!(video_packets_sent(&Vec::new()), 0);
}

#[test]
fn tracks_name_what_is_offered() {
    let video = video_track();
    assert_eq!((video.id, video.stream), ("video", "beam"));
    let audio = audio_track();
    assert_eq!((audio.id, audio.stream, audio.fmtp), ("audio", "beam", ""));
    for encoder in [EncoderType::Nvidia, EncoderType::Software] {
        let list = codecs(encoder);
        assert_eq!(list[0].fmtp, video.fmtp);
        assert_eq!(list[0].clock_rate, video.clock_rate);
        let last = &list[list.len() - 1];
        assert_eq!((last.clock_rate, last.channels), (audio.clock_rate, audio.channels));
    }
}
