use hlscaptionfinder::hls::{
    extract_bandwidth, extract_target_duration, is_master_playlist, lowest_bitrate,
    parse_master_playlist, parse_media_playlist, playlist_type_step, resolve_url, segments_step,
    HlsError, MediaPlaylist, PlaylistStep, PlaylistType, SegmentsStep,
};

const MASTER: &str = "#EXTM3U\n\
#EXT-X-STREAM-INF:BANDWIDTH=1280000,RESOLUTION=1280x720\n\
high/index.m3u8\n\
\n\
#EXT-X-STREAM-INF:RESOLUTION=640x360,BANDWIDTH=640000\n\
https://cdn.example.com/low/index.m3u8\n\
#EXT-X-STREAM-INF:BANDWIDTH=640000\n\
other/index.m3u8\n";

const MEDIA_LIVE: &str = "#EXTM3U\r\n#EXT-X-TARGETDURATION:6\r\n#EXTINF:6.0,\r\nseg1.ts\r\n#EXTINF:5.5,\r\n  https://cdn.example.com/seg2.ts  \r\n";

#[test]
fn master_playlist_detected() {
    assert!(is_master_playlist(MASTER));
    assert!(!is_master_playlist(MEDIA_LIVE));
}

#[test]
fn target_duration_read() {
    assert_eq!(extract_target_duration(MEDIA_LIVE), Some(6));
    assert_eq!(extract_target_duration("#EXT-X-TARGETDURATION:abc\n#EXT-X-TARGETDURATION:+10\n"), Some(10));
    assert_eq!(extract_target_duration("#EXT-X-TARGETDURATION:4294967296\n"), None);
    assert_eq!(extract_target_duration("#EXTM3U\n"), None);
}

#[test]
fn bandwidth_attribute() {
    assert_eq!(extract_bandwidth("#EXT-X-STREAM-INF:BANDWIDTH=1280000,RESOLUTION=1280x720"), Some(1280000));
    assert_eq!(extract_bandwidth("#EXT-X-STREAM-INF:RESOLUTION=1x1, BANDWIDTH=42"), Some(42));
    assert_eq!(extract_bandwidth("#EXT-X-STREAM-INF:AVERAGE-BANDWIDTH=5"), None);
    assert_eq!(extract_bandwidth(""), None);
}

#[test]
fn master_variants_resolved() {
    let variants = parse_master_playlist(MASTER, "https://example.com/live/master.m3u8").unwrap();
    let pairs: Vec<(String, u32)> = variants.iter().map(|v| (v.uri.clone(), v.bandwidth)).collect();
    assert_eq!(
        pairs,
        vec![
            ("https://example.com/live/high/index.m3u8".to_string(), 1280000),
            ("https://cdn.example.com/low/index.m3u8".to_string(), 640000),
            ("https://example.com/live/other/index.m3u8".to_string(), 640000),
        ]
    );
    assert_eq!(lowest_bitrate(&variants), Some(1));
}

#[test]
fn lowest_bitrate_first_of_equals() {
    let playlists = vec![
        MediaPlaylist { uri: "a".to_string(), bandwidth: 300 },
        MediaPlaylist { uri: "b".to_string(), bandwidth: 100 },
        MediaPlaylist { uri: "c".to_string(), bandwidth: 100 },
    ];
    assert_eq!(lowest_bitrate(&playlists), Some(1));
    assert_eq!(lowest_bitrate(&Vec::new()), None);
}

#[test]
fn media_segments_resolved() {
    let segments = parse_media_playlist(MEDIA_LIVE, "https://example.com/live/index.m3u8").unwrap();
    assert_eq!(
        segments,
        vec![
            "https://example.com/live/seg1.ts".to_string(),
            "https://cdn.example.com/seg2.ts".to_string(),
        ]
    );
}

#[test]
fn relative_reference_with_bad_base_fails() {
    assert_eq!(parse_media_playlist("seg.ts\n", "not a url"), Err(HlsError::InvalidUrl));
    assert_eq!(resolve_url("not a url", "https://a.example/x.ts"), Ok("https://a.example/x.ts".to_string()));
    assert_eq!(resolve_url("http://a.example/p/list.m3u8", "../x.ts"), Ok("http://a.example/x.ts".to_string()));
}

#[test]
fn playlist_type_decisions() {
    let vod = "#EXTM3U\n#EXT-X-TARGETDURATION:4\n#EXTINF:4,\na.ts\n#EXT-X-ENDLIST\n";
    assert!(matches!(playlist_type_step(vod, "http://h/x.m3u8"), Ok(PlaylistStep::Known(PlaylistType::Vod))));
    let typed = "#EXTM3U\n#EXT-X-PLAYLIST-TYPE:VOD\n";
    assert!(matches!(playlist_type_step(typed, "http://h/x.m3u8"), Ok(PlaylistStep::Known(PlaylistType::Vod))));
    assert!(matches!(
        playlist_type_step(MEDIA_LIVE, "http://h/x.m3u8"),
        Ok(PlaylistStep::Known(PlaylistType::Live { target_duration: 6 }))
    ));
    match playlist_type_step(MASTER, "https://example.com/live/master.m3u8") {
        Ok(PlaylistStep::Follow(uri)) => assert_eq!(uri, "https://cdn.example.com/low/index.m3u8"),
        other => panic!("unexpected {:?}", other),
    }
    assert!(matches!(playlist_type_step("#EXTM3U\n", "http://h/x"), Err(HlsError::UnknownPlaylistType)));
    assert!(matches!(
        playlist_type_step("#EXT-X-STREAM-INF:BANDWIDTH=1\n", "http://h/x"),
        Err(HlsError::UnknownPlaylistType)
    ));
}

#[test]
fn segments_decisions() {
    match segments_step(MASTER, "https://example.com/live/master.m3u8") {
        Ok(SegmentsStep::Follow(uri)) => assert_eq!(uri, "https://cdn.example.com/low/index.m3u8"),
        other => panic!("unexpected {:?}", other),
    }
    match segments_step(MEDIA_LIVE, "https://example.com/live/index.m3u8") {
        Ok(SegmentsStep::Segments(v)) => assert_eq!(v.len(), 2),
        other => panic!("unexpected {:?}", other),
    }
    assert!(matches!(
        segments_step("#EXT-X-STREAM-INF:BANDWIDTH=1\n", "http://h/x"),
        Err(HlsError::NoMediaPlaylists)
    ));
}

#[test]
fn unresolvable_references_fail() {
    assert!(matches!(segments_step("seg1.ts\n", "not a url"), Err(HlsError::InvalidUrl)));
    assert!(matches!(
        segments_step("#EXT-X-STREAM-INF:BANDWIDTH=5\nlow.m3u8\n", "not a url"),
        Err(HlsError::InvalidUrl)
    ));
    assert!(matches!(
        playlist_type_step("#EXT-X-STREAM-INF:BANDWIDTH=5\nlow.m3u8\n", "not a url"),
        Err(HlsError::InvalidUrl)
    ));
    match segments_step("#EXT-X-STREAM-INF:BANDWIDTH=5\nhttps://x.example/low.m3u8\n", "not a url") {
        Ok(SegmentsStep::Follow(uri)) => assert_eq!(uri, "https://x.example/low.m3u8"),
        other => panic!("unexpected {:?}", other),
    }
}
