use vcp_iptv_manager::validation::{analyze_stream_response, tally};

#[test]
fn analyzes_master_playlist_responses() {
    let body = b"#EXTM3U\n#EXT-X-STREAM-INF:BANDWIDTH=800000,RESOLUTION=640x360\nsd.m3u8\n#EXT-X-STREAM-INF:BANDWIDTH=2000000,RESOLUTION=1920x1080,CODECS=\"avc1\"\nhd.m3u8\n".to_vec();
    let (valid, res, br) = analyze_stream_response(200, &body);
    assert!(valid);
    assert_eq!(res.as_deref(), Some("1920x1080"));
    assert_eq!(br, Some(800000));
}

#[test]
fn bitrate_comes_from_bandwidth() {
    let body = b"#EXTM3U\n#EXT-X-STREAM-INF:BANDWIDTH=800000,RESOLUTION=640x360\nlow.m3u8\n".to_vec();
    assert_eq!(
        analyze_stream_response(200, &body),
        (true, Some("640x360".to_string()), Some(800000))
    );
    let plain = b"#EXTM3U\n#EXTINF:-1,x\nseg.ts\n".to_vec();
    assert_eq!(analyze_stream_response(200, &plain), (true, None, None));
}

#[test]
fn unparsable_bandwidth_leaves_room_for_later_lines() {
    let body = b"#EXTM3U\n#EXT-X-STREAM-INF:BANDWIDTH=abc\na.m3u8\n#EXT-X-STREAM-INF:BANDWIDTH=-7\nb.m3u8\n".to_vec();
    let (_, _, br) = analyze_stream_response(200, &body);
    assert_eq!(br, Some(-7));
}

#[test]
fn rejects_bad_responses() {
    assert_eq!(analyze_stream_response(404, &b"#EXTM3U".to_vec()), (false, None, None));
    assert_eq!(analyze_stream_response(206, &b"#EXTM3U".to_vec()), (false, None, None));
    assert_eq!(analyze_stream_response(200, &b"<html>".to_vec()), (false, None, None));
    assert_eq!(analyze_stream_response(200, &b"#EXTINF:-1,x".to_vec()), (true, None, None));
}

#[test]
fn tallies_outcomes() {
    let r = tally(&vec![true, false, true, true]);
    assert_eq!((r.total, r.valid, r.invalid), (4, 3, 1));
    let e = tally(&Vec::new());
    assert_eq!((e.total, e.valid, e.invalid), (0, 0, 0));
}
