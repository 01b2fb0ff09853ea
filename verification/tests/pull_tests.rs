use vcp_iptv_manager::pull::{
    delete_succeeded, detect_protocol, media_server_pull_path, metrics_endpoint, pull_target,
    snapshot_endpoint, snapshot_entry_endpoint, snapshot_image_answer, snapshot_image_endpoint, snapshot_poll,
    stream_endpoint, stream_has_keyframe, url_encode_path_segment, SnapshotPoll,
};

#[test]
fn maps_protocols_to_media_server_paths() {
    assert_eq!(media_server_pull_path("rtmp"), Some("/api/pull/rtmp"));
    assert_eq!(media_server_pull_path("rtsp"), Some("/api/pull/rtsp"));
    assert_eq!(media_server_pull_path("hls"), Some("/api/pull/hls"));
    assert_eq!(media_server_pull_path("flv"), Some("/api/pull/flv"));
}

#[test]
fn detects_protocol_from_url() {
    assert_eq!(detect_protocol("rtmp://127.0.0.1/live/a"), "rtmp");
    assert_eq!(detect_protocol("https://example.com/live.m3u8"), "hls");
    assert_eq!(detect_protocol("http://example.com/live.flv"), "flv");
}

#[test]
fn detects_other_protocols() {
    assert_eq!(detect_protocol("RTSPS://cam.local/stream"), "rtsp");
    assert_eq!(detect_protocol("rtmps://x/y"), "rtmp");
    assert_eq!(detect_protocol("http://a/b/LIVE.M3U8?token=1"), "hls");
    assert_eq!(detect_protocol("http://a/b.flv?x=1"), "flv");
    assert_eq!(detect_protocol("https://a/stream"), "flv");
    assert_eq!(detect_protocol("udp://239.0.0.1:1234"), "unknown");
    assert_eq!(detect_protocol(""), "unknown");
}

#[test]
fn unknown_protocols_have_no_path() {
    assert_eq!(media_server_pull_path("unknown"), None);
    assert_eq!(media_server_pull_path("RTMP"), None);
    assert_eq!(media_server_pull_path(""), None);
}

#[test]
fn encodes_path_segments() {
    assert_eq!(url_encode_path_segment("abc-XYZ_0.9~"), "abc-XYZ_0.9~");
    assert_eq!(url_encode_path_segment("a b/c"), "a%20b%2Fc");
    assert_eq!(url_encode_path_segment("é"), "%C3%A9");
    assert_eq!(url_encode_path_segment(""), "");
}

#[test]
fn percent_encoding_round_trips() {
    let input = "频道 1/a?b=c&d";
    let enc = url_encode_path_segment(input);
    let bytes = enc.as_bytes();
    let mut out = Vec::new();
    let mut i = 0;
    while i < bytes.len() {
        if bytes[i] == b'%' {
            let h = u8::from_str_radix(std::str::from_utf8(&bytes[i + 1..i + 3]).unwrap(), 16).unwrap();
            out.push(h);
            i += 3;
        } else {
            out.push(bytes[i]);
            i += 1;
        }
    }
    assert_eq!(out, input.as_bytes());
}

#[test]
fn builds_media_server_endpoints() {
    assert_eq!(
        pull_target("http://127.0.0.1:8090//", "hls"),
        Ok("http://127.0.0.1:8090/api/pull/hls".to_string())
    );
    assert_eq!(
        pull_target("http://m", "udp"),
        Err("不支持的协议: udp".to_string())
    );
    assert_eq!(stream_endpoint("http://m/", "cam 1"), "http://m/api/stream/cam%201");
    assert_eq!(metrics_endpoint("http://m", "s"), "http://m/api/metrics/s");
    assert_eq!(snapshot_endpoint("http://m/"), "http://m/api/snapshot");
    assert_eq!(snapshot_entry_endpoint("http://m", "id/1"), "http://m/api/snapshots/id%2F1");
    assert_eq!(snapshot_image_endpoint("http://m", "abc"), "http://m/api/snapshots/abc.jpg");
}

#[test]
fn reads_media_server_answers() {
    assert!(delete_succeeded(200));
    assert!(delete_succeeded(204));
    assert!(delete_succeeded(404));
    assert!(!delete_succeeded(500));
    assert!(stream_has_keyframe(1, 0));
    assert!(stream_has_keyframe(0, 3));
    assert!(!stream_has_keyframe(0, 0));
    assert!(matches!(snapshot_poll(Some("completed"), None), SnapshotPoll::Completed));
    match snapshot_poll(Some("failed"), None) {
        SnapshotPoll::Failed(m) => assert_eq!(m, "截图失败"),
        _ => panic!("expected a failure"),
    }
    match snapshot_poll(Some("error"), Some("decoder crashed")) {
        SnapshotPoll::Failed(m) => assert_eq!(m, "decoder crashed"),
        _ => panic!("expected a failure"),
    }
    assert!(matches!(snapshot_poll(Some("running"), None), SnapshotPoll::Pending));
    assert!(matches!(snapshot_poll(None, None), SnapshotPoll::Pending));
}

#[test]
fn answers_snapshot_images() {
    assert_eq!(
        snapshot_image_answer(200, None, vec![0xff, 0xd8]),
        Ok((vec![0xff, 0xd8], "image/jpeg".to_string()))
    );
    assert_eq!(
        snapshot_image_answer(200, Some("image/png"), vec![1]),
        Ok((vec![1], "image/png".to_string()))
    );
    assert_eq!(
        snapshot_image_answer(404, Some("text/plain"), b"not \xffhere".to_vec()),
        Err((404, "not \u{fffd}here".to_string()))
    );
}
