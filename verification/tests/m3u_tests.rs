use vcp_iptv_manager::m3u::{
    accept_playlist_body, extinf_attr_exec, extinf_name_exec, probe_verdict, resolve_url,
    resolve_url_with, M3uPlaylistFetcher, ScrapeStep, MAX_PLAYLIST_BYTES,
};
use vcp_iptv_manager::text::chars_of;

fn fetcher(url: &str, category: Option<&str>) -> M3uPlaylistFetcher {
    M3uPlaylistFetcher::new(
        "zbds-iptv4".to_string(),
        url.to_string(),
        category.map(|c| c.to_string()),
        reqwest::Client::new(),
    )
}

fn attr(line: &str, name: &str) -> Option<String> {
    extinf_attr_exec(&chars_of(line), &chars_of(name)).map(|v| v.into_iter().collect())
}

fn name(line: &str) -> String {
    extinf_name_exec(&chars_of(line)).into_iter().collect()
}

#[test]
fn reads_extinf_names() {
    assert_eq!(name("#EXTINF:-1,CCTV-1 综合"), "CCTV-1 综合");
    assert_eq!(name("#EXTINF:-1 tvg-name=\"CCTV1\",CCTV-1 综合"), "CCTV-1 综合");
    assert_eq!(name("#EXTINF:-1 tvg-name=\"CCTV1\" tvg-logo=\"...\",CCTV-1 综合"), "CCTV-1 综合");
    assert_eq!(name("#EXTINF:-1 tvg-name=\"CCTV1\",  "), "CCTV1");
    assert_eq!(name("#EXTINF:-1"), "未知频道");
}

#[test]
fn reads_extinf_attributes() {
    let line = "#EXTINF:-1 tvg-name=\"CCTV1\" tvg-logo=\"http://x/l.png\" group-title=\"央视\",CCTV-1";
    assert_eq!(attr(line, "group-title"), Some("央视".to_string()));
    assert_eq!(attr(line, "tvg-logo"), Some("http://x/l.png".to_string()));
    assert_eq!(attr(line, "tvg-resolution"), None);
    assert_eq!(attr("#EXTINF:-1 tvg-resolution=1080p,Name", "tvg-resolution"), Some("1080p".to_string()));
    assert_eq!(attr("#EXTINF:-1 group-title=\"open,Name", "group-title"), Some("\"open".to_string()));
    assert_eq!(attr("#EXTINF:-1 a=,x", "a"), None);
}

#[test]
fn resolves_urls() {
    assert_eq!(resolve_url("http://h/a/list.m3u", "  https://x/y.m3u8 "), "https://x/y.m3u8");
    assert_eq!(resolve_url("http://h/a/list.m3u", "b/c.m3u8"), "http://h/a/b/c.m3u8");
    assert_eq!(resolve_url("http://h/a/list.m3u", "/root.m3u8"), "http://h/root.m3u8");
    assert_eq!(resolve_url_with("http://h/a/list.m3u", "/x.m3u8", None), "http://h/x.m3u8");
    assert_eq!(resolve_url_with("nobase", "/x.m3u8", None), "/x.m3u8");
    assert_eq!(resolve_url_with("http://h", "/x", None), "http://h/x");
    assert_eq!(resolve_url_with("http://h/a/l.m3u", "x", None), "http://h/a/x");
    assert_eq!(resolve_url_with("plain", "x", None), "plain/x");
    assert_eq!(resolve_url_with("b", "x", Some("joined".to_string())), "joined");
}

const SIMPLE: &str = "#EXTM3U\n#EXTINF:-1 tvg-name=\"CCTV1\" tvg-logo=\"...\" group-title=\"央视\",CCTV-1 综合\nhttp://example.com/cctv1.m3u8\n#EXTINF:-1,湖南卫视\r\nhttp://example.com/hunan.m3u8\r\n#EXTINF:-1,组播\nrtp://239.1.1.1:5000\n#EXTINF:-1 tvg-resolution=\"720p\",相对\n#EXTVLCOPT:http-user-agent=x\nlocal/rel.m3u8\n";

#[test]
fn parses_simple_playlists() {
    let f = fetcher("http://example.com/tv/list.m3u", Some("综合"));
    let items = f.parse_simple_playlist(SIMPLE);
    assert_eq!(items.len(), 3);
    assert_eq!(items[0].channel_name, "CCTV-1 综合");
    assert_eq!(items[0].url, "http://example.com/cctv1.m3u8");
    assert_eq!(items[0].category.as_deref(), Some("央视"));
    assert_eq!(items[0].source, "zbds-iptv4");
    assert_eq!(items[1].channel_name, "湖南卫视");
    assert_eq!(items[1].url, "http://example.com/hunan.m3u8");
    assert_eq!(items[1].category.as_deref(), Some("综合"));
    assert_eq!(items[2].channel_name, "相对");
    assert_eq!(items[2].url, "http://example.com/tv/local/rel.m3u8");
    assert_eq!(items[2].resolution.as_deref(), Some("720p"));
    for it in &items {
        assert!(it.url.starts_with("http://") || it.url.starts_with("https://"));
    }
}

#[test]
fn extinf_without_url_swallows_next_entry() {
    let f = fetcher("http://h/p.m3u", None);
    let items = f.parse_simple_playlist("#EXTM3U\n#EXTINF:-1,A\n#EXTINF:-1,B\nhttp://h/b.m3u8\n#EXTINF:-1,C\nhttp://h/c.m3u8");
    assert_eq!(items.len(), 1);
    assert_eq!(items[0].channel_name, "C");
}

const MASTER: &str = "#EXTM3U\n#EXT-X-STREAM-INF:BANDWIDTH=2000000,RESOLUTION=1920x1080\nhttp://example.com/channel_hd.m3u8\n#EXT-X-STREAM-INF:BANDWIDTH=800000,RESOLUTION=640x360\nhttp://example.com/channel_sd.m3u8\n#EXT-X-STREAM-INF:BANDWIDTH=100\nno_res.m3u8\n#EXT-X-STREAM-INF:RESOLUTION=1920x1080\nhttp://example.com/hd2.m3u8\n";

#[test]
fn sorts_sub_streams_by_width() {
    let f = fetcher("http://example.com/live/master.m3u8", None);
    let urls = f.extract_sub_urls(MASTER);
    assert_eq!(
        urls,
        vec![
            "http://example.com/live/no_res.m3u8".to_string(),
            "http://example.com/channel_sd.m3u8".to_string(),
            "http://example.com/channel_hd.m3u8".to_string(),
            "http://example.com/hd2.m3u8".to_string(),
        ]
    );
}

#[test]
fn plans_scrapes() {
    let f = fetcher("http://example.com/live/master.m3u8", None);
    assert!(matches!(f.plan_scrape("   \n"), ScrapeStep::Finished(v) if v.is_empty()));
    assert!(matches!(f.plan_scrape("<html>nope</html>"), ScrapeStep::Finished(v) if v.is_empty()));
    match f.plan_scrape(MASTER) {
        ScrapeStep::FetchSubPlaylist(u) => assert_eq!(u, "http://example.com/hd2.m3u8"),
        _ => panic!("expected a sub-playlist download"),
    }
    assert!(matches!(f.plan_scrape("#EXTM3U\n#EXT-X-STREAM-INF:BANDWIDTH=1\n"), ScrapeStep::Finished(v) if v.is_empty()));
    match f.plan_scrape(SIMPLE) {
        ScrapeStep::Finished(v) => {
            assert_eq!(v.len(), 3);
            assert_eq!(v[2].url, "http://example.com/live/local/rel.m3u8");
        }
        _ => panic!("expected entries"),
    }
    assert_eq!(f.finish_sub_playlist(None).len(), 0);
    assert_eq!(f.finish_sub_playlist(Some(MASTER)).len(), 0);
    assert_eq!(f.finish_sub_playlist(Some("#EXTINF:-1,A\nhttp://a/b.m3u8")).len(), 0);
    assert_eq!(f.finish_sub_playlist(Some("#EXTM3U\n#EXTINF:-1,A\nhttp://a/b.m3u8")).len(), 1);
}

#[test]
fn limits_playlist_bodies() {
    let ok = accept_playlist_body(&"#EXTM3U\n".as_bytes().to_vec());
    assert_eq!(ok, Ok("#EXTM3U\n".to_string()));
    let lossy = accept_playlist_body(&vec![b'a', 0xff, b'b']);
    assert_eq!(lossy, Ok("a\u{fffd}b".to_string()));
    let big = vec![b'x'; MAX_PLAYLIST_BYTES + 1];
    assert_eq!(accept_playlist_body(&big), Err("播源内容过大 (10485761 bytes)，跳过".to_string()));
    let edge = vec![b'x'; MAX_PLAYLIST_BYTES];
    assert!(accept_playlist_body(&edge).is_ok());
}

#[test]
fn probes_stream_addresses() {
    assert_eq!(probe_verdict(404, &Vec::new()), (false, "HTTP 404".to_string()));
    assert_eq!(probe_verdict(206, &b"#EXTM3U\n".to_vec()), (false, "HTTP 206".to_string()));
    assert_eq!(probe_verdict(200, &b"#EXTM3U\n".to_vec()), (true, "M3U 有效".to_string()));
    assert_eq!(probe_verdict(200, &b"<html>".to_vec()), (false, "非 M3U 格式".to_string()));
    let mut late = vec![b' '; 5000];
    late.extend_from_slice(b"#EXTM3U");
    assert_eq!(probe_verdict(200, &late), (false, "非 M3U 格式".to_string()));
}
