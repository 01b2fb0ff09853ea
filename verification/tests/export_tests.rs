use vcp_iptv_manager::export::render_m3u8_playlist;
use vcp_iptv_manager::models::PlayItem;

fn item(id: i64, name: &str, source: &str, url: &str) -> PlayItem {
    PlayItem {
        id,
        channel_name: name.to_string(),
        url: url.to_string(),
        source: source.to_string(),
        category: None,
        is_valid: true,
        fail_count: 0,
        last_checked: None,
        resolution: None,
        bitrate: None,
        created_at: 0,
        updated_at: 0,
    }
}

#[test]
fn exports_grouped_by_channel_name() {
    let items = vec![
        item(1, "湖南卫视", "s1", "http://a/h1.m3u8"),
        item(2, "CCTV-1", "s2", "http://a/c1.m3u8"),
        item(3, "湖南卫视", "s3", "http://a/h2.m3u8"),
        item(4, "CCTV-1", "s1", "http://a/c2.m3u8"),
        item(5, "BTV", "s1", "http://a/b.m3u8"),
    ];
    let text = render_m3u8_playlist(&items);
    assert_eq!(
        text,
        "#EXTM3U\n\
#EXTINF:-1,BTV [s1]\nhttp://a/b.m3u8\n\
#EXTINF:-1,CCTV-1 [s2]\nhttp://a/c1.m3u8\n\
#EXTINF:-1,CCTV-1 [s1]\nhttp://a/c2.m3u8\n\
#EXTINF:-1,湖南卫视 [s1]\nhttp://a/h1.m3u8\n\
#EXTINF:-1,湖南卫视 [s3]\nhttp://a/h2.m3u8\n"
    );
}

#[test]
fn orders_names_like_strings() {
    let items = vec![item(1, "b", "s", "u1"), item(2, "ab", "s", "u2"), item(3, "a", "s", "u3"), item(4, "B", "s", "u4")];
    let text = render_m3u8_playlist(&items);
    let mut names: Vec<String> = items.iter().map(|i| i.channel_name.clone()).collect();
    names.sort();
    names.dedup();
    let order: Vec<&str> = text
        .lines()
        .filter(|l| l.starts_with("#EXTINF"))
        .map(|l| l.trim_start_matches("#EXTINF:-1,").trim_end_matches(" [s]"))
        .collect();
    assert_eq!(order, names);
}

#[test]
fn exports_nothing_but_the_header_when_empty() {
    assert_eq!(render_m3u8_playlist(&Vec::new()), "#EXTM3U\n");
}
