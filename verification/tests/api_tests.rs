use vcp_iptv_manager::api::{
    add_source_failure, default_page_num, default_page_size, fetch_started_message,
    normalize_page, plan_pull_validate, pull_validate_response, select_source_for_fetch,
    toggle_message, validate_new_source, ChannelQuery, PlayItemQuery, PullValidateTask,
};
use vcp_iptv_manager::models::{
    ApiResponse, CreateSourceRequest, PlaylistSource, PullTask, Stats,
};

#[test]
fn normalizes_pages() {
    assert_eq!(default_page_num(), 1);
    assert_eq!(default_page_size(), 50);
    assert_eq!(normalize_page(0, 0), (1, 1));
    assert_eq!(normalize_page(-3, 500), (1, 200));
    assert_eq!(normalize_page(7, 20), (7, 20));
    let q = ChannelQuery { keyword: None, source: None, page_num: 2, page_size: 1000 };
    assert_eq!(q.page(), (2, 200));
    let p = PlayItemQuery { channel: None, source: None, is_valid: Some(true), keyword: None, page_num: 0, page_size: 20 };
    assert_eq!(p.page(), (1, 20));
}

#[test]
fn served_pages_are_stable() {
    for (n, size) in [(0, 0), (-3, 500), (7, 20), (i32::MIN, i32::MAX), (i32::MAX, 1)] {
        let (a, b) = normalize_page(n, size);
        assert_eq!(normalize_page(a, b), (a, b));
    }
}

fn req(name: &str, url: &str) -> CreateSourceRequest {
    CreateSourceRequest { name: name.to_string(), url: url.to_string(), category: None }
}

#[test]
fn validates_new_sources() {
    assert_eq!(validate_new_source(&req("  ", "http://x")), Err((400, "播源名称不能为空".to_string())));
    assert_eq!(
        validate_new_source(&req("n", "ftp://x")),
        Err((400, "播源 URL 必须以 http:// 或 https:// 开头".to_string()))
    );
    assert_eq!(
        validate_new_source(&req("n", " http://x")),
        Err((400, "播源 URL 必须以 http:// 或 https:// 开头".to_string()))
    );
    assert_eq!(
        validate_new_source(&req(" 我的播源 ", "https://example.com/tv.m3u ")),
        Ok(("我的播源".to_string(), "https://example.com/tv.m3u".to_string()))
    );
}

#[test]
fn answers_about_sources() {
    assert_eq!(add_source_failure("UNIQUE constraint failed"), (409, "该播源 URL 已存在".to_string()));
    assert_eq!(add_source_failure("disk full"), (500, "添加播源失败: disk full".to_string()));
    assert_eq!(toggle_message(true), "播源已启用");
    assert_eq!(toggle_message(false), "播源已禁用");
    assert_eq!(fetch_started_message("zbds"), "正在后台拉取播源: zbds");
}

fn source(id: i64, enabled: bool) -> PlaylistSource {
    PlaylistSource {
        id,
        name: format!("s{id}"),
        url: "http://x".to_string(),
        category: None,
        enabled,
        last_count: None,
        last_status: None,
        last_fetch_at: None,
        created_at: 0,
        updated_at: 0,
    }
}

#[test]
fn selects_sources_to_fetch() {
    let sources = vec![source(1, true), source(2, false), source(3, true)];
    assert_eq!(select_source_for_fetch(&sources, 3), Ok(2));
    assert_eq!(select_source_for_fetch(&sources, 2), Err((400, "播源已禁用，无法手动拉取".to_string())));
    assert_eq!(select_source_for_fetch(&sources, 9), Err((404, "播源不存在".to_string())));
}

fn task(url: &str, protocol: Option<&str>) -> PullValidateTask {
    PullValidateTask {
        url: url.to_string(),
        stream_id: format!("id-{url}"),
        protocol: protocol.map(|p| p.to_string()),
        channel_name: Some("ch".to_string()),
        play_item_id: Some(7),
    }
}

fn pull_task(id: i64, status: &str) -> PullTask {
    PullTask {
        id,
        channel_name: None,
        play_item_id: None,
        url: "http://a/x.m3u8".to_string(),
        stream_id: format!("st{id}"),
        protocol: "hls".to_string(),
        status: status.to_string(),
        error_message: None,
        snapshot_id: None,
        snapshot_status: None,
        retry_count: 0,
        created_at: 0,
        updated_at: 0,
        started_at: None,
        completed_at: None,
    }
}

#[test]
fn plans_pull_validation_batches() {
    let tasks = vec![
        task("http://a/x.m3u8", None),
        task("udp://239.0.0.1", None),
        task("http://a/y", Some("webrtc")),
        task("rtsp://cam", Some("rtsp")),
    ];
    let (reqs, refused) = plan_pull_validate(&tasks);
    assert_eq!(reqs.len(), 2);
    assert_eq!(reqs[0].protocol.as_deref(), Some("hls"));
    assert_eq!(reqs[0].play_item_id, Some(7));
    assert_eq!(reqs[1].protocol.as_deref(), Some("rtsp"));
    assert_eq!(refused.len(), 2);
    assert_eq!(refused[0].protocol, "unknown");
    assert_eq!(refused[0].message, "不支持的协议: unknown");
    assert_eq!(refused[0].status, "error");
    assert_eq!(refused[0].task_id, 0);
    assert_eq!(refused[1].message, "不支持的协议: webrtc");

    let resp = pull_validate_response(4, refused, vec![pull_task(11, "pending"), pull_task(12, "pending")]);
    assert_eq!(resp.total, 4);
    assert_eq!(resp.results.len(), 4);
    assert_eq!(resp.error, 2);
    assert_eq!(resp.queued, 2);
    assert_eq!(resp.results[2].task_id, 11);
    assert_eq!(resp.results[2].message, "已加入拉流验证任务队列");
    assert_eq!(resp.tasks.len(), 2);
}

#[test]
fn builds_envelopes_and_stats() {
    let ok = ApiResponse::success(5);
    assert_eq!((ok.code, ok.message.as_str(), ok.data), (0, "ok", Some(5)));
    let err: ApiResponse<i32> = ApiResponse::error(404, "播源不存在".to_string());
    assert_eq!((err.code, err.message.as_str(), err.data), (404, "播源不存在", None));
    let s = Stats::from_counts(3, 523, 516, 1, 1, Vec::new());
    assert_eq!(s.invalid_play_items, 7);
    assert_eq!(s.valid_play_items + s.invalid_play_items, s.total_play_items);
}
