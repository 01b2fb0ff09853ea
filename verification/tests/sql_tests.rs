use vcp_iptv_manager::scheduler::{fetch_record, fresh_urls, scrape_period_secs, verify_cron_expr};
use vcp_iptv_manager::models::RawPlayItem;
use vcp_iptv_manager::sql::{
    channel_filter, channel_page_query, page_offset, play_item_filter, play_item_page_query,
    stale_cleanup_sql, SqlValue,
};

fn text(v: &SqlValue) -> Option<&str> {
    match v {
        SqlValue::Text(s) => Some(s.as_str()),
        _ => None,
    }
}

#[test]
fn builds_channel_filters() {
    let f = channel_filter(Some("CCTV"), Some("zbds"));
    assert_eq!(f.clause, "1=1 AND name LIKE ?1 AND source = ?2");
    assert_eq!(text(&f.binds[0]), Some("%CCTV%"));
    assert_eq!(text(&f.binds[1]), Some("zbds"));
    let g = channel_filter(None, Some("zbds"));
    assert_eq!(g.clause, "1=1 AND source = ?1");
}

#[test]
fn builds_play_item_filters() {
    let f = play_item_filter(Some("湖南"), None, Some(true), Some("hd"));
    assert_eq!(f.clause, "1=1 AND channel_name LIKE ?1 AND is_valid = ?2 AND (channel_name LIKE ?3 OR url LIKE ?3)");
    assert_eq!(f.binds.len(), 3);
    assert!(matches!(f.binds[1], SqlValue::Bool(true)));
    assert_eq!(play_item_filter(None, None, None, None).clause, "1=1");
}

#[test]
fn builds_paged_queries() {
    let q = channel_page_query(Some("a"), None, 3, 20);
    assert_eq!(q.count_sql, "SELECT COUNT(*) FROM channels WHERE 1=1 AND name LIKE ?1");
    assert_eq!(
        q.page_sql,
        "SELECT id, name, source, category, logo_url, created_at, updated_at\n             FROM channels WHERE 1=1 AND name LIKE ?1 ORDER BY id LIMIT ?2 OFFSET ?3"
    );
    assert_eq!(q.count_binds.len(), 1);
    assert_eq!(q.page_binds.len(), 3);
    assert!(matches!(q.page_binds[1], SqlValue::Int(20)));
    assert!(matches!(q.page_binds[2], SqlValue::Int(40)));
    let p = play_item_page_query(None, Some("s"), None, None, 1, 50);
    assert!(p.page_sql.ends_with("FROM play_items WHERE 1=1 AND source = ?1\n             ORDER BY is_valid DESC, id DESC\n             LIMIT ?2 OFFSET ?3"));
    assert!(matches!(p.page_binds[2], SqlValue::Int(0)));
}

#[test]
fn computes_offsets() {
    assert_eq!(page_offset(1, 50), 0);
    assert_eq!(page_offset(4, 25), 75);
    assert_eq!(page_offset(0, 10), 0);
}

#[test]
fn builds_stale_cleanup() {
    assert_eq!(stale_cleanup_sql(0), None);
    assert_eq!(
        stale_cleanup_sql(3),
        Some("DELETE FROM play_items WHERE source = ?1 AND url NOT IN (?2,?3,?4)".to_string())
    );
    assert_eq!(
        stale_cleanup_sql(1),
        Some("DELETE FROM play_items WHERE source = ?1 AND url NOT IN (?2)".to_string())
    );
}

#[test]
fn schedules_scrapes_at_the_interval() {
    for s in [30u64, 90, 3600, 5400, 7200, 9000] {
        assert_eq!(scrape_period_secs(s), Ok(s));
    }
    assert_eq!(scrape_period_secs(0), Err("拉取间隔必须大于 0 秒".to_string()));
    assert_eq!(verify_cron_expr(), "0 0 * * * *");
}

#[test]
fn records_fetches() {
    let items = vec![RawPlayItem {
        channel_name: "c".to_string(),
        url: "http://u".to_string(),
        source: "s".to_string(),
        category: None,
        resolution: None,
    }];
    assert_eq!(fresh_urls(&items), vec!["http://u".to_string()]);
    assert_eq!(fetch_record(Some(2)), (2, "ok"));
    assert_eq!(fetch_record(None), (0, "error"));
}
