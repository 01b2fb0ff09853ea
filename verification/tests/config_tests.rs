use vcp_iptv_manager::config::{
    apply_env_overrides, default_db_path, default_host, default_media_manager_url, default_port,
    default_request_timeout_secs, default_scrape_interval_secs, default_verify_concurrency,
    default_verify_timeout_secs, Config, EnvOverrides, SourceConfig,
};

fn no_env() -> EnvOverrides {
    EnvOverrides {
        db_path: None,
        host: None,
        port: None,
        scrape_interval_secs: None,
        verify_timeout_secs: None,
        request_timeout_secs: None,
        verify_concurrency: None,
        initial_sources: None,
    }
}

#[test]
fn default_configuration() {
    let c = Config::default();
    assert_eq!(c.db_path, "data/iptv.db");
    assert_eq!(c.host, "0.0.0.0");
    assert_eq!(c.port, 5001);
    assert_eq!(c.scrape_interval_secs, 3600);
    assert_eq!(c.verify_timeout_secs, 10);
    assert_eq!(c.request_timeout_secs, 30);
    assert_eq!(c.verify_concurrency, 20);
    assert!(c.sources.is_empty());
    assert_eq!(c.media_manager_url, "http://127.0.0.1:8090");
    assert_eq!(default_db_path(), "data/iptv.db");
    assert_eq!(default_host(), "0.0.0.0");
    assert_eq!(default_port(), 5001);
    assert_eq!(default_scrape_interval_secs(), 3600);
    assert_eq!(default_verify_timeout_secs(), 10);
    assert_eq!(default_request_timeout_secs(), 30);
    assert_eq!(default_verify_concurrency(), 20);
    assert_eq!(default_media_manager_url(), "http://127.0.0.1:8090");
}

#[test]
fn parses_legacy_source_lists() {
    let v = Config::parse_legacy_sources(" a , http://x/1.m3u , 新闻 ; ;b,http://y/2.m3u;c,, x ;,http://z; d ,http://w,  ;e,http://v,cat,with,commas");
    assert_eq!(v.len(), 4);
    assert_eq!((v[0].name.as_str(), v[0].url.as_str(), v[0].category.as_deref()), ("a", "http://x/1.m3u", Some("新闻")));
    assert_eq!((v[1].name.as_str(), v[1].url.as_str(), v[1].category.as_deref()), ("b", "http://y/2.m3u", None));
    assert_eq!((v[2].name.as_str(), v[2].url.as_str(), v[2].category.as_deref()), ("d", "http://w", None));
    assert_eq!(v[3].category.as_deref(), Some("cat,with,commas"));
    assert!(Config::parse_legacy_sources("").is_empty());
}

#[test]
fn lists_initial_sources() {
    let mut c = Config::default();
    c.sources.push(SourceConfig { name: "n".to_string(), url: "http://u".to_string(), category: Some("c".to_string()) });
    c.sources.push(SourceConfig { name: "m".to_string(), url: "http://v".to_string(), category: None });
    let t = c.parse_initial_sources();
    assert_eq!(t, vec![
        ("n".to_string(), "http://u".to_string(), Some("c".to_string())),
        ("m".to_string(), "http://v".to_string(), None),
    ]);
}

#[test]
fn applies_environment_overrides() {
    let mut env = no_env();
    env.port = Some("8080".to_string());
    env.host = Some("127.0.0.1".to_string());
    env.scrape_interval_secs = Some("+7200".to_string());
    env.verify_timeout_secs = Some("-1".to_string());
    env.verify_concurrency = Some("abc".to_string());
    env.request_timeout_secs = Some("60".to_string());
    env.initial_sources = Some("x,http://x".to_string());
    let c = apply_env_overrides(Config::default(), env);
    assert_eq!(c.port, 8080);
    assert_eq!(c.host, "127.0.0.1");
    assert_eq!(c.db_path, "data/iptv.db");
    assert_eq!(c.scrape_interval_secs, 7200);
    assert_eq!(c.verify_timeout_secs, 10);
    assert_eq!(c.verify_concurrency, 20);
    assert_eq!(c.request_timeout_secs, 60);
    assert_eq!(c.sources.len(), 1);

    let mut env = no_env();
    env.port = Some("70000".to_string());
    env.initial_sources = Some(";;".to_string());
    let mut base = Config::default();
    base.sources.push(SourceConfig { name: "keep".to_string(), url: "http://k".to_string(), category: None });
    let c = apply_env_overrides(base, env);
    assert_eq!(c.port, 5001);
    assert_eq!(c.sources.len(), 1);
    assert_eq!(c.sources[0].name, "keep");
}

#[test]
fn no_overrides_keep_the_configuration() {
    let c = apply_env_overrides(Config::default(), no_env());
    assert_eq!(c.port, 5001);
    assert_eq!(c.db_path, "data/iptv.db");
    assert!(c.sources.is_empty());
}
