//! Service configuration: defaults, environment overrides and the legacy
//! `INITIAL_SOURCES` list format.
use vstd::prelude::*;

use crate::num::{all_digits, digits_value, is_digit, parse_u16, parse_u64, parse_unsigned, parse_usize};
use crate::text::{
    chars_of, lemma_next_char, next_char_exec, next_char_from, string_of, sub_vec, trim,
    trim_chars,
};

verus! {

/// One configured playlist source.
pub struct SourceConfig {
    pub name: String,
    pub url: String,
    pub category: Option<String>,
}

pub struct SourceConfigView {
    pub name: Seq<char>,
    pub url: Seq<char>,
    pub category: Option<Seq<char>>,
}

impl View for SourceConfig {
    type V = SourceConfigView;

    open spec fn view(&self) -> SourceConfigView {
        SourceConfigView { name: self.name@, url: self.url@, category: self.category.deep_view() }
    }
}

pub open spec fn sources_view(v: Seq<SourceConfig>) -> Seq<SourceConfigView> {
    v.map_values(|s: SourceConfig| s@)
}

/// Service configuration.
pub struct Config {
    pub db_path: String,
    pub host: String,
    pub port: u16,
    pub scrape_interval_secs: u64,
    pub verify_timeout_secs: u64,
    pub request_timeout_secs: u64,
    pub verify_concurrency: usize,
    /// Initial playlist sources.
    pub sources: Vec<SourceConfig>,
    /// Address of the media manager that pull-validation tasks go to.
    pub media_manager_url: String,
}

pub fn default_media_manager_url() -> (r: String)
    ensures
        r@ == "http://127.0.0.1:8090"@,
{
    "http://127.0.0.1:8090".to_string()
}

pub fn default_db_path() -> (r: String)
    ensures
        r@ == "data/iptv.db"@,
{
    "data/iptv.db".to_string()
}

pub fn default_host() -> (r: String)
    ensures
        r@ == "0.0.0.0"@,
{
    "0.0.0.0".to_string()
}

pub fn default_port() -> (r: u16)
    ensures
        r == 5001,
{
    5001
}

pub fn default_scrape_interval_secs() -> (r: u64)
    ensures
        r == 3600,
{
    3600
}

pub fn default_verify_timeout_secs() -> (r: u64)
    ensures
        r == 10,
{
    10
}

pub fn default_request_timeout_secs() -> (r: u64)
    ensures
        r == 30,
{
    30
}

pub fn default_verify_concurrency() -> (r: usize)
    ensures
        r == 20,
{
    20
}

/// The default configuration: the defaults of each field and no sources.
pub open spec fn is_default_config(c: Config) -> bool {
    &&& c.db_path@ == "data/iptv.db"@
    &&& c.host@ == "0.0.0.0"@
    &&& c.port == 5001
    &&& c.scrape_interval_secs == 3600
    &&& c.verify_timeout_secs == 10
    &&& c.request_timeout_secs == 30
    &&& c.verify_concurrency == 20
    &&& c.sources@.len() == 0
    &&& c.media_manager_url@ == "http://127.0.0.1:8090"@
}

impl Default for Config {
    fn default() -> (r: Self)
        ensures
            is_default_config(r),
    {
        Config {
            db_path: default_db_path(),
            host: default_host(),
            port: default_port(),
            scrape_interval_secs: default_scrape_interval_secs(),
            verify_timeout_secs: default_verify_timeout_secs(),
            request_timeout_secs: default_request_timeout_secs(),
            verify_concurrency: default_verify_concurrency(),
            sources: Vec::new(),
            media_manager_url: default_media_manager_url(),
        }
    }
}

// ---------------------------------------------------------------------------
// Splitting
// ---------------------------------------------------------------------------

/// `str::split` on a character, from index `i`: the pieces between
/// separators, empty ones included; there is always a last piece.
pub open spec fn split_from(s: Seq<char>, c: char, i: int) -> Seq<Seq<char>>
    decreases s.len() - i,
{
    let k = next_char_from(s, c, i);
    if i <= s.len() && k < s.len() {
        proof {
            lemma_next_char(s, c, i);
        }
        seq![s.subrange(i, k)] + split_from(s, c, k + 1)
    } else {
        seq![s.subrange(i, s.len() as int)]
    }
}

pub open spec fn split_on(s: Seq<char>, c: char) -> Seq<Seq<char>> {
    split_from(s, c, 0)
}

pub fn split_on_exec(s: &Vec<char>, c: char) -> (r: Vec<Vec<char>>)
    ensures
        r@.map_values(|x: Vec<char>| x@) == split_on(s@, c),
{
    let mut out: Vec<Vec<char>> = Vec::new();
    let mut i: usize = 0;
    loop
        invariant
            i <= s.len(),
            out@.map_values(|x: Vec<char>| x@) + split_from(s@, c, i as int) == split_on(s@, c),
        decreases s.len() - i,
    {
        let ghost before = out@.map_values(|x: Vec<char>| x@);
        let k = next_char_exec(s, c, i);
        proof {
            lemma_next_char(s@, c, i as int);
        }
        if k < s.len() {
            let piece = sub_vec(s, i, k);
            out.push(piece);
            assert(out@.map_values(|x: Vec<char>| x@) =~= before + seq![s@.subrange(i as int, k as int)]);
            i = k + 1;
        } else {
            let piece = sub_vec(s, i, s.len());
            out.push(piece);
            assert(out@.map_values(|x: Vec<char>| x@) =~= before + seq![s@.subrange(i as int, s.len() as int)]);
            assert(out@.map_values(|x: Vec<char>| x@) =~= split_on(s@, c));
            return out;
        }
    }
}

// ---------------------------------------------------------------------------
// Legacy source lists: "name,url,category;name2,url2,cat2"
// ---------------------------------------------------------------------------

/// The source one `;`-separated part describes: `name,url[,category]` with
/// each field trimmed; the category may hold commas and is dropped when
/// empty; parts without a name or a URL describe none.
pub open spec fn legacy_source(part: Seq<char>) -> Option<SourceConfigView> {
    let p = trim(part);
    let c1 = next_char_from(p, ',', 0);
    let c2 = next_char_from(p, ',', c1 + 1);
    let name = trim(p.subrange(0, c1));
    let url = if c1 < p.len() {
        trim(p.subrange(c1 + 1, c2))
    } else {
        Seq::<char>::empty()
    };
    let category = if c1 < p.len() && c2 < p.len() {
        let t = trim(p.subrange(c2 + 1, p.len() as int));
        if t.len() > 0 {
            Some(t)
        } else {
            None
        }
    } else {
        None
    };
    if p.len() > 0 && name.len() > 0 && url.len() > 0 {
        Some(SourceConfigView { name, url, category })
    } else {
        None
    }
}

/// The sources described by the parts from index `i` on.
pub open spec fn legacy_sources_from(parts: Seq<Seq<char>>, i: int) -> Seq<SourceConfigView>
    decreases parts.len() - i,
{
    if i < 0 || i >= parts.len() {
        seq![]
    } else {
        match legacy_source(parts[i]) {
            Some(s) => seq![s] + legacy_sources_from(parts, i + 1),
            None => legacy_sources_from(parts, i + 1),
        }
    }
}

/// The sources a legacy `INITIAL_SOURCES` value lists.
pub open spec fn legacy_sources(raw: Seq<char>) -> Seq<SourceConfigView> {
    legacy_sources_from(split_on(raw, ';'), 0)
}

proof fn lemma_legacy_sources_from_named(parts: Seq<Seq<char>>, i: int)
    ensures
        forall|k: int|
            0 <= k < legacy_sources_from(parts, i).len() ==> (#[trigger] legacy_sources_from(parts, i)[k]).name.len() > 0
                && legacy_sources_from(parts, i)[k].url.len() > 0,
    decreases parts.len() - i,
{
    if 0 <= i < parts.len() {
        lemma_legacy_sources_from_named(parts, i + 1);
        let rest = legacy_sources_from(parts, i + 1);
        match legacy_source(parts[i]) {
            Some(s) => {
                let all = legacy_sources_from(parts, i);
                assert(all == seq![s] + rest);
                assert forall|k: int| 0 <= k < all.len() implies (#[trigger] all[k]).name.len() > 0 && all[k].url.len() > 0 by {
                    if k > 0 {
                        assert(all[k] == rest[k - 1]);
                    }
                }
            },
            None => {},
        }
    }
}

/// Every source of a legacy list has a name and a URL.
pub proof fn lemma_legacy_sources_named(raw: Seq<char>)
    ensures
        forall|k: int|
            0 <= k < legacy_sources(raw).len() ==> (#[trigger] legacy_sources(raw)[k]).name.len() > 0
                && legacy_sources(raw)[k].url.len() > 0,
{
    lemma_legacy_sources_from_named(split_on(raw, ';'), 0);
}

fn legacy_source_exec(part: &Vec<char>) -> (r: Option<SourceConfig>)
    ensures
        match r {
            Some(s) => legacy_source(part@) == Some(s@),
            None => legacy_source(part@) is None,
        },
{
    let p = trim_chars(part);
    if p.len() == 0 {
        return None;
    }
    let c1 = next_char_exec(&p, ',', 0);
    proof {
        lemma_next_char(p@, ',', 0);
    }
    let c2 = if c1 < p.len() {
        next_char_exec(&p, ',', c1 + 1)
    } else {
        p.len()
    };
    proof {
        lemma_next_char(p@, ',', c1 + 1);
    }
    let head = sub_vec(&p, 0, c1);
    let name = trim_chars(&head);
    let url: Vec<char> = if c1 < p.len() {
        let mid = sub_vec(&p, c1 + 1, c2);
        trim_chars(&mid)
    } else {
        Vec::new()
    };
    let category: Option<String> = if c1 < p.len() && c2 < p.len() {
        let tail = sub_vec(&p, c2 + 1, p.len());
        let t = trim_chars(&tail);
        if t.len() > 0 {
            Some(string_of(&t))
        } else {
            None
        }
    } else {
        None
    };
    if name.len() > 0 && url.len() > 0 {
        Some(SourceConfig { name: string_of(&name), url: string_of(&url), category })
    } else {
        None
    }
}

impl Config {
    /// Reads the legacy source list format `"name,url,category;name2,url2,cat2"`.
    pub fn parse_legacy_sources(raw: &str) -> (r: Vec<SourceConfig>)
        ensures
            sources_view(r@) == legacy_sources(raw@),
    {
        let rc = chars_of(raw);
        let parts = split_on_exec(&rc, ';');
        let ghost pv = parts@.map_values(|x: Vec<char>| x@);
        let mut result: Vec<SourceConfig> = Vec::new();
        let mut i: usize = 0;
        while i < parts.len()
            invariant
                i <= parts.len(),
                pv == parts@.map_values(|x: Vec<char>| x@),
                pv == split_on(raw@, ';'),
                sources_view(result@) + legacy_sources_from(pv, i as int) == legacy_sources(raw@),
            decreases parts.len() - i,
        {
            let ghost before = sources_view(result@);
            assert(pv[i as int] == parts@[i as int]@);
            match legacy_source_exec(&parts[i]) {
                Some(s) => {
                    result.push(s);
                    assert(sources_view(result@) =~= before + seq![result@.last()@]);
                },
                None => {},
            }
            i += 1;
        }
        assert(sources_view(result@) + legacy_sources_from(pv, i as int) =~= sources_view(result@));
        result
    }

    /// The sources as `(name, url, category)` triples, in order.
    pub fn parse_initial_sources(&self) -> (r: Vec<(String, String, Option<String>)>)
        ensures
            r@.len() == self.sources@.len(),
            forall|i: int|
                0 <= i < r@.len() ==> (#[trigger] r@[i]).0 == self.sources@[i].name && r@[i].1
                    == self.sources@[i].url && r@[i].2 == self.sources@[i].category,
    {
        let mut out: Vec<(String, String, Option<String>)> = Vec::new();
        let mut i: usize = 0;
        while i < self.sources.len()
            invariant
                i <= self.sources.len(),
                out@.len() == i,
                forall|k: int|
                    0 <= k < i ==> (#[trigger] out@[k]).0 == self.sources@[k].name && out@[k].1
                        == self.sources@[k].url && out@[k].2 == self.sources@[k].category,
            decreases self.sources.len() - i,
        {
            let s = &self.sources[i];
            let cat = match &s.category {
                Some(c) => Some(c.clone()),
                None => None,
            };
            out.push((s.name.clone(), s.url.clone(), cat));
            i += 1;
        }
        out
    }
}

// ---------------------------------------------------------------------------
// Environment overrides
// ---------------------------------------------------------------------------

/// The values of the environment variables that override the configuration
/// (`DB_PATH`, `HOST`, `PORT`, `SCRAPE_INTERVAL_SECS`, `VERIFY_TIMEOUT_SECS`,
/// `REQUEST_TIMEOUT_SECS`, `VERIFY_CONCURRENCY`, `INITIAL_SOURCES`), when set.
pub struct EnvOverrides {
    pub db_path: Option<String>,
    pub host: Option<String>,
    pub port: Option<String>,
    pub scrape_interval_secs: Option<String>,
    pub verify_timeout_secs: Option<String>,
    pub request_timeout_secs: Option<String>,
    pub verify_concurrency: Option<String>,
    pub initial_sources: Option<String>,
}

/// A numeric override: the parsed value when set and valid, else `current`.
pub open spec fn numeric_override(v: Option<String>, max: int, current: int) -> int {
    match v {
        Some(s) => match parse_unsigned(s@, max) {
            Some(n) => n,
            None => current,
        },
        None => current,
    }
}

/// The overrides applied to `c` give `r`: text values replace, numbers
/// replace when they parse, and a legacy source list replaces the sources
/// when it lists at least one.
pub open spec fn overridden(c: Config, env: EnvOverrides, r: Config) -> bool {
    &&& r.db_path == (match env.db_path {
        Some(v) => v,
        None => c.db_path,
    })
    &&& r.host == (match env.host {
        Some(v) => v,
        None => c.host,
    })
    &&& r.port == numeric_override(env.port, u16::MAX as int, c.port as int)
    &&& r.scrape_interval_secs == numeric_override(env.scrape_interval_secs, u64::MAX as int, c.scrape_interval_secs as int)
    &&& r.verify_timeout_secs == numeric_override(env.verify_timeout_secs, u64::MAX as int, c.verify_timeout_secs as int)
    &&& r.request_timeout_secs == numeric_override(env.request_timeout_secs, u64::MAX as int, c.request_timeout_secs as int)
    &&& r.verify_concurrency == numeric_override(env.verify_concurrency, usize::MAX as int, c.verify_concurrency as int)
    &&& sources_view(r.sources@) == (match env.initial_sources {
        Some(raw) => if legacy_sources(raw@).len() > 0 {
            legacy_sources(raw@)
        } else {
            sources_view(c.sources@)
        },
        None => sources_view(c.sources@),
    })
    &&& r.media_manager_url == c.media_manager_url
}

/// With no variable set, the overrides leave the configuration as it is.
pub proof fn lemma_no_overrides(c: Config, env: EnvOverrides, r: Config)
    requires
        env.db_path is None,
        env.host is None,
        env.port is None,
        env.scrape_interval_secs is None,
        env.verify_timeout_secs is None,
        env.request_timeout_secs is None,
        env.verify_concurrency is None,
        env.initial_sources is None,
        overridden(c, env, r),
    ensures
        r.db_path == c.db_path,
        r.host == c.host,
        r.port == c.port,
        r.scrape_interval_secs == c.scrape_interval_secs,
        r.verify_timeout_secs == c.verify_timeout_secs,
        r.request_timeout_secs == c.request_timeout_secs,
        r.verify_concurrency == c.verify_concurrency,
        sources_view(r.sources@) == sources_view(c.sources@),
        r.media_manager_url == c.media_manager_url,
{
}

/// A set numeric variable written as plain decimal digits whose value fits
/// under `max`.
pub open spec fn fitting_digits(v: Option<String>, max: int) -> bool {
    v matches Some(s) && s@.len() > 0 && all_digits(s@) && digits_value(s@) <= max
}

/// The value a numeric variable is written with.
pub open spec fn written_value(v: Option<String>) -> int {
    match v {
        Some(s) => digits_value(s@),
        None => 0,
    }
}

proof fn lemma_fitting_digits_parse(v: Option<String>, max: int)
    requires
        fitting_digits(v, max),
    ensures
        numeric_override(v, max, 0) == written_value(v),
        forall|cur: int| numeric_override(v, max, cur) == written_value(v),
{
    let s = v->0;
    assert(is_digit(s@[0]));
}

/// Each variable that is set takes effect, and each that is not leaves its
/// field alone: `DB_PATH` and `HOST` replace the path and host; a number
/// written in decimal digits that fits replaces its field; the media
/// manager's address never changes.
pub proof fn lemma_overrides_take_effect(c: Config, env: EnvOverrides, r: Config)
    requires
        overridden(c, env, r),
    ensures
        env.db_path matches Some(v) ==> r.db_path == v,
        env.db_path is None ==> r.db_path == c.db_path,
        env.host matches Some(v) ==> r.host == v,
        env.host is None ==> r.host == c.host,
        fitting_digits(env.port, 65535) ==> r.port == written_value(env.port),
        env.port is None ==> r.port == c.port,
        fitting_digits(env.scrape_interval_secs, u64::MAX as int) ==> r.scrape_interval_secs
            == written_value(env.scrape_interval_secs),
        env.scrape_interval_secs is None ==> r.scrape_interval_secs == c.scrape_interval_secs,
        fitting_digits(env.verify_timeout_secs, u64::MAX as int) ==> r.verify_timeout_secs
            == written_value(env.verify_timeout_secs),
        env.verify_timeout_secs is None ==> r.verify_timeout_secs == c.verify_timeout_secs,
        fitting_digits(env.request_timeout_secs, u64::MAX as int) ==> r.request_timeout_secs
            == written_value(env.request_timeout_secs),
        env.request_timeout_secs is None ==> r.request_timeout_secs == c.request_timeout_secs,
        fitting_digits(env.verify_concurrency, usize::MAX as int) ==> r.verify_concurrency
            == written_value(env.verify_concurrency),
        env.verify_concurrency is None ==> r.verify_concurrency == c.verify_concurrency,
        r.media_manager_url == c.media_manager_url,
{
    if fitting_digits(env.port, 65535) {
        lemma_fitting_digits_parse(env.port, 65535);
    }
    if fitting_digits(env.scrape_interval_secs, u64::MAX as int) {
        lemma_fitting_digits_parse(env.scrape_interval_secs, u64::MAX as int);
    }
    if fitting_digits(env.verify_timeout_secs, u64::MAX as int) {
        lemma_fitting_digits_parse(env.verify_timeout_secs, u64::MAX as int);
    }
    if fitting_digits(env.request_timeout_secs, u64::MAX as int) {
        lemma_fitting_digits_parse(env.request_timeout_secs, u64::MAX as int);
    }
    if fitting_digits(env.verify_concurrency, usize::MAX as int) {
        lemma_fitting_digits_parse(env.verify_concurrency, usize::MAX as int);
    }
}

/// Applies the environment overrides to a configuration.
pub fn apply_env_overrides(config: Config, env: EnvOverrides) -> (r: Config)
    ensures
        overridden(config, env, r),
        env.db_path matches Some(v) ==> r.db_path == v,
        env.db_path is None ==> r.db_path == config.db_path,
        env.host matches Some(v) ==> r.host == v,
        env.host is None ==> r.host == config.host,
        fitting_digits(env.port, 65535) ==> r.port == written_value(env.port),
        fitting_digits(env.scrape_interval_secs, u64::MAX as int) ==> r.scrape_interval_secs
            == written_value(env.scrape_interval_secs),
        fitting_digits(env.verify_timeout_secs, u64::MAX as int) ==> r.verify_timeout_secs
            == written_value(env.verify_timeout_secs),
        fitting_digits(env.request_timeout_secs, u64::MAX as int) ==> r.request_timeout_secs
            == written_value(env.request_timeout_secs),
        fitting_digits(env.verify_concurrency, usize::MAX as int) ==> r.verify_concurrency
            == written_value(env.verify_concurrency),
{
    let ghost c0 = config;
    let ghost e0 = env;
    let mut config = config;
    let EnvOverrides {
        db_path,
        host,
        port,
        scrape_interval_secs,
        verify_timeout_secs,
        request_timeout_secs,
        verify_concurrency,
        initial_sources,
    } = env;
    if let Some(v) = db_path {
        config.db_path = v;
    }
    if let Some(v) = host {
        config.host = v;
    }
    if let Some(v) = port {
        let cs = chars_of(v.as_str());
        if let Some(p) = parse_u16(&cs) {
            config.port = p;
        }
    }
    if let Some(v) = scrape_interval_secs {
        let cs = chars_of(v.as_str());
        if let Some(n) = parse_u64(&cs) {
            config.scrape_interval_secs = n;
        }
    }
    if let Some(v) = verify_timeout_secs {
        let cs = chars_of(v.as_str());
        if let Some(n) = parse_u64(&cs) {
            config.verify_timeout_secs = n;
        }
    }
    if let Some(v) = request_timeout_secs {
        let cs = chars_of(v.as_str());
        if let Some(n) = parse_u64(&cs) {
            config.request_timeout_secs = n;
        }
    }
    if let Some(v) = verify_concurrency {
        let cs = chars_of(v.as_str());
        if let Some(n) = parse_usize(&cs) {
            config.verify_concurrency = n;
        }
    }
    if let Some(raw) = initial_sources {
        let parsed = Config::parse_legacy_sources(raw.as_str());
        if parsed.len() > 0 {
            config.sources = parsed;
        }
    }
    proof {
        lemma_overrides_take_effect(c0, e0, config);
    }
    config
}

} // verus!
