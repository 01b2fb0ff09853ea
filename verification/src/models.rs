//! Data records shared by the library: playlist entries, stored play items,
//! channels, playlist sources, pull tasks, statistics and API envelopes.
//!
//! Timestamps are held as whole seconds since the Unix epoch (UTC).
use vstd::prelude::*;

verus! {

/// A playlist entry as scraped from an M3U/M3U8 source.
pub struct RawPlayItem {
    pub channel_name: String,
    pub url: String,
    pub source: String,
    pub category: Option<String>,
    pub resolution: Option<String>,
}

/// The mathematical value of a [`RawPlayItem`].
pub struct RawPlayItemView {
    pub channel_name: Seq<char>,
    pub url: Seq<char>,
    pub source: Seq<char>,
    pub category: Option<Seq<char>>,
    pub resolution: Option<Seq<char>>,
}

impl View for RawPlayItem {
    type V = RawPlayItemView;

    open spec fn view(&self) -> RawPlayItemView {
        RawPlayItemView {
            channel_name: self.channel_name@,
            url: self.url@,
            source: self.source@,
            category: self.category.deep_view(),
            resolution: self.resolution.deep_view(),
        }
    }
}

/// The views of a sequence of entries.
pub open spec fn raw_items_view(v: Seq<RawPlayItem>) -> Seq<RawPlayItemView> {
    v.map_values(|i: RawPlayItem| i@)
}

/// A stored play address with its validation state.
pub struct PlayItem {
    pub id: i64,
    pub channel_name: String,
    pub url: String,
    pub source: String,
    pub category: Option<String>,
    pub is_valid: bool,
    pub fail_count: i32,
    pub last_checked: Option<i64>,
    pub resolution: Option<String>,
    pub bitrate: Option<i64>,
    pub created_at: i64,
    pub updated_at: i64,
}

/// A channel: a name offered by one source.
pub struct Channel {
    pub id: i64,
    pub name: String,
    pub source: String,
    pub category: Option<String>,
    pub logo_url: Option<String>,
    pub created_at: i64,
    pub updated_at: i64,
}

/// A registered M3U/M3U8 playlist source.
pub struct PlaylistSource {
    pub id: i64,
    /// Name of the source, for people.
    pub name: String,
    /// URL of the M3U/M3U8 playlist.
    pub url: String,
    /// Category label of the source.
    pub category: Option<String>,
    /// Whether the source is fetched.
    pub enabled: bool,
    /// Number of entries of the last fetch.
    pub last_count: Option<i32>,
    /// Status of the last fetch: `ok` or `error`.
    pub last_status: Option<String>,
    /// Time of the last fetch.
    pub last_fetch_at: Option<i64>,
    pub created_at: i64,
    pub updated_at: i64,
}

/// Body of a request that registers a playlist source.
pub struct CreateSourceRequest {
    pub name: String,
    pub url: String,
    pub category: Option<String>,
}

/// One page of a listing.
pub struct PageResponse<T> {
    pub total: i64,
    pub page_num: i32,
    pub page_size: i32,
    pub items: Vec<T>,
}

/// Totals of one source.
pub struct SourceStats {
    pub name: String,
    pub total: i64,
    pub valid: i64,
}

/// Overall statistics.
pub struct Stats {
    pub total_channels: i64,
    pub total_play_items: i64,
    pub valid_play_items: i64,
    pub invalid_play_items: i64,
    pub total_sources: i64,
    pub active_sources: i64,
    pub sources: Vec<SourceStats>,
}

impl Stats {
    /// Statistics from the counted totals; the invalid count is what is not valid.
    pub fn from_counts(
        total_channels: i64,
        total_play_items: i64,
        valid_play_items: i64,
        total_sources: i64,
        active_sources: i64,
        sources: Vec<SourceStats>,
    ) -> (r: Stats)
        requires
            i64::MIN <= total_play_items - valid_play_items <= i64::MAX,
        ensures
            r.total_channels == total_channels,
            r.total_play_items == total_play_items,
            r.valid_play_items == valid_play_items,
            r.invalid_play_items == total_play_items - valid_play_items,
            r.total_sources == total_sources,
            r.active_sources == active_sources,
            r.sources == sources,
    {
        Stats {
            total_channels,
            total_play_items,
            valid_play_items,
            invalid_play_items: total_play_items - valid_play_items,
            total_sources,
            active_sources,
            sources,
        }
    }
}

/// A pull-and-snapshot validation task of the media server.
pub struct PullTask {
    pub id: i64,
    pub channel_name: Option<String>,
    pub play_item_id: Option<i64>,
    pub url: String,
    pub stream_id: String,
    pub protocol: String,
    pub status: String,
    pub error_message: Option<String>,
    pub snapshot_id: Option<String>,
    pub snapshot_status: Option<String>,
    pub retry_count: i32,
    pub created_at: i64,
    pub updated_at: i64,
    pub started_at: Option<i64>,
    pub completed_at: Option<i64>,
}

/// Request to create a pull task.
pub struct CreatePullTaskRequest {
    pub url: String,
    pub stream_id: String,
    pub protocol: Option<String>,
    pub channel_name: Option<String>,
    pub play_item_id: Option<i64>,
}

/// Listing of pull tasks with the number currently running.
pub struct PullTaskListResponse {
    pub total: i64,
    pub running: i64,
    pub items: Vec<PullTask>,
}

/// The envelope of every API answer: `code` 0 and `ok` on success.
pub struct ApiResponse<T> {
    pub code: i32,
    pub message: String,
    pub data: Option<T>,
}

impl<T> ApiResponse<T> {
    pub fn success(data: T) -> (r: Self)
        ensures
            r.code == 0,
            r.message@ == "ok"@,
            r.data == Some(data),
    {
        ApiResponse { code: 0, message: "ok".to_string(), data: Some(data) }
    }

    pub fn error(code: i32, message: String) -> (r: Self)
        ensures
            r.code == code,
            r.message == message,
            r.data is None,
    {
        ApiResponse { code, message, data: None }
    }
}

/// `Option<String>::clone`.
pub fn clone_opt_string(o: &Option<String>) -> (r: Option<String>)
    ensures
        r == *o,
{
    match o {
        Some(s) => Some(s.clone()),
        None => None,
    }
}

} // verus!
