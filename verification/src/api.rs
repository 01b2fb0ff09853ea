//! Rules of the HTTP API: query parameters and paging, validation of new
//! playlist sources and the answers about them, and batch pull-validation
//! requests.
use vstd::prelude::*;

use crate::models::{CreatePullTaskRequest, CreateSourceRequest, PlaylistSource, PullTask};
use crate::pull::{detect_protocol, lowercase, media_server_pull_path, protocol_of_lowered, pull_path, str_eq};
use crate::text::{
    append_str, chars_of, contains, contains_str, starts_with, starts_with_str, string_of, trim,
    trim_chars,
};

verus! {

// ---------------------------------------------------------------------------
// Queries and paging
// ---------------------------------------------------------------------------

/// Query of the channel listing.
pub struct ChannelQuery {
    pub keyword: Option<String>,
    pub source: Option<String>,
    pub page_num: i32,
    pub page_size: i32,
}

/// Query of the play-address listing.
pub struct PlayItemQuery {
    pub channel: Option<String>,
    pub source: Option<String>,
    pub is_valid: Option<bool>,
    pub keyword: Option<String>,
    pub page_num: i32,
    pub page_size: i32,
}

pub fn default_page_num() -> (r: i32)
    ensures
        r == 1,
{
    1
}

pub fn default_page_size() -> (r: i32)
    ensures
        r == 50,
{
    50
}

/// The page number served: at least 1.
pub open spec fn served_page_num(n: i32) -> i32 {
    if n < 1 {
        1
    } else {
        n
    }
}

/// The page size served: between 1 and 200.
pub open spec fn served_page_size(s: i32) -> i32 {
    if s > 200 {
        200
    } else if s < 1 {
        1
    } else {
        s
    }
}

/// The page number and size actually served for the requested ones.
pub fn normalize_page(page_num: i32, page_size: i32) -> (r: (i32, i32))
    ensures
        r.0 == served_page_num(page_num),
        r.1 == served_page_size(page_size),
        1 <= r.0,
        1 <= r.1 <= 200,
{
    let n = if page_num < 1 {
        1
    } else {
        page_num
    };
    let s = if page_size > 200 {
        200
    } else if page_size < 1 {
        1
    } else {
        page_size
    };
    (n, s)
}

/// A served page is served as it is: normalizing twice is normalizing once.
pub proof fn lemma_served_page_stable(page_num: i32, page_size: i32)
    ensures
        served_page_num(served_page_num(page_num)) == served_page_num(page_num),
        served_page_size(served_page_size(page_size)) == served_page_size(page_size),
        1 <= served_page_num(page_num),
        1 <= served_page_size(page_size) <= 200,
{
}

impl ChannelQuery {
    /// The page number and size served for this query.
    pub fn page(&self) -> (r: (i32, i32))
        ensures
            r.0 == served_page_num(self.page_num),
            r.1 == served_page_size(self.page_size),
    {
        normalize_page(self.page_num, self.page_size)
    }
}

impl PlayItemQuery {
    /// The page number and size served for this query.
    pub fn page(&self) -> (r: (i32, i32))
        ensures
            r.0 == served_page_num(self.page_num),
            r.1 == served_page_size(self.page_size),
    {
        normalize_page(self.page_num, self.page_size)
    }
}

// ---------------------------------------------------------------------------
// Playlist sources
// ---------------------------------------------------------------------------

/// Body of a request that enables or disables a source.
pub struct ToggleSourceRequest {
    pub enabled: bool,
}

/// The outcome of checking a new source: its trimmed name and URL, or the
/// error code and message.  A blank name is refused first; then a URL that
/// does not begin with `http://` or `https://`.
pub open spec fn new_source_check(name: Seq<char>, url: Seq<char>) -> Result<(Seq<char>, Seq<char>), (i32, Seq<char>)> {
    if trim(name).len() == 0 {
        Err((400i32, "播源名称不能为空"@))
    } else if !starts_with(url, "http://"@) && !starts_with(url, "https://"@) {
        Err((400i32, "播源 URL 必须以 http:// 或 https:// 开头"@))
    } else {
        Ok((trim(name), trim(url)))
    }
}

pub fn validate_new_source(req: &CreateSourceRequest) -> (r: Result<(String, String), (i32, String)>)
    ensures
        match r {
            Ok((n, u)) => new_source_check(req.name@, req.url@) == Ok::<(Seq<char>, Seq<char>), (i32, Seq<char>)>((n@, u@)),
            Err((c, m)) => new_source_check(req.name@, req.url@) == Err::<(Seq<char>, Seq<char>), (i32, Seq<char>)>((c, m@)),
        },
{
    let name = chars_of(req.name.as_str());
    let tn = trim_chars(&name);
    if tn.len() == 0 {
        return Err((400, "播源名称不能为空".to_string()));
    }
    let url = chars_of(req.url.as_str());
    if !starts_with_str(&url, "http://") && !starts_with_str(&url, "https://") {
        return Err((400, "播源 URL 必须以 http:// 或 https:// 开头".to_string()));
    }
    let tu = trim_chars(&url);
    Ok((string_of(&tn), string_of(&tu)))
}

/// The answer to a failed insertion of a source: a uniqueness violation is
/// a conflict (409), anything else a server error (500).
pub fn add_source_failure(db_message: &str) -> (r: (i32, String))
    ensures
        contains(db_message@, "UNIQUE"@) ==> r.0 == 409 && r.1@ == "该播源 URL 已存在"@,
        !contains(db_message@, "UNIQUE"@) ==> r.0 == 500 && r.1@ == "添加播源失败: "@ + db_message@,
{
    let m = chars_of(db_message);
    if contains_str(&m, "UNIQUE") {
        (409, "该播源 URL 已存在".to_string())
    } else {
        let mut out = chars_of("添加播源失败: ");
        append_str(&mut out, db_message);
        (500, string_of(&out))
    }
}

/// The answer to enabling or disabling a source.
pub fn toggle_message(enabled: bool) -> (r: String)
    ensures
        enabled ==> r@ == "播源已启用"@,
        !enabled ==> r@ == "播源已禁用"@,
{
    if enabled {
        "播源已启用".to_string()
    } else {
        "播源已禁用".to_string()
    }
}

/// Which registered source an immediate fetch of `id` reads: the first with
/// that id; an unknown id is 404, a disabled source 400.
pub fn select_source_for_fetch(sources: &Vec<PlaylistSource>, id: i64) -> (r: Result<usize, (i32, String)>)
    ensures
        match r {
            Ok(k) => k < sources@.len() && sources@[k as int].id == id && sources@[k as int].enabled
                && forall|j: int| 0 <= j < k ==> sources@[j].id != id,
            Err((c, m)) => (c == 404 && m@ == "播源不存在"@ && forall|j: int|
                0 <= j < sources@.len() ==> sources@[j].id != id) || (c == 400 && m@
                == "播源已禁用，无法手动拉取"@ && exists|k: int|
                0 <= k < sources@.len() && sources@[k].id == id && !sources@[k].enabled && forall|j: int|
                    0 <= j < k ==> sources@[j].id != id),
        },
{
    let mut k: usize = 0;
    while k < sources.len()
        invariant
            k <= sources.len(),
            forall|j: int| 0 <= j < k ==> sources@[j].id != id,
        decreases sources.len() - k,
    {
        if sources[k].id == id {
            if sources[k].enabled {
                return Ok(k);
            } else {
                return Err((400, "播源已禁用，无法手动拉取".to_string()));
            }
        }
        k += 1;
    }
    Err((404, "播源不存在".to_string()))
}

/// The answer to starting an immediate fetch of a source.
pub fn fetch_started_message(source_name: &str) -> (r: String)
    ensures
        r@ == "正在后台拉取播源: "@ + source_name@,
{
    let mut out = chars_of("正在后台拉取播源: ");
    append_str(&mut out, source_name);
    string_of(&out)
}

// ---------------------------------------------------------------------------
// Batch pull validation
// ---------------------------------------------------------------------------

/// One stream to pull and snapshot.
pub struct PullValidateTask {
    pub url: String,
    pub stream_id: String,
    pub protocol: Option<String>,
    pub channel_name: Option<String>,
    pub play_item_id: Option<i64>,
}

pub struct PullValidateRequest {
    pub tasks: Vec<PullValidateTask>,
}

/// The outcome of one stream of a batch.
pub struct PullValidateResult {
    pub task_id: i64,
    pub stream_id: String,
    pub url: String,
    pub protocol: String,
    pub status: String,
    pub message: String,
}

pub struct PullValidateResponse {
    pub results: Vec<PullValidateResult>,
    pub tasks: Vec<PullTask>,
    pub total: usize,
    pub queued: usize,
    pub error: usize,
}

/// The protocol of a stream: the one given, else the one its address shows.
pub open spec fn task_protocol(protocol: Option<String>, url: Seq<char>) -> Seq<char> {
    match protocol {
        Some(p) => p@,
        None => protocol_of_lowered(lowercase(url)),
    }
}

/// A stream whose protocol the media server can pull.
pub open spec fn is_supported(t: PullValidateTask) -> bool {
    pull_path(task_protocol(t.protocol, t.url@)) is Some
}

/// The streams of a batch that can be pulled, in order.
pub open spec fn accepted_tasks(ts: Seq<PullValidateTask>) -> Seq<PullValidateTask>
    decreases ts.len(),
{
    if ts.len() == 0 {
        seq![]
    } else {
        accepted_tasks(ts.drop_last()) + if is_supported(ts.last()) {
            seq![ts.last()]
        } else {
            seq![]
        }
    }
}

/// The streams of a batch that cannot be pulled, in order.
pub open spec fn refused_tasks(ts: Seq<PullValidateTask>) -> Seq<PullValidateTask>
    decreases ts.len(),
{
    if ts.len() == 0 {
        seq![]
    } else {
        refused_tasks(ts.drop_last()) + if !is_supported(ts.last()) {
            seq![ts.last()]
        } else {
            seq![]
        }
    }
}

/// Every stream of a batch is either accepted or refused, never both.
pub proof fn lemma_batch_partition(ts: Seq<PullValidateTask>)
    ensures
        accepted_tasks(ts).len() + refused_tasks(ts).len() == ts.len(),
    decreases ts.len(),
{
    if ts.len() > 0 {
        lemma_batch_partition(ts.drop_last());
    }
}

/// The task-creation request for an accepted stream.
pub open spec fn is_request_for(req: CreatePullTaskRequest, t: PullValidateTask) -> bool {
    &&& req.url == t.url
    &&& req.stream_id == t.stream_id
    &&& req.protocol.deep_view() == Some(task_protocol(t.protocol, t.url@))
    &&& req.channel_name == t.channel_name
    &&& req.play_item_id == t.play_item_id
}

/// The refusal of a stream with an unsupported protocol.
pub open spec fn is_refusal_for(res: PullValidateResult, t: PullValidateTask) -> bool {
    &&& res.task_id == 0
    &&& res.stream_id == t.stream_id
    &&& res.url == t.url
    &&& res.protocol@ == task_protocol(t.protocol, t.url@)
    &&& res.status@ == "error"@
    &&& res.message@ == "不支持的协议: "@ + task_protocol(t.protocol, t.url@)
}

/// Splits a batch into task-creation requests for the streams that can be
/// pulled and refusals for the others, each in batch order.
pub fn plan_pull_validate(tasks: &Vec<PullValidateTask>) -> (r: (Vec<CreatePullTaskRequest>, Vec<PullValidateResult>))
    ensures
        r.0@.len() == accepted_tasks(tasks@).len(),
        forall|k: int| 0 <= k < r.0@.len() ==> is_request_for(#[trigger] r.0@[k], accepted_tasks(tasks@)[k]),
        r.1@.len() == refused_tasks(tasks@).len(),
        forall|k: int| 0 <= k < r.1@.len() ==> is_refusal_for(#[trigger] r.1@[k], refused_tasks(tasks@)[k]),
{
    let mut reqs: Vec<CreatePullTaskRequest> = Vec::new();
    let mut refusals: Vec<PullValidateResult> = Vec::new();
    let mut i: usize = 0;
    while i < tasks.len()
        invariant
            i <= tasks.len(),
            reqs@.len() == accepted_tasks(tasks@.subrange(0, i as int)).len(),
            forall|k: int| 0 <= k < reqs@.len() ==> is_request_for(#[trigger] reqs@[k], accepted_tasks(tasks@.subrange(0, i as int))[k]),
            refusals@.len() == refused_tasks(tasks@.subrange(0, i as int)).len(),
            forall|k: int| 0 <= k < refusals@.len() ==> is_refusal_for(#[trigger] refusals@[k], refused_tasks(tasks@.subrange(0, i as int))[k]),
        decreases tasks.len() - i,
    {
        let ghost pre = tasks@.subrange(0, i as int);
        let ghost next = tasks@.subrange(0, i + 1);
        assert(next.drop_last() =~= pre);
        let t = &tasks[i];
        let protocol: String = match &t.protocol {
            Some(p) => p.clone(),
            None => detect_protocol(t.url.as_str()).to_string(),
        };
        assert(protocol@ == task_protocol(t.protocol, t.url@));
        if media_server_pull_path(protocol.as_str()).is_none() {
            let mut m = chars_of("不支持的协议: ");
            append_str(&mut m, protocol.as_str());
            let res = PullValidateResult {
                task_id: 0,
                stream_id: t.stream_id.clone(),
                url: t.url.clone(),
                protocol,
                status: "error".to_string(),
                message: string_of(&m),
            };
            refusals.push(res);
        } else {
            let req = CreatePullTaskRequest {
                url: t.url.clone(),
                stream_id: t.stream_id.clone(),
                protocol: Some(protocol),
                channel_name: match &t.channel_name {
                    Some(c) => Some(c.clone()),
                    None => None,
                },
                play_item_id: t.play_item_id,
            };
            reqs.push(req);
        }
        i += 1;
    }
    assert(tasks@.subrange(0, tasks.len() as int) =~= tasks@);
    (reqs, refusals)
}

/// The result reported for a queued task.
pub open spec fn is_queued_result(res: PullValidateResult, t: PullTask) -> bool {
    &&& res.task_id == t.id
    &&& res.stream_id == t.stream_id
    &&& res.url == t.url
    &&& res.protocol == t.protocol
    &&& res.status == t.status
    &&& res.message@ == "已加入拉流验证任务队列"@
}

/// The number of results whose status is `error`.
pub open spec fn error_count(rs: Seq<PullValidateResult>) -> nat
    decreases rs.len(),
{
    if rs.len() == 0 {
        0
    } else {
        error_count(rs.drop_last()) + if rs.last().status@ == "error"@ {
            1nat
        } else {
            0
        }
    }
}

proof fn lemma_error_count_bound(rs: Seq<PullValidateResult>)
    ensures
        error_count(rs) <= rs.len(),
    decreases rs.len(),
{
    if rs.len() > 0 {
        lemma_error_count_bound(rs.drop_last());
    }
}

/// The answer to a batch: the refusals, then one result per created task;
/// `error` counts the results with status `error` and `queued` the others.
pub fn pull_validate_response(total: usize, refusals: Vec<PullValidateResult>, created: Vec<PullTask>) -> (r: PullValidateResponse)
    ensures
        r.total == total,
        r.results@.len() == refusals@.len() + created@.len(),
        forall|k: int| 0 <= k < refusals@.len() ==> #[trigger] r.results@[k] == refusals@[k],
        forall|k: int| 0 <= k < created@.len() ==> is_queued_result(#[trigger] r.results@[refusals@.len() + k], created@[k]),
        r.tasks == created,
        r.error == error_count(r.results@),
        r.queued + r.error == r.results@.len(),
{
    let ghost n0 = refusals@.len();
    let ghost ref0 = refusals@;
    let mut results = refusals;
    let mut k: usize = 0;
    while k < created.len()
        invariant
            k <= created.len(),
            results@.len() == n0 + k,
            forall|j: int| 0 <= j < n0 ==> #[trigger] results@[j] == ref0[j],
            forall|j: int| 0 <= j < k ==> is_queued_result(#[trigger] results@[n0 + j], created@[j]),
        decreases created.len() - k,
    {
        let t = &created[k];
        results.push(PullValidateResult {
            task_id: t.id,
            stream_id: t.stream_id.clone(),
            url: t.url.clone(),
            protocol: t.protocol.clone(),
            status: t.status.clone(),
            message: "已加入拉流验证任务队列".to_string(),
        });
        assert(results@[n0 + k] == results@.last());
        k += 1;
    }
    let mut error: usize = 0;
    let mut j: usize = 0;
    while j < results.len()
        invariant
            j <= results.len(),
            error == error_count(results@.subrange(0, j as int)),
            error <= j,
        decreases results.len() - j,
    {
        assert(results@.subrange(0, j + 1).drop_last() =~= results@.subrange(0, j as int));
        proof {
            lemma_error_count_bound(results@.subrange(0, j as int));
        }
        if str_eq(results[j].status.as_str(), "error") {
            error += 1;
        }
        j += 1;
    }
    assert(results@.subrange(0, results.len() as int) =~= results@);
    let queued = results.len() - error;
    PullValidateResponse { results, tasks: created, total, queued, error }
}

} // verus!
