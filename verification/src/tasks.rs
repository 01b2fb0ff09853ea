//! Decisions of the pull-task center: creating tasks without duplicates,
//! stopping them, running one task step by step, and handling failures.
//!
//! The center itself waits, sleeps and calls the media server and the
//! database; each function here takes what came back and says what to do next.
use vstd::prelude::*;

use crate::api::task_protocol;
use crate::models::{CreatePullTaskRequest, PullTask, PullTaskListResponse};
use crate::num::{format_i64, signed_decimal};
use crate::pull::{detect_protocol, media_server_pull_path, pull_path, str_eq};
use crate::text::{append_str, append_vec, chars_of, string_of};

verus! {

/// At most this many tasks pull streams at the same time.
pub const MAX_CONCURRENT_PULL_TASKS: usize = 5;

/// Query of the task listing.
pub struct PullTaskListQuery {
    pub status: Option<String>,
    pub limit: i64,
}

/// Body of a request that creates tasks.
pub struct CreatePullTasksRequest {
    pub tasks: Vec<CreatePullTaskRequest>,
}

pub fn default_limit() -> (r: i64)
    ensures
        r == 100,
{
    100
}

/// The listing limit served: between 1 and 500.
pub fn clamp_task_limit(limit: i64) -> (r: i64)
    ensures
        limit < 1 ==> r == 1,
        limit > 500 ==> r == 500,
        1 <= limit <= 500 ==> r == limit,
{
    if limit < 1 {
        1
    } else if limit > 500 {
        500
    } else {
        limit
    }
}

/// A listing of tasks; `total` is the number listed.
pub fn task_list_response(items: Vec<PullTask>, running: i64) -> (r: PullTaskListResponse)
    ensures
        r.total == items@.len() as i64,
        r.running == running,
        r.items == items,
{
    let total = items.len() as i64;
    PullTaskListResponse { total, running, items }
}

/// The answer for a task id that does not exist.
pub fn task_not_found_message(id: i64) -> (r: String)
    ensures
        r@ == "任务不存在: "@ + signed_decimal(id as int),
{
    let mut m = chars_of("任务不存在: ");
    let digits = format_i64(id);
    append_vec(&mut m, &digits);
    string_of(&m)
}

// ---------------------------------------------------------------------------
// Creating tasks
// ---------------------------------------------------------------------------

/// An already created task that a request duplicates: same stream id, or
/// the same play item when the request names one.
pub open spec fn duplicates(task: PullTask, req: CreatePullTaskRequest) -> bool {
    task.stream_id@ == req.stream_id@ || (req.play_item_id matches Some(id) && task.play_item_id
        == Some(id))
}

/// What to do with one creation request, given the tasks created so far in
/// the batch.
pub enum CreateDecision {
    /// Refuse the whole batch with this message.
    Reject(String),
    /// Answer with the already created task at this position again.
    Reuse(usize),
    /// Create a task with this protocol.
    Insert(String),
}

/// Decides one creation request: an unsupported protocol refuses the batch;
/// a request duplicating a task of the batch reuses the first such task;
/// otherwise a task is created with the request's (or detected) protocol.
pub fn decide_create(created: &Vec<PullTask>, req: &CreatePullTaskRequest) -> (r: CreateDecision)
    ensures
        ({
            let p = task_protocol(req.protocol, req.url@);
            if pull_path(p) is None {
                r matches CreateDecision::Reject(m) && m@ == "不支持的协议: "@ + p + " (stream_id="@ + req.stream_id@ + ")"@
            } else if exists|k: int| 0 <= k < created@.len() && duplicates(#[trigger] created@[k], *req) {
                r matches CreateDecision::Reuse(k) && k < created@.len() && duplicates(created@[k as int], *req)
                    && forall|j: int| 0 <= j < k ==> !duplicates(#[trigger] created@[j], *req)
            } else {
                r matches CreateDecision::Insert(q) && q@ == p
            }
        }),
{
    let protocol: String = match &req.protocol {
        Some(p) => p.clone(),
        None => detect_protocol(req.url.as_str()).to_string(),
    };
    if media_server_pull_path(protocol.as_str()).is_none() {
        let mut m = chars_of("不支持的协议: ");
        append_str(&mut m, protocol.as_str());
        append_str(&mut m, " (stream_id=");
        append_str(&mut m, req.stream_id.as_str());
        append_str(&mut m, ")");
        return CreateDecision::Reject(string_of(&m));
    }
    assert(protocol@ == task_protocol(req.protocol, req.url@));
    let mut k: usize = 0;
    while k < created.len()
        invariant
            k <= created.len(),
            protocol@ == task_protocol(req.protocol, req.url@),
            pull_path(protocol@) is Some,
            forall|j: int| 0 <= j < k ==> !duplicates(#[trigger] created@[j], *req),
        decreases created.len() - k,
    {
        let t = &created[k];
        let same_stream = str_eq(t.stream_id.as_str(), req.stream_id.as_str());
        let same_item = match req.play_item_id {
            Some(id) => match t.play_item_id {
                Some(tid) => tid == id,
                None => false,
            },
            None => false,
        };
        if same_stream || same_item {
            assert(duplicates(created@[k as int], *req));
            return CreateDecision::Reuse(k);
        }
        k += 1;
    }
    CreateDecision::Insert(protocol)
}

// ---------------------------------------------------------------------------
// Stopping tasks
// ---------------------------------------------------------------------------

/// What stopping a task in a given status involves.
pub enum StopAction {
    /// Mark it stopped.
    MarkStopped,
    /// Delete its stream on the media server, then mark it stopped.
    DeleteStreamThenMarkStopped,
    /// The task cannot be stopped; answer with this message.
    Refuse(String),
}

/// Pending tasks are just marked stopped; pulling or snapshotting tasks
/// first have their stream deleted; tasks in any other status cannot stop.
pub fn stop_action(status: &str) -> (r: StopAction)
    ensures
        status@ == "pending"@ ==> r is MarkStopped,
        status@ == "pulling"@ || status@ == "snapshotting"@ ==> r is DeleteStreamThenMarkStopped,
        status@ != "pending"@ && status@ != "pulling"@ && status@ != "snapshotting"@ ==> (r matches StopAction::Refuse(m)
            && m@ == "任务状态 "@ + status@ + " 不可停止"@),
{
    proof {
        reveal_strlit("pending");
        reveal_strlit("pulling");
        reveal_strlit("snapshotting");
        assert("pending"@ != "pulling"@) by {
            assert("pending"@[1] != "pulling"@[1]);
        }
        assert("pending"@ != "snapshotting"@) by {
            assert("pending"@.len() != "snapshotting"@.len());
        }
    }
    if str_eq(status, "pending") {
        StopAction::MarkStopped
    } else if str_eq(status, "pulling") || str_eq(status, "snapshotting") {
        StopAction::DeleteStreamThenMarkStopped
    } else {
        let mut m = chars_of("任务状态 ");
        append_str(&mut m, status);
        append_str(&mut m, " 不可停止");
        StopAction::Refuse(string_of(&m))
    }
}

/// The reason recorded for a task a user stopped.
pub fn stop_reason() -> (r: String)
    ensures
        r@ == "用户停止"@,
{
    "用户停止".to_string()
}

// ---------------------------------------------------------------------------
// Running one task
// ---------------------------------------------------------------------------

/// What came back from the step the center last performed for a task.
pub enum PullEvent {
    /// The task was taken up.
    Started { stop_requested: bool },
    /// The media server answered the pull request (`error` is the answer's
    /// `error` text, when it has one).
    PullAnswered { success: bool, error: Option<String>, stop_requested: bool },
    /// Waiting for a keyframe ended, with one (`ready`) or on the deadline.
    KeyframeWaited { ready: bool, stop_requested: bool },
    /// The media server answered the snapshot request: `nested_id` is the
    /// answer's `snapshot.id` when that is present (`Some(None)` when it is
    /// not a text), `top_id` likewise its top-level `id`.
    SnapshotAnswered {
        success: bool,
        error: Option<String>,
        nested_id: Option<Option<String>>,
        top_id: Option<Option<String>>,
    },
    /// The snapshot finished, with the `status` text it reported, if any.
    SnapshotFinished { status: Option<String> },
}

/// What the center does next for a task.
pub enum PullAction {
    /// Ask the media server to pull the stream.
    SubmitPull,
    /// Wait for the stream's first keyframe.
    WaitForKeyframe,
    /// Mark the task `snapshotting` and ask for a snapshot.
    SubmitSnapshot,
    /// Record the snapshot id as `pending` and wait for it.
    WaitForSnapshot(String),
    /// Record the snapshot with this status, delete the stream, mark the
    /// task `completed`.
    Complete(String),
    /// The task failed with this message.
    Fail(String),
}

/// The spec of [`pull_task_step`].
pub open spec fn pull_step_spec(event: PullEvent) -> (int, Seq<char>) {
    match event {
        PullEvent::Started { stop_requested } => if stop_requested {
            (5, "任务已停止"@)
        } else {
            (0, Seq::empty())
        },
        PullEvent::PullAnswered { success, error, stop_requested } => if !success {
            (5, match error {
                Some(e) => e@,
                None => "拉流失败"@,
            })
        } else if stop_requested {
            (5, "任务已停止"@)
        } else {
            (1, Seq::empty())
        },
        PullEvent::KeyframeWaited { ready, stop_requested } => if !ready {
            (5, "等待关键帧超时"@)
        } else if stop_requested {
            (5, "任务已停止"@)
        } else {
            (2, Seq::empty())
        },
        PullEvent::SnapshotAnswered { success, error, nested_id, top_id } => if !success {
            (5, match error {
                Some(e) => e@,
                None => "提交截图失败"@,
            })
        } else {
            let id = match nested_id {
                Some(v) => v,
                None => match top_id {
                    Some(v) => v,
                    None => None,
                },
            };
            match id {
                Some(i) => (3, i@),
                None => (5, "截图返回缺少 id"@),
            }
        },
        PullEvent::SnapshotFinished { status } => (4, match status {
            Some(s) => s@,
            None => "completed"@,
        }),
    }
}

/// The number and text of an action, to compare it with [`pull_step_spec`].
pub open spec fn action_code(a: PullAction) -> (int, Seq<char>) {
    match a {
        PullAction::SubmitPull => (0, Seq::empty()),
        PullAction::WaitForKeyframe => (1, Seq::empty()),
        PullAction::SubmitSnapshot => (2, Seq::empty()),
        PullAction::WaitForSnapshot(id) => (3, id@),
        PullAction::Complete(status) => (4, status@),
        PullAction::Fail(m) => (5, m@),
    }
}

/// The next action of a task after an event: stop requests end the task
/// between steps, media-server refusals fail it with the server's error text
/// (or a default), a missed keyframe or a snapshot answer without an id
/// fails it, and a finished snapshot completes it.
pub fn pull_task_step(event: PullEvent) -> (r: PullAction)
    ensures
        action_code(r) == pull_step_spec(event),
{
    match event {
        PullEvent::Started { stop_requested } => {
            if stop_requested {
                PullAction::Fail("任务已停止".to_string())
            } else {
                PullAction::SubmitPull
            }
        },
        PullEvent::PullAnswered { success, error, stop_requested } => {
            if !success {
                PullAction::Fail(
                    match error {
                        Some(e) => e,
                        None => "拉流失败".to_string(),
                    },
                )
            } else if stop_requested {
                PullAction::Fail("任务已停止".to_string())
            } else {
                PullAction::WaitForKeyframe
            }
        },
        PullEvent::KeyframeWaited { ready, stop_requested } => {
            if !ready {
                PullAction::Fail("等待关键帧超时".to_string())
            } else if stop_requested {
                PullAction::Fail("任务已停止".to_string())
            } else {
                PullAction::SubmitSnapshot
            }
        },
        PullEvent::SnapshotAnswered { success, error, nested_id, top_id } => {
            if !success {
                return PullAction::Fail(
                    match error {
                        Some(e) => e,
                        None => "提交截图失败".to_string(),
                    },
                );
            }
            let id = match nested_id {
                Some(v) => v,
                None => match top_id {
                    Some(v) => v,
                    None => None,
                },
            };
            match id {
                Some(i) => PullAction::WaitForSnapshot(i),
                None => PullAction::Fail("截图返回缺少 id".to_string()),
            }
        },
        PullEvent::SnapshotFinished { status } => PullAction::Complete(
            match status {
                Some(s) => s,
                None => "completed".to_string(),
            },
        ),
    }
}

/// One poll while waiting for a keyframe.
pub enum KeyframePoll {
    Stopped(String),
    Ready,
    KeepWaiting,
}

/// A stop request ends the wait with an error; a keyframe ends it.
pub fn keyframe_poll(stop_requested: bool, has_keyframe: bool) -> (r: KeyframePoll)
    ensures
        stop_requested ==> (r matches KeyframePoll::Stopped(m) && m@ == "任务已停止"@),
        !stop_requested && has_keyframe ==> r is Ready,
        !stop_requested && !has_keyframe ==> r is KeepWaiting,
{
    if stop_requested {
        KeyframePoll::Stopped("任务已停止".to_string())
    } else if has_keyframe {
        KeyframePoll::Ready
    } else {
        KeyframePoll::KeepWaiting
    }
}

/// What a failed task's record becomes.
pub enum FailureAction {
    /// Mark it stopped with this reason.
    MarkStopped(String),
    /// Delete its stream and mark it failed with this message.
    DeleteStreamThenFail(String),
}

/// A task that failed because a stop was requested is recorded as stopped
/// by the user; any other failure deletes the stream and records the error.
pub fn task_failure(stop_requested: bool, error: String) -> (r: FailureAction)
    ensures
        stop_requested ==> (r matches FailureAction::MarkStopped(m) && m@ == "用户停止"@),
        !stop_requested ==> (r matches FailureAction::DeleteStreamThenFail(m) && m == error),
{
    if stop_requested {
        FailureAction::MarkStopped(stop_reason())
    } else {
        FailureAction::DeleteStreamThenFail(error)
    }
}

} // verus!
