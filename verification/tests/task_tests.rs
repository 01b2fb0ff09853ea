use vcp_iptv_manager::models::{CreatePullTaskRequest, PullTask};
use vcp_iptv_manager::tasks::{
    clamp_task_limit, decide_create, default_limit, keyframe_poll, pull_task_step, stop_action,
    task_failure, task_list_response, task_not_found_message, CreateDecision, FailureAction,
    KeyframePoll, PullAction, PullEvent, StopAction, MAX_CONCURRENT_PULL_TASKS,
};

fn queued_task(id: i64, stream: &str, item: Option<i64>) -> PullTask {
    PullTask {
        id,
        channel_name: None,
        play_item_id: item,
        url: "http://a/x.m3u8".to_string(),
        stream_id: stream.to_string(),
        protocol: "hls".to_string(),
        status: "pending".to_string(),
        error_message: None,
        snapshot_id: None,
        snapshot_status: None,
        retry_count: 0,
        created_at: 0,
        updated_at: 0,
        started_at: None,
        completed_at: None,
    }
}

fn request(url: &str, stream: &str, protocol: Option<&str>, item: Option<i64>) -> CreatePullTaskRequest {
    CreatePullTaskRequest {
        url: url.to_string(),
        stream_id: stream.to_string(),
        protocol: protocol.map(|p| p.to_string()),
        channel_name: None,
        play_item_id: item,
    }
}

#[test]
fn decides_task_creation() {
    let created = vec![queued_task(1, "a", None), queued_task(2, "b", Some(9))];
    match decide_create(&created, &request("udp://x", "z", None, None)) {
        CreateDecision::Reject(m) => assert_eq!(m, "不支持的协议: unknown (stream_id=z)"),
        _ => panic!("expected a refusal"),
    }
    assert!(matches!(decide_create(&created, &request("http://a/x.m3u8", "b", None, None)), CreateDecision::Reuse(1)));
    assert!(matches!(decide_create(&created, &request("http://a/x.m3u8", "new", None, Some(9))), CreateDecision::Reuse(1)));
    assert!(matches!(decide_create(&created, &request("http://a/x.m3u8", "a", None, Some(9))), CreateDecision::Reuse(0)));
    match decide_create(&created, &request("rtmp://h/live", "c", None, Some(3))) {
        CreateDecision::Insert(p) => assert_eq!(p, "rtmp"),
        _ => panic!("expected an insertion"),
    }
    match decide_create(&Vec::new(), &request("whatever", "c", Some("flv"), None)) {
        CreateDecision::Insert(p) => assert_eq!(p, "flv"),
        _ => panic!("expected an insertion"),
    }
}

#[test]
fn decides_how_to_stop() {
    assert!(matches!(stop_action("pending"), StopAction::MarkStopped));
    assert!(matches!(stop_action("pulling"), StopAction::DeleteStreamThenMarkStopped));
    assert!(matches!(stop_action("snapshotting"), StopAction::DeleteStreamThenMarkStopped));
    match stop_action("completed") {
        StopAction::Refuse(m) => assert_eq!(m, "任务状态 completed 不可停止"),
        _ => panic!("expected a refusal"),
    }
}

fn fail_text(a: PullAction) -> String {
    match a {
        PullAction::Fail(m) => m,
        _ => panic!("expected a failure"),
    }
}

#[test]
fn steps_through_a_pull_task() {
    assert!(matches!(pull_task_step(PullEvent::Started { stop_requested: false }), PullAction::SubmitPull));
    assert_eq!(fail_text(pull_task_step(PullEvent::Started { stop_requested: true })), "任务已停止");
    assert_eq!(fail_text(pull_task_step(PullEvent::PullAnswered { success: false, error: None, stop_requested: false })), "拉流失败");
    assert_eq!(fail_text(pull_task_step(PullEvent::PullAnswered { success: false, error: Some("busy".to_string()), stop_requested: true })), "busy");
    assert!(matches!(pull_task_step(PullEvent::PullAnswered { success: true, error: None, stop_requested: false }), PullAction::WaitForKeyframe));
    assert_eq!(fail_text(pull_task_step(PullEvent::KeyframeWaited { ready: false, stop_requested: false })), "等待关键帧超时");
    assert!(matches!(pull_task_step(PullEvent::KeyframeWaited { ready: true, stop_requested: false }), PullAction::SubmitSnapshot));
    assert_eq!(fail_text(pull_task_step(PullEvent::SnapshotAnswered { success: false, error: None, nested_id: None, top_id: None })), "提交截图失败");
    assert_eq!(fail_text(pull_task_step(PullEvent::SnapshotAnswered { success: true, error: None, nested_id: None, top_id: None })), "截图返回缺少 id");
    assert_eq!(fail_text(pull_task_step(PullEvent::SnapshotAnswered { success: true, error: None, nested_id: Some(None), top_id: Some(Some("t".to_string())) })), "截图返回缺少 id");
    match pull_task_step(PullEvent::SnapshotAnswered { success: true, error: None, nested_id: None, top_id: Some(Some("t".to_string())) }) {
        PullAction::WaitForSnapshot(id) => assert_eq!(id, "t"),
        _ => panic!("expected a wait"),
    }
    match pull_task_step(PullEvent::SnapshotAnswered { success: true, error: None, nested_id: Some(Some("n".to_string())), top_id: Some(Some("t".to_string())) }) {
        PullAction::WaitForSnapshot(id) => assert_eq!(id, "n"),
        _ => panic!("expected a wait"),
    }
    match pull_task_step(PullEvent::SnapshotFinished { status: None }) {
        PullAction::Complete(s) => assert_eq!(s, "completed"),
        _ => panic!("expected completion"),
    }
}

#[test]
fn handles_failures_and_listings() {
    assert!(matches!(task_failure(true, "x".to_string()), FailureAction::MarkStopped(m) if m == "用户停止"));
    assert!(matches!(task_failure(false, "boom".to_string()), FailureAction::DeleteStreamThenFail(m) if m == "boom"));
    assert!(matches!(keyframe_poll(true, true), KeyframePoll::Stopped(m) if m == "任务已停止"));
    assert!(matches!(keyframe_poll(false, true), KeyframePoll::Ready));
    assert!(matches!(keyframe_poll(false, false), KeyframePoll::KeepWaiting));
    assert_eq!(default_limit(), 100);
    assert_eq!(clamp_task_limit(0), 1);
    assert_eq!(clamp_task_limit(1000), 500);
    assert_eq!(clamp_task_limit(42), 42);
    assert_eq!(task_not_found_message(-5), "任务不存在: -5");
    assert_eq!(task_not_found_message(12), "任务不存在: 12");
    let l = task_list_response(vec![queued_task(1, "a", None)], 3);
    assert_eq!((l.total, l.running, l.items.len()), (1, 3, 1));
    assert_eq!(MAX_CONCURRENT_PULL_TASKS, 5);
}
