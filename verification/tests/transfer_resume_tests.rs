use deploy_sync::transfer_resume::get_sessions_path;
use deploy_sync::transfer_resume::plan_resume;
use deploy_sync::transfer_resume::FileTransferState;
use deploy_sync::transfer_resume::ResumePlan;
use deploy_sync::transfer_resume::TransferSession;
use deploy_sync::transfer_resume::TransferSessionStore;
use deploy_sync::transfer_resume::TransferStatus;

fn session(id: &str, project: &str, started: &str) -> TransferSession {
    TransferSession::with_id(project, id.to_string(), started.to_string())
}

#[test]
fn added_file_is_pending() {
    let mut s = TransferSession::new("proj");
    assert_eq!(s.project_id, "proj");
    assert!(!s.completed);
    assert_eq!(s.id.len(), 36);
    s.add_file("a/b.txt", "/local/a/b.txt", "/remote/a/b.txt", 1000);
    let f = s.files.get("a/b.txt").unwrap();
    assert_eq!(f.path, "a/b.txt");
    assert_eq!(f.local_path, "/local/a/b.txt");
    assert_eq!(f.remote_path, "/remote/a/b.txt");
    assert_eq!(f.total_size, 1000);
    assert_eq!(f.transferred_bytes, 0);
    assert_eq!(f.checksum, None);
    assert_eq!(f.status, TransferStatus::Pending);
    assert_eq!(f.started_at, f.updated_at);
    assert_eq!(s.files.len(), 1);
}

#[test]
fn progress_moves_to_in_progress() {
    let mut s = session("s1", "proj", "2024-01-01T00:00:00Z");
    s.add_file("a", "la", "ra", 1000);
    assert!(s.update_progress("a", 400));
    let f = s.files.get("a").unwrap();
    assert_eq!(f.transferred_bytes, 400);
    assert_eq!(f.status, TransferStatus::InProgress);
    assert_eq!(f.total_size, 1000);
    assert_eq!(f.local_path, "la");
    assert!(s.update_progress("a", 1000));
    assert_eq!(s.files.get("a").unwrap().transferred_bytes, 1000);
}

#[test]
fn progress_beyond_size_or_after_completion_is_refused() {
    let mut s = session("s1", "proj", "2024-01-01T00:00:00Z");
    s.add_file("a", "la", "ra", 1000);
    assert!(!s.update_progress("a", 1001));
    assert_eq!(s.files.get("a").unwrap().transferred_bytes, 0);
    assert_eq!(s.files.get("a").unwrap().status, TransferStatus::Pending);
    assert!(!s.update_progress("missing", 1));
    assert!(s.mark_completed("a"));
    assert!(!s.update_progress("a", 10));
    assert!(!s.mark_failed("a"));
    let f = s.files.get("a").unwrap();
    assert_eq!(f.status, TransferStatus::Completed);
    assert_eq!(f.transferred_bytes, 1000);
    assert!(!s.mark_completed("missing"));
    assert!(!s.mark_failed("missing"));
}

#[test]
fn failed_file_keeps_its_offset_and_can_be_retried() {
    let mut s = session("s1", "proj", "2024-01-01T00:00:00Z");
    s.add_file("a", "la", "ra", 1000);
    s.update_progress("a", 300);
    assert!(s.mark_failed("a"));
    let f = s.files.get("a").unwrap();
    assert_eq!(f.status, TransferStatus::Failed);
    assert_eq!(f.transferred_bytes, 300);
    assert!(s.update_progress("a", 500));
    assert_eq!(s.files.get("a").unwrap().status, TransferStatus::InProgress);
}

#[test]
fn resumable_and_pending_files() {
    let mut s = session("s1", "proj", "2024-01-01T00:00:00Z");
    s.add_file("pending", "l", "r", 100);
    s.add_file("started", "l", "r", 100);
    s.add_file("at-zero", "l", "r", 100);
    s.add_file("whole", "l", "r", 100);
    s.add_file("failed", "l", "r", 100);
    s.add_file("failed-early", "l", "r", 100);
    s.add_file("done", "l", "r", 100);
    s.update_progress("started", 40);
    s.update_progress("at-zero", 0);
    s.update_progress("whole", 100);
    s.update_progress("failed", 10);
    s.mark_failed("failed");
    s.mark_failed("failed-early");
    s.mark_completed("done");
    let resumable: Vec<String> = s.get_resumable_files().iter().map(|f| f.path.clone()).collect();
    assert_eq!(resumable, vec!["started".to_string(), "failed".to_string()]);
    let pending: Vec<String> = s.get_pending_files().iter().map(|f| f.path.clone()).collect();
    assert_eq!(
        pending,
        vec!["pending".to_string(), "failed".to_string(), "failed-early".to_string()]
    );
    assert!(!s.is_complete());
}

#[test]
fn session_is_complete_when_all_files_are() {
    let mut s = session("s1", "proj", "2024-01-01T00:00:00Z");
    assert!(s.is_complete());
    s.add_file("a", "l", "r", 1);
    s.add_file("b", "l", "r", 0);
    assert!(!s.is_complete());
    s.mark_completed("a");
    assert!(!s.is_complete());
    s.mark_completed("b");
    assert!(s.is_complete());
}

#[test]
fn resume_continues_when_remote_agrees_and_restarts_otherwise() {
    assert_eq!(plan_resume(4096, 4096), ResumePlan::Append { offset: 4096 });
    assert_eq!(plan_resume(4096, 0), ResumePlan::Restart);
    assert_eq!(plan_resume(4096, 5000), ResumePlan::Restart);
    assert_eq!(plan_resume(0, 0), ResumePlan::Restart);
    assert_eq!(plan_resume(4096, 4096).start_offset(), 4096);
    assert_eq!(plan_resume(4096, 0).start_offset(), 0);

    let mut s = session("s1", "proj", "2024-01-01T00:00:00Z");
    s.add_file("big", "l", "r", 1048576);
    s.update_progress("big", 4096);
    let plan = s.begin_resume("big", 4096).unwrap();
    assert_eq!(plan, ResumePlan::Append { offset: 4096 });
    assert_eq!(s.files.get("big").unwrap().transferred_bytes, 4096);
    assert_eq!(s.files.get("big").unwrap().status, TransferStatus::InProgress);

    let plan = s.begin_resume("big", 0).unwrap();
    assert_eq!(plan, ResumePlan::Restart);
    assert_eq!(s.files.get("big").unwrap().transferred_bytes, 0);
    assert!(s.mark_completed("big"));
    let f = s.files.get("big").unwrap();
    assert_eq!(f.transferred_bytes, f.total_size);
    assert_eq!(f.transferred_bytes, 1048576);
    assert!(s.begin_resume("big", 1048576).is_none());
    assert!(s.begin_resume("missing", 0).is_none());
}

#[test]
fn store_finds_the_open_session_that_started_last() {
    let mut store = TransferSessionStore::new();
    assert!(store.get_session("proj").is_none());
    store.insert_session(session("s1", "proj", "2024-01-01T00:00:00Z"));
    store.insert_session(session("s2", "proj", "2024-03-01T00:00:00Z"));
    store.insert_session(session("s3", "proj", "2024-02-01T00:00:00Z"));
    store.insert_session(session("s4", "other", "2025-01-01T00:00:00Z"));
    assert_eq!(store.get_session("proj").unwrap().id, "s2");
    assert_eq!(store.get_session("other").unwrap().id, "s4");
    assert!(store.complete_session("s2"));
    assert_eq!(store.get_session("proj").unwrap().id, "s3");
    assert!(store.sessions.get("s2").unwrap().completed);
    assert!(!store.complete_session("nope"));
    assert!(store.get_session("unknown").is_none());
    store.get_session_mut("proj").unwrap().add_file("f", "l", "r", 9);
    assert_eq!(store.sessions.get("s3").unwrap().files.len(), 1);
    assert!(store.get_session_mut("unknown").is_none());
}

#[test]
fn created_session_is_open_and_empty() {
    let mut store = TransferSessionStore::default();
    let id = store.create_session("proj");
    let s = store.sessions.get(&id).unwrap();
    assert_eq!(s.id, id);
    assert_eq!(s.project_id, "proj");
    assert!(!s.completed);
    assert_eq!(s.files.len(), 0);
    assert_eq!(id.len(), 36);
    assert_eq!(id.matches('-').count(), 4);
    let other = store.create_session("proj");
    assert_ne!(id, other);
    assert_eq!(store.sessions.len(), 2);
}

#[test]
fn cleanup_removes_old_completed_sessions_only() {
    let mut store = TransferSessionStore::new();
    store.insert_session(session("old-done", "p", "2024-01-01T00:00:00Z"));
    store.insert_session(session("old-open", "p", "2024-01-01T00:00:00Z"));
    store.insert_session(session("new-done", "p", "2024-01-02T12:00:00Z"));
    store.insert_session(session("edge-done", "p", "2024-01-02T00:00:00+00:00"));
    store.insert_session(session("zone-done", "p", "2024-01-02T01:30:00+02:00"));
    store.insert_session(session("odd-done", "p", "yesterday"));
    store.complete_session("old-done");
    store.complete_session("new-done");
    store.complete_session("edge-done");
    store.complete_session("zone-done");
    store.complete_session("odd-done");
    // 2024-01-03T00:00:00Z
    let now: (i64, u32) = (1704240000, 0);
    store.cleanup_sessions_before(now, 24);
    let mut left: Vec<String> = Vec::new();
    let mut i = 0;
    while i < store.sessions.len() {
        left.push(store.sessions.key_at(i).clone());
        i += 1;
    }
    assert_eq!(
        left,
        vec!["old-open".to_string(), "new-done".to_string(), "odd-done".to_string()]
    );
    let mut just_before = TransferSessionStore::new();
    just_before.insert_session(session("edge", "p", "2024-01-02T00:00:00Z"));
    just_before.complete_session("edge");
    just_before.cleanup_sessions_before((1704239999, 999_999_999), 24);
    assert_eq!(just_before.sessions.len(), 1);
}

#[test]
fn cleanup_by_the_clock_keeps_open_sessions() {
    let mut store = TransferSessionStore::new();
    store.insert_session(session("open", "p", "2000-01-01T00:00:00Z"));
    store.insert_session(session("done", "p", "2000-01-01T00:00:00Z"));
    store.complete_session("done");
    store.cleanup_old_sessions(24);
    assert_eq!(store.sessions.len(), 1);
    assert!(store.sessions.contains_key("open"));
}

#[test]
fn sessions_are_kept_in_one_file() {
    assert_eq!(get_sessions_path("/data/app"), "/data/app/transfer_sessions.json");
}

#[test]
fn any_partly_sent_file_that_is_not_completed_is_resumable() {
    let state = |status: TransferStatus, sent: u64| FileTransferState {
        path: "f".to_string(),
        local_path: "l".to_string(),
        remote_path: "r".to_string(),
        total_size: 1048576,
        transferred_bytes: sent,
        checksum: None,
        started_at: String::new(),
        updated_at: String::new(),
        status,
    };
    assert!(state(TransferStatus::InProgress, 4096).is_resumable());
    assert!(state(TransferStatus::Paused, 4096).is_resumable());
    assert!(state(TransferStatus::Failed, 4096).is_resumable());
    assert!(state(TransferStatus::Pending, 4096).is_resumable());
    assert!(!state(TransferStatus::InProgress, 0).is_resumable());
    assert!(!state(TransferStatus::InProgress, 1048576).is_resumable());
    assert!(!state(TransferStatus::Completed, 1048576).is_resumable());
    assert!(state(TransferStatus::Pending, 0).is_pending());
    assert!(state(TransferStatus::Failed, 7).is_pending());
    assert!(!state(TransferStatus::Paused, 7).is_pending());
}
