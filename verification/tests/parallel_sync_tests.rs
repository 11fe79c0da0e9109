use deploy_sync::delta_sync::DeltaStatus;
use deploy_sync::delta_sync::FileDelta;
use deploy_sync::delta_sync::SavingsRatio;
use deploy_sync::parallel_sync::connection_count;
use deploy_sync::parallel_sync::deltas_to_upload;
use deploy_sync::parallel_sync::file_percent;
use deploy_sync::parallel_sync::final_event;
use deploy_sync::parallel_sync::files_to_upload;
use deploy_sync::parallel_sync::reports_chunk_progress;
use deploy_sync::parallel_sync::CancelFlags;
use deploy_sync::parallel_sync::CreatedDirs;
use deploy_sync::parallel_sync::DiffStatus;
use deploy_sync::parallel_sync::EventKind;
use deploy_sync::parallel_sync::FileDiff;
use deploy_sync::parallel_sync::ParallelProgressTracker;
use deploy_sync::parallel_sync::SyncError;
use deploy_sync::parallel_sync::TransferRun;
use deploy_sync::parallel_sync::DEFAULT_PARALLEL_CONNECTIONS;
use deploy_sync::parallel_sync::MAX_PARALLEL_CONNECTIONS;
use deploy_sync::paths::is_hidden_path;
use deploy_sync::paths::join_path;
use deploy_sync::paths::parent_directories;
use deploy_sync::remote_diff::diff_by_size;
use deploy_sync::strmap::StrMap;

fn diff(path: &str, status: DiffStatus, local: Option<u64>) -> FileDiff {
    FileDiff { path: path.to_string(), status, local_size: local, remote_size: None }
}

#[test]
fn connections_are_bounded_by_request_files_and_cap() {
    assert_eq!(DEFAULT_PARALLEL_CONNECTIONS, 4);
    assert_eq!(MAX_PARALLEL_CONNECTIONS, 8);
    assert_eq!(connection_count(4, 10), 4);
    assert_eq!(connection_count(4, 2), 2);
    assert_eq!(connection_count(20, 100), 8);
    assert_eq!(connection_count(8, 8), 8);
    assert_eq!(connection_count(0, 5), 0);
    assert_eq!(connection_count(5, 0), 0);
}

#[test]
fn only_added_and_modified_files_are_uploaded() {
    let diffs = vec![
        diff("a.txt", DiffStatus::Added, Some(10)),
        diff("b.txt", DiffStatus::Unchanged, Some(20)),
        diff("c/d.txt", DiffStatus::Modified, None),
        diff("e.txt", DiffStatus::Deleted, None),
    ];
    let tasks = files_to_upload("/local", "/var/www", &diffs);
    assert_eq!(tasks.len(), 2);
    assert_eq!(tasks[0].path, "a.txt");
    assert_eq!(tasks[0].local_file, "/local/a.txt");
    assert_eq!(tasks[0].remote_file, "/var/www/a.txt");
    assert_eq!(tasks[0].file_size, 10);
    assert_eq!(tasks[1].path, "c/d.txt");
    assert_eq!(tasks[1].remote_file, "/var/www/c/d.txt");
    assert_eq!(tasks[1].file_size, 0);
}

#[test]
fn new_small_and_modified_deltas_are_uploaded() {
    let mk = |path: &str, status: DeltaStatus, total: u64| FileDelta {
        path: path.to_string(),
        status,
        total_size: total,
        transfer_size: 0,
        changed_chunks: vec![],
        savings: SavingsRatio { saved: 0, out_of: 1 },
    };
    let deltas = vec![
        mk("n", DeltaStatus::New, 1),
        mk("u", DeltaStatus::Unchanged, 2),
        mk("m", DeltaStatus::Modified, 3),
        mk("s", DeltaStatus::SmallFile, 4),
        mk("d", DeltaStatus::Deleted, 0),
    ];
    let tasks = deltas_to_upload("l", "r", &deltas);
    let paths: Vec<String> = tasks.iter().map(|t| t.path.clone()).collect();
    assert_eq!(paths, vec!["n".to_string(), "m".to_string(), "s".to_string()]);
    assert_eq!(tasks[1].file_size, 3);
    assert_eq!(tasks[1].local_file, "l/m");
}

#[test]
fn progress_is_linear_in_completed_files() {
    let mut t = ParallelProgressTracker::new("p".to_string(), 10, 20, 70);
    assert_eq!(t.calculate_progress(0), 20);
    assert_eq!(t.calculate_progress(1), 27);
    assert_eq!(t.calculate_progress(3), 41);
    assert_eq!(t.calculate_progress(10), 90);
    let start = t.emit_file_start("a.txt", 500);
    assert_eq!(start.event, EventKind::FileStart);
    assert_eq!(start.progress, 20);
    assert_eq!(start.file_progress, Some(0));
    assert_eq!(start.bytes_sent, Some(0));
    assert_eq!(start.bytes_total, Some(500));
    assert_eq!(start.file, Some("a.txt".to_string()));
    assert_eq!(start.project_id, "p");
    let done = t.emit_file_complete("a.txt", 500);
    assert_eq!(done.event, EventKind::FileComplete);
    assert_eq!(done.progress, 27);
    assert_eq!(done.file_progress, Some(100));
    assert_eq!(done.bytes_sent, Some(500));
    assert_eq!(t.get_completed(), 1);
    let part = t.emit_file_progress("b.txt", 65536, 262144);
    assert_eq!(part.event, EventKind::FileProgress);
    assert_eq!(part.progress, 27);
    assert_eq!(part.file_progress, Some(25));
    let empty = ParallelProgressTracker::new("p".to_string(), 0, 20, 70);
    assert_eq!(empty.calculate_progress(0), 90);
}

#[test]
fn errors_are_recorded_and_three_stop_the_wave() {
    let mut t = ParallelProgressTracker::new("p".to_string(), 5, 20, 70);
    assert!(!t.should_stop());
    let e = t.emit_file_error("a.txt", "boom", 9);
    assert_eq!(e.event, EventKind::FileError);
    assert_eq!(e.message, Some("boom".to_string()));
    assert_eq!(e.bytes_sent, None);
    assert_eq!(e.bytes_total, Some(9));
    assert_eq!(e.file_progress, Some(0));
    assert_eq!(e.progress, 20);
    t.emit_file_error("b.txt", "bang", 9);
    assert!(!t.should_stop());
    t.emit_file_error("c.txt", "crash", 9);
    assert!(t.should_stop());
    assert_eq!(t.get_failed(), 3);
    assert_eq!(
        t.get_errors(),
        vec!["a.txt: boom".to_string(), "b.txt: bang".to_string(), "c.txt: crash".to_string()]
    );
}

#[test]
fn file_percent_rounds_down() {
    assert_eq!(file_percent(0, 10), 0);
    assert_eq!(file_percent(1, 3), 33);
    assert_eq!(file_percent(2, 3), 66);
    assert_eq!(file_percent(10, 10), 100);
    assert_eq!(file_percent(5, 0), 100);
    assert_eq!(file_percent(u64::MAX, 1), u32::MAX);
    assert!(reports_chunk_progress(65537));
    assert!(!reports_chunk_progress(65536));
}

#[test]
fn never_more_uploads_under_way_than_connections() {
    let mut run = TransferRun::new("p".to_string(), 10, 4, 20, 70);
    assert_eq!(run.limit, 4);
    let mut handed: Vec<usize> = Vec::new();
    let mut most = 0;
    let mut done = 0;
    while done < 10 {
        while let Some(i) = run.next_task(false) {
            handed.push(i);
            assert!(run.active <= 4);
        }
        if run.active > most {
            most = run.active;
        }
        assert!(run.complete_task("f", 1).is_some());
        done += 1;
    }
    assert_eq!(most, 4);
    assert_eq!(handed, vec![0, 1, 2, 3, 4, 5, 6, 7, 8, 9]);
    assert_eq!(run.active, 0);
    assert!(run.next_task(false).is_none());
    assert_eq!(run.tracker.get_completed(), 10);
    assert_eq!(run.tracker.current_progress, 90);
    assert!(run.outcome(false).is_ok());
    assert!(run.sequential_outcome(true).is_ok());
}

#[test]
fn cancelled_or_failing_run_starts_nothing_more() {
    let mut run = TransferRun::new("p".to_string(), 10, 4, 20, 70);
    assert_eq!(run.next_task(false), Some(0));
    assert_eq!(run.next_task(true), None);
    assert_eq!(run.active, 1);
    assert!(run.complete_task("a", 1).is_some());
    assert!(run.complete_task("a", 1).is_none());
    assert!(run.fail_task("a", "e", 1).is_none());
    assert!(matches!(run.outcome(true), Err(SyncError::Cancelled)));
    assert!(matches!(run.sequential_outcome(true), Err(SyncError::Cancelled)));

    let mut failing = TransferRun::new("p".to_string(), 10, 1, 20, 70);
    for name in ["a", "b", "c"] {
        assert!(failing.next_task(false).is_some());
        let e = failing.fail_task(name, "refused", 5).unwrap();
        assert_eq!(e.event, EventKind::FileError);
    }
    assert_eq!(failing.next_task(false), None);
    match failing.outcome(false) {
        Err(SyncError::Failed { errors }) => {
            assert_eq!(errors.len(), 3);
            assert_eq!(errors[0], "a: refused");
        }
        _ => panic!("the wave must fail"),
    }
    match failing.sequential_outcome(false) {
        Err(SyncError::Stopped { last_error }) => assert_eq!(last_error, "c: refused"),
        _ => panic!("the pass must stop"),
    }
    let mut one = TransferRun::new("p".to_string(), 2, 1, 20, 70);
    one.next_task(false);
    one.fail_task("x", "e", 1);
    one.next_task(false);
    one.complete_task("y", 1);
    assert!(matches!(one.outcome(true), Err(SyncError::Failed { .. })));
    assert!(matches!(one.sequential_outcome(false), Err(SyncError::Failed { .. })));
}

#[test]
fn parent_directories_shortest_first() {
    assert_eq!(
        parent_directories("/var/www/site/css/a.css", 0),
        vec![
            "/var".to_string(),
            "/var/www".to_string(),
            "/var/www/site".to_string(),
            "/var/www/site/css".to_string()
        ]
    );
    assert_eq!(
        parent_directories("/var/www/site/css/a.css", 8),
        vec!["/var/www/site".to_string(), "/var/www/site/css".to_string()]
    );
    assert_eq!(parent_directories("a//b/c.txt", 0), vec!["a".to_string(), "a//b".to_string()]);
    assert!(parent_directories("file.txt", 0).is_empty());
    assert!(parent_directories("", 0).is_empty());
    assert_eq!(parent_directories("d\u{e9}p/x", 0), vec!["d\u{e9}p".to_string()]);
}

#[test]
fn directories_are_created_once() {
    let mut cache = CreatedDirs::new();
    assert!(cache.claim("/r/a"));
    assert!(!cache.claim("/r/a"));
    let first = cache.missing_parents("/r/a/b/c.txt", 2);
    assert_eq!(first, vec!["/r/a/b".to_string()]);
    let second = cache.missing_parents("/r/a/b/d.txt", 2);
    assert!(second.is_empty());
    let third = cache.missing_parents("/r/x/y/z.txt", 2);
    assert_eq!(third, vec!["/r/x".to_string(), "/r/x/y".to_string()]);
    assert_eq!(cache.dirs.len(), 4);
}

#[test]
fn hidden_paths() {
    assert!(is_hidden_path(".env"));
    assert!(is_hidden_path("a/.git/config"));
    assert!(is_hidden_path("a/b/.hidden"));
    assert!(!is_hidden_path("a/b.c/d.txt"));
    assert!(!is_hidden_path("a./b"));
    assert!(!is_hidden_path(""));
    assert_eq!(join_path("a", "b"), "a/b");
}

#[test]
fn cancellation_and_failure_end_with_distinct_events() {
    assert_eq!(final_event(&Ok(())), (EventKind::Complete, 100));
    assert_eq!(final_event(&Err(SyncError::Cancelled)), (EventKind::Cancelled, 0));
    assert_eq!(
        final_event(&Err(SyncError::Failed { errors: vec!["a: e".to_string()] })),
        (EventKind::Error, 0)
    );
    assert_eq!(
        final_event(&Err(SyncError::Stopped { last_error: "a: e".to_string() })),
        (EventKind::Error, 0)
    );
}

#[test]
fn diff_by_size_is_sorted_and_complete() {
    let mut local: StrMap<u64> = StrMap::new();
    local.insert("b.txt".to_string(), 20);
    local.insert("a.txt".to_string(), 10);
    local.insert("z/new.txt".to_string(), 5);
    local.insert("same.txt".to_string(), 7);
    let mut remote: StrMap<u64> = StrMap::new();
    remote.insert("same.txt".to_string(), 7);
    remote.insert("gone.txt".to_string(), 99);
    remote.insert("b.txt".to_string(), 21);
    let diffs = diff_by_size(&local, &remote);
    let shown: Vec<(String, DiffStatus, Option<u64>, Option<u64>)> = diffs
        .iter()
        .map(|d| (d.path.clone(), d.status, d.local_size, d.remote_size))
        .collect();
    assert_eq!(
        shown,
        vec![
            ("a.txt".to_string(), DiffStatus::Added, Some(10), None),
            ("b.txt".to_string(), DiffStatus::Modified, Some(20), Some(21)),
            ("gone.txt".to_string(), DiffStatus::Deleted, None, Some(99)),
            ("same.txt".to_string(), DiffStatus::Unchanged, Some(7), Some(7)),
            ("z/new.txt".to_string(), DiffStatus::Added, Some(5), None),
        ]
    );
    let nothing: StrMap<u64> = StrMap::new();
    assert!(diff_by_size(&nothing, &nothing).is_empty());
}

#[test]
fn cancellation_is_per_project() {
    let mut flags = CancelFlags::new();
    assert!(!flags.is_cancelled("alpha"));
    flags.set_cancelled("alpha", true);
    flags.set_cancelled("alpha", true);
    assert!(flags.is_cancelled("alpha"));
    assert!(!flags.is_cancelled("beta"));
    flags.set_cancelled("beta", false);
    assert!(!flags.is_cancelled("beta"));
    flags.set_cancelled("alpha", false);
    assert!(!flags.is_cancelled("alpha"));
    assert_eq!(flags.flags.len(), 0);
}
