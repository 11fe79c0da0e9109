use deploy_sync::digest::compute_hash;
use deploy_sync::version_history::backup_file_path;
use deploy_sync::version_history::compare_snapshots;
use deploy_sync::version_history::compute_file_hash;
use deploy_sync::version_history::create_snapshot;
use deploy_sync::version_history::get_backup_dir;
use deploy_sync::version_history::get_history_path;
use deploy_sync::version_history::new_snapshot_id;
use deploy_sync::version_history::restore_snapshot;
use deploy_sync::version_history::FileVersion;
use deploy_sync::version_history::ProjectVersionHistory;
use deploy_sync::version_history::SnapshotSource;
use deploy_sync::version_history::SyncSnapshot;

fn version(path: &str, hash: &str, backup: Option<&str>) -> FileVersion {
    FileVersion {
        id: format!("id-{}", path),
        path: path.to_string(),
        hash: hash.to_string(),
        size: 1,
        modified: String::new(),
        sync_id: "s".to_string(),
        backup_path: backup.map(|b| b.to_string()),
    }
}

fn snapshot(id: &str, files: Vec<FileVersion>) -> SyncSnapshot {
    SyncSnapshot {
        id: id.to_string(),
        project_id: "p".to_string(),
        timestamp: format!("2024-01-01T00:00:{}Z", id),
        files_count: files.len(),
        total_size: files.len() as u64,
        files,
        message: Some(format!("snapshot {}", id)),
    }
}

fn sorted(mut list: Vec<String>) -> Vec<String> {
    list.sort();
    list
}

#[test]
fn new_history_keeps_ten() {
    let history = ProjectVersionHistory::new("proj".to_string());
    assert_eq!(history.project_id, "proj");
    assert_eq!(history.max_snapshots, 10);
    assert!(history.snapshots.is_empty());
    assert!(history.get_latest_snapshot().is_none());
    assert!(history.list_snapshots().is_empty());
}

#[test]
fn eleventh_snapshot_evicts_the_first() {
    let mut history = ProjectVersionHistory::new("proj".to_string());
    for i in 1..=10 {
        let id = format!("{:02}", i);
        let files = vec![
            version("a.txt", "h", Some(&format!("/b/{}/a.txt", id))),
            version("b.txt", "h", None),
            version("c/d.txt", "h", Some(&format!("/b/{}/c/d.txt", id))),
        ];
        let evicted = history.add_snapshot(snapshot(&id, files));
        assert!(evicted.is_empty());
    }
    assert_eq!(history.snapshots.len(), 10);
    let evicted = history.add_snapshot(snapshot("11", vec![version("a.txt", "h", None)]));
    assert_eq!(evicted, vec!["/b/01/a.txt".to_string(), "/b/01/c/d.txt".to_string()]);
    assert_eq!(history.snapshots.len(), 10);
    assert_eq!(history.snapshots[0].id, "02");
    assert_eq!(history.get_latest_snapshot().unwrap().id, "11");
    assert!(history.get_snapshot("01").is_none());
    assert_eq!(history.get_snapshot("05").unwrap().id, "05");
}

#[test]
fn lowered_cap_evicts_several_and_zero_keeps_none() {
    let mut history = ProjectVersionHistory::new("proj".to_string());
    for i in 1..=4 {
        let id = format!("{}", i);
        history.add_snapshot(snapshot(&id, vec![version("f", "h", Some(&format!("/b/{}", id)))]));
    }
    history.max_snapshots = 2;
    let evicted = history.add_snapshot(snapshot("5", vec![]));
    assert_eq!(evicted, vec!["/b/1".to_string(), "/b/2".to_string(), "/b/3".to_string()]);
    assert_eq!(history.snapshots.len(), 2);
    assert_eq!(history.snapshots[0].id, "4");
    assert_eq!(history.snapshots[1].id, "5");
    history.max_snapshots = 0;
    let evicted = history.add_snapshot(snapshot("6", vec![version("f", "h", Some("/b/6"))]));
    assert_eq!(evicted, vec!["/b/4".to_string(), "/b/6".to_string()]);
    assert!(history.snapshots.is_empty());
}

#[test]
fn summaries_list_every_snapshot() {
    let mut history = ProjectVersionHistory::new("proj".to_string());
    history.add_snapshot(snapshot("1", vec![version("a", "h", None)]));
    history.add_snapshot(snapshot("2", vec![]));
    let list = history.list_snapshots();
    assert_eq!(list.len(), 2);
    assert_eq!(list[0].id, "1");
    assert_eq!(list[0].files_count, 1);
    assert_eq!(list[0].total_size, 1);
    assert_eq!(list[0].timestamp, "2024-01-01T00:00:1Z");
    assert_eq!(list[0].message, Some("snapshot 1".to_string()));
    assert_eq!(list[1].id, "2");
    assert_eq!(list[1].files_count, 0);
}

#[test]
fn comparison_of_two_snapshots() {
    let old = snapshot("1", vec![version("a", "h1", None), version("b", "h2", None)]);
    let new = snapshot(
        "2",
        vec![version("a", "h1", None), version("b", "h3", None), version("c", "h4", None)],
    );
    let diff = compare_snapshots(&old, &new);
    assert_eq!(diff.added, vec!["c".to_string()]);
    assert_eq!(diff.modified, vec!["b".to_string()]);
    assert_eq!(diff.unchanged, vec!["a".to_string()]);
    assert!(diff.deleted.is_empty());
    let back = compare_snapshots(&new, &old);
    assert!(back.added.is_empty());
    assert_eq!(back.modified, vec!["b".to_string()]);
    assert_eq!(back.unchanged, vec!["a".to_string()]);
    assert_eq!(back.deleted, vec!["c".to_string()]);
}

#[test]
fn comparison_takes_the_last_version_of_a_path() {
    let old = snapshot(
        "1",
        vec![version("a", "h1", None), version("a", "h2", None), version("x", "h", None)],
    );
    let new = snapshot(
        "2",
        vec![version("a", "h2", None), version("y", "h", None), version("y", "h", None)],
    );
    let diff = compare_snapshots(&old, &new);
    assert_eq!(sorted(diff.added), vec!["y".to_string()]);
    assert!(diff.modified.is_empty());
    assert_eq!(diff.unchanged, vec!["a".to_string()]);
    assert_eq!(diff.deleted, vec!["x".to_string()]);
    let same = compare_snapshots(&old, &old);
    assert_eq!(sorted(same.unchanged), vec!["a".to_string(), "x".to_string()]);
    assert!(same.added.is_empty() && same.modified.is_empty() && same.deleted.is_empty());
}

#[test]
fn snapshot_records_visible_files() {
    let files = vec![
        SnapshotSource {
            relative_path: "index.html".to_string(),
            contents: b"<html>".to_vec(),
            modified: "2024-03-03T00:00:00Z".to_string(),
            backup_copied: true,
        },
        SnapshotSource {
            relative_path: ".env".to_string(),
            contents: b"SECRET".to_vec(),
            modified: String::new(),
            backup_copied: true,
        },
        SnapshotSource {
            relative_path: "css/site.css".to_string(),
            contents: b"body{}".to_vec(),
            modified: String::new(),
            backup_copied: false,
        },
    ];
    let snap = create_snapshot("proj", "snap-1", &files, Some("/backups/proj"), Some("before"))
        .unwrap();
    assert_eq!(snap.id, "snap-1");
    assert_eq!(snap.project_id, "proj");
    assert_eq!(snap.message, Some("before".to_string()));
    assert_eq!(snap.files_count, 2);
    assert_eq!(snap.total_size, 12);
    assert_eq!(snap.files.len(), 2);
    assert_eq!(snap.files[0].path, "index.html");
    assert_eq!(snap.files[0].hash, compute_hash(b"<html>"));
    assert_eq!(snap.files[0].size, 6);
    assert_eq!(snap.files[0].modified, "2024-03-03T00:00:00Z");
    assert_eq!(snap.files[0].sync_id, "snap-1");
    assert_eq!(snap.files[0].backup_path, Some("/backups/proj/snap-1/index.html".to_string()));
    assert_eq!(snap.files[1].path, "css/site.css");
    assert_eq!(snap.files[1].backup_path, None);
    assert_ne!(snap.files[0].id, snap.files[1].id);
    assert_eq!(snap.files[0].id.len(), 36);
    assert_eq!(snap.files[1].id.matches('-').count(), 4);
    let plain = create_snapshot("proj", "snap-2", &files, None, None).unwrap();
    assert_eq!(plain.files[0].backup_path, None);
    assert_eq!(plain.message, None);
}

#[test]
fn snapshot_ids_are_fresh() {
    let a = new_snapshot_id();
    let b = new_snapshot_id();
    assert_ne!(a, b);
    assert_eq!(a.len(), 36);
    for (i, c) in a.chars().enumerate() {
        if i == 8 || i == 13 || i == 18 || i == 23 {
            assert_eq!(c, '-');
        } else {
            assert!(matches!(c, '0'..='9' | 'a'..='f'));
        }
    }
}

#[test]
fn file_hash_is_the_content_hash() {
    assert_eq!(
        compute_file_hash(b"abc"),
        "ba7816bf8f01cfea414140de5dae2223b00361a396177a9cb410ff61f20015ad"
    );
}

#[test]
fn restore_plan_skips_files_without_backup() {
    let snap = snapshot(
        "1",
        vec![
            version("a.txt", "h", Some("/b/1/a.txt")),
            version("b.txt", "h", None),
            version("c.txt", "h", Some("/b/1/c.txt")),
        ],
    );
    let all = restore_snapshot(&snap, None);
    assert_eq!(all.len(), 2);
    assert_eq!(all[0].path, "a.txt");
    assert_eq!(all[0].backup_path, "/b/1/a.txt");
    assert_eq!(all[1].path, "c.txt");
    let subset = vec!["c.txt".to_string(), "b.txt".to_string(), "zzz".to_string()];
    let some = restore_snapshot(&snap, Some(&subset));
    assert_eq!(some.len(), 1);
    assert_eq!(some[0].path, "c.txt");
    assert_eq!(some[0].backup_path, "/b/1/c.txt");
    let empty: Vec<String> = vec![];
    assert!(restore_snapshot(&snap, Some(&empty)).is_empty());
}

#[test]
fn storage_places() {
    assert_eq!(backup_file_path("/b", "snap", "x/y.txt"), "/b/snap/x/y.txt");
    assert_eq!(get_history_path("/data", "alpha"), "/data/version_history/alpha.json");
    assert_eq!(get_backup_dir("/data", "alpha"), "/data/backups/alpha");
}
