use deploy_sync::delta_sync::analyze_delta_sync;
use deploy_sync::delta_sync::calculate_transfer_stats;
use deploy_sync::delta_sync::compute_file_delta;
use deploy_sync::delta_sync::delta_from_size;
use deploy_sync::delta_sync::extract_changed_chunks;
use deploy_sync::delta_sync::generate_file_signature;
use deploy_sync::delta_sync::generate_file_signature_at;
use deploy_sync::delta_sync::get_cache_path;
use deploy_sync::delta_sync::hash_chunks;
use deploy_sync::delta_sync::needs_contents;
use deploy_sync::delta_sync::update_cache_after_sync;
use deploy_sync::delta_sync::DeltaStatus;
use deploy_sync::delta_sync::FileDelta;
use deploy_sync::delta_sync::LocalFile;
use deploy_sync::delta_sync::SavingsRatio;
use deploy_sync::delta_sync::SignatureCache;
use deploy_sync::delta_sync::SyncedFile;
use deploy_sync::delta_sync::CHUNK_SIZE;
use deploy_sync::delta_sync::MIN_DELTA_FILE_SIZE;
use deploy_sync::digest::compute_hash;
use deploy_sync::digest::to_hex;

fn pattern(len: usize) -> Vec<u8> {
    let mut data = Vec::with_capacity(len);
    let mut i: usize = 0;
    while i < len {
        data.push(((i * 31 + i / 7) % 251) as u8);
        i += 1;
    }
    data
}

fn file(path: &str, size: u64, contents: Option<Vec<u8>>) -> LocalFile {
    LocalFile { relative_path: path.to_string(), size, contents }
}

fn stamp() -> String {
    "2024-01-01T00:00:00Z".to_string()
}

fn delta(path: &str, status: DeltaStatus, total: u64, transfer: u64) -> FileDelta {
    FileDelta {
        path: path.to_string(),
        status,
        total_size: total,
        transfer_size: transfer,
        changed_chunks: vec![],
        savings: SavingsRatio { saved: 0, out_of: 1 },
    }
}

#[test]
fn hash_of_known_inputs() {
    assert_eq!(
        compute_hash(b"abc"),
        "ba7816bf8f01cfea414140de5dae2223b00361a396177a9cb410ff61f20015ad"
    );
    assert_eq!(
        compute_hash(b""),
        "e3b0c44298fc1c149afbf4c8996fb92427ae41e4649b934ca495991b7852b855"
    );
}

#[test]
fn hex_is_lowercase_two_digits_per_byte() {
    assert_eq!(to_hex(&[0x00, 0x0a, 0x14, 0x1e, 0xff]), "000a141eff");
    assert_eq!(to_hex(&[]), "");
}

#[test]
fn constants_are_64_and_256_kib() {
    assert_eq!(CHUNK_SIZE, 64 * 1024);
    assert_eq!(MIN_DELTA_FILE_SIZE, 256 * 1024);
}

#[test]
fn signature_covers_file_end_to_end() {
    let data = pattern(150_000);
    let sig = generate_file_signature_at(&data, "dir/file.bin", stamp(), stamp());
    assert_eq!(sig.path, "dir/file.bin");
    assert_eq!(sig.total_size, 150_000);
    assert_eq!(sig.chunk_size, 65536);
    assert_eq!(sig.full_hash, compute_hash(&data));
    assert_eq!(sig.chunk_hashes.len(), 3);
    assert_eq!(sig.chunk_hashes[0].index, 0);
    assert_eq!(sig.chunk_hashes[0].offset, 0);
    assert_eq!(sig.chunk_hashes[0].size, 65536);
    assert_eq!(sig.chunk_hashes[1].offset, 65536);
    assert_eq!(sig.chunk_hashes[1].size, 65536);
    assert_eq!(sig.chunk_hashes[2].index, 2);
    assert_eq!(sig.chunk_hashes[2].offset, 131072);
    assert_eq!(sig.chunk_hashes[2].size, 150_000 - 131072);
    assert_eq!(sig.chunk_hashes[2].hash, compute_hash(&data[131072..]));
    assert_eq!(sig.modified_at, stamp());
    assert_eq!(sig.created_at, stamp());
}

#[test]
fn signature_of_empty_and_exact_chunk() {
    assert_eq!(hash_chunks(&[]).len(), 0);
    let one = pattern(65536);
    let chunks = hash_chunks(&one);
    assert_eq!(chunks.len(), 1);
    assert_eq!(chunks[0].size, 65536);
    let more = pattern(65537);
    let chunks = hash_chunks(&more);
    assert_eq!(chunks.len(), 2);
    assert_eq!(chunks[1].size, 1);
    assert_eq!(chunks[1].offset, 65536);
}

#[test]
fn file_compared_with_own_signature_is_unchanged() {
    let data = pattern(300 * 1024);
    let sig = generate_file_signature(&data, "big.bin", stamp());
    let d = compute_file_delta(&data, "big.bin", Some(&sig));
    assert_eq!(d.status, DeltaStatus::Unchanged);
    assert_eq!(d.transfer_size, 0);
    assert_eq!(d.total_size, 300 * 1024);
    assert!(d.changed_chunks.is_empty());
    assert_eq!(d.savings, SavingsRatio { saved: 1, out_of: 1 });
    assert_eq!(d.savings.percent(), 100);
}

#[test]
fn one_byte_in_chunk_three_of_one_mib() {
    let pristine = pattern(1024 * 1024);
    let sig = generate_file_signature_at(&pristine, "site.tar", stamp(), stamp());
    let mut changed = pristine.clone();
    let at = 3 * 65536 + 1234;
    changed[at] = changed[at].wrapping_add(1);
    let d = compute_file_delta(&changed, "site.tar", Some(&sig));
    assert_eq!(d.status, DeltaStatus::Modified);
    assert_eq!(d.changed_chunks, vec![3]);
    assert_eq!(d.transfer_size, 65536);
    assert_eq!(d.total_size, 1024 * 1024);
    assert_eq!(d.savings, SavingsRatio { saved: 1024 * 1024 - 65536, out_of: 1024 * 1024 });
    assert_eq!(d.savings.percent(), 93);
}

#[test]
fn small_file_is_sent_whole_whatever_the_cache_says() {
    let data = pattern(100 * 1024);
    let own = generate_file_signature_at(&data, "small.css", stamp(), stamp());
    let other = generate_file_signature_at(&pattern(5), "small.css", stamp(), stamp());
    for sig in [&own, &other] {
        let d = compute_file_delta(&data, "small.css", Some(sig));
        assert_eq!(d.status, DeltaStatus::SmallFile);
        assert_eq!(d.transfer_size, 100 * 1024);
        assert_eq!(d.savings.percent(), 0);
        assert!(d.changed_chunks.is_empty());
    }
}

#[test]
fn file_without_cached_signature_is_new() {
    for len in [0usize, 10, 100 * 1024, 300 * 1024] {
        let data = pattern(len);
        let d = compute_file_delta(&data, "n.txt", None);
        assert_eq!(d.status, DeltaStatus::New);
        assert_eq!(d.total_size, len as u64);
        assert_eq!(d.transfer_size, len as u64);
        assert_eq!(d.path, "n.txt");
    }
}

#[test]
fn grown_file_lists_new_chunks() {
    let pristine = pattern(4 * 65536);
    let sig = generate_file_signature_at(&pristine, "g.bin", stamp(), stamp());
    let mut grown = pristine.clone();
    grown.extend_from_slice(&[7u8; 100]);
    let d = compute_file_delta(&grown, "g.bin", Some(&sig));
    assert_eq!(d.status, DeltaStatus::Modified);
    assert_eq!(d.changed_chunks, vec![4]);
    assert_eq!(d.transfer_size, 100);
}

#[test]
fn shrunk_file_drops_trailing_chunks() {
    let pristine = pattern(6 * 65536);
    let sig = generate_file_signature_at(&pristine, "s.bin", stamp(), stamp());
    let shrunk = pristine[..5 * 65536].to_vec();
    let d = compute_file_delta(&shrunk, "s.bin", Some(&sig));
    assert_eq!(d.status, DeltaStatus::Modified);
    assert!(d.changed_chunks.is_empty());
    assert_eq!(d.transfer_size, 0);
    assert_eq!(d.savings.percent(), 100);
}

#[test]
fn analysis_of_new_unchanged_and_deleted() {
    let b = pattern(256 * 1024);
    let c = pattern(300 * 1024);
    let mut cache = SignatureCache::new("alpha");
    cache.update_signature(generate_file_signature(&b, "b.txt", stamp()));
    cache.update_signature(generate_file_signature(&c, "c.txt", stamp()));
    let files = vec![
        file("a.txt", 5, Some(b"hello".to_vec())),
        file("b.txt", b.len() as u64, Some(b.clone())),
        file(".git/config", 1, Some(b"x".to_vec())),
        file("sub/.hidden", 1, Some(b"x".to_vec())),
    ];
    let present = vec!["b.txt".to_string()];
    let deltas = analyze_delta_sync(&files, &cache, &present);
    assert_eq!(deltas.len(), 3);
    assert_eq!(deltas[0].path, "a.txt");
    assert_eq!(deltas[0].status, DeltaStatus::New);
    assert_eq!(deltas[1].path, "b.txt");
    assert_eq!(deltas[1].status, DeltaStatus::Unchanged);
    assert_eq!(deltas[2].path, "c.txt");
    assert_eq!(deltas[2].status, DeltaStatus::Deleted);
    assert_eq!(deltas[2].total_size, 0);
    assert_eq!(deltas[2].transfer_size, 0);
    assert_eq!(deltas[2].savings.percent(), 100);
}

#[test]
fn stats_add_up() {
    let deltas = vec![
        delta("a", DeltaStatus::New, 100, 100),
        delta("b", DeltaStatus::SmallFile, 50, 50),
        delta("c", DeltaStatus::Modified, 1000, 250),
        delta("d", DeltaStatus::Unchanged, 400, 0),
        delta("e", DeltaStatus::Deleted, 0, 0),
    ];
    let stats = calculate_transfer_stats(&deltas).unwrap();
    assert_eq!(stats.total_files, 5);
    assert_eq!(stats.new_files, 2);
    assert_eq!(stats.modified_files, 1);
    assert_eq!(stats.unchanged_files, 1);
    assert_eq!(stats.deleted_files, 1);
    assert_eq!(stats.total_size, 1550);
    assert_eq!(stats.transfer_size, 400);
    assert_eq!(stats.savings_bytes, 1150);
    assert_eq!(stats.savings, SavingsRatio { saved: 1150, out_of: 1550 });
    assert_eq!(stats.savings.percent(), 74);
}

#[test]
fn stats_of_nothing_and_of_too_much() {
    let none = calculate_transfer_stats(&vec![]).unwrap();
    assert_eq!(none.total_files, 0);
    assert_eq!(none.total_size, 0);
    assert_eq!(none.savings, SavingsRatio { saved: 0, out_of: 1 });
    let huge = vec![
        delta("a", DeltaStatus::Unchanged, u64::MAX, 0),
        delta("b", DeltaStatus::Unchanged, 1, 0),
    ];
    assert!(calculate_transfer_stats(&huge).is_none());
    let fits = vec![
        delta("a", DeltaStatus::Unchanged, u64::MAX, 0),
        delta("b", DeltaStatus::Deleted, 0, 0),
    ];
    assert_eq!(calculate_transfer_stats(&fits).unwrap().total_size, u64::MAX);
}

#[test]
fn extraction_of_listed_chunks() {
    let data = pattern(3 * 65536 + 10);
    let chunks = extract_changed_chunks(&data, &[3, 1, 9]);
    assert_eq!(chunks.len(), 2);
    assert_eq!(chunks[0].0, 1);
    assert_eq!(chunks[0].1, data[65536..131072].to_vec());
    assert_eq!(chunks[1].0, 3);
    assert_eq!(chunks[1].1, data[196608..].to_vec());
    assert!(extract_changed_chunks(&data, &[]).is_empty());
}

#[test]
fn cache_is_renewed_for_synced_paths_only() {
    let mut cache = SignatureCache::new("alpha");
    cache.update_signature(generate_file_signature(b"old a", "a.txt", stamp()));
    cache.update_signature(generate_file_signature(b"old b", "b.txt", stamp()));
    cache.update_signature(generate_file_signature(b"old c", "c.txt", stamp()));
    let synced = vec![
        SyncedFile {
            path: "a.txt".to_string(),
            contents: Some(b"new a".to_vec()),
            modified_at: "2024-02-02T00:00:00Z".to_string(),
        },
        SyncedFile { path: "b.txt".to_string(), contents: None, modified_at: String::new() },
        SyncedFile {
            path: "d.txt".to_string(),
            contents: Some(b"new d".to_vec()),
            modified_at: stamp(),
        },
    ];
    update_cache_after_sync(&mut cache, &synced);
    assert_eq!(cache.project_id, "alpha");
    assert_eq!(cache.signatures.len(), 3);
    let a = cache.get_signature("a.txt").unwrap();
    assert_eq!(a.full_hash, compute_hash(b"new a"));
    assert_eq!(a.modified_at, "2024-02-02T00:00:00Z");
    assert!(cache.get_signature("b.txt").is_none());
    assert_eq!(cache.get_signature("c.txt").unwrap().full_hash, compute_hash(b"old c"));
    assert_eq!(cache.get_signature("d.txt").unwrap().total_size, 5);
    cache.remove_signature("c.txt");
    assert!(cache.get_signature("c.txt").is_none());
}

#[test]
fn cache_path_is_under_delta_cache() {
    assert_eq!(get_cache_path("/data/app", "proj-7"), "/data/app/delta_cache/proj-7.json");
}

#[test]
fn size_decides_for_new_and_small_files() {
    let big = pattern(300 * 1024);
    let sig = generate_file_signature_at(&big, "big.bin", stamp(), stamp());
    assert!(!needs_contents(300 * 1024, None));
    assert!(!needs_contents(262143, Some(&sig)));
    assert!(needs_contents(262144, Some(&sig)));
    let new = delta_from_size("n.bin", 5_000_000, None).unwrap();
    assert_eq!(new.status, DeltaStatus::New);
    assert_eq!(new.total_size, 5_000_000);
    assert_eq!(new.transfer_size, 5_000_000);
    assert_eq!(new.path, "n.bin");
    assert_eq!(new.savings.percent(), 0);
    let small = delta_from_size("s.bin", 262143, Some(&sig)).unwrap();
    assert_eq!(small.status, DeltaStatus::SmallFile);
    assert_eq!(small.transfer_size, 262143);
    assert!(delta_from_size("big.bin", 262144, Some(&sig)).is_none());
}

#[test]
fn analysis_reads_contents_only_where_needed() {
    let big = pattern(300 * 1024);
    let mut cache = SignatureCache::new("alpha");
    cache.update_signature(generate_file_signature(&big, "big.bin", stamp()));
    cache.update_signature(generate_file_signature(b"tiny", "tiny.txt", stamp()));
    cache.update_signature(generate_file_signature(&big, "locked.bin", stamp()));
    let files = vec![
        file("fresh.iso", 9_000_000, None),
        file("tiny.txt", 4, None),
        file("locked.bin", 300 * 1024, None),
        file("big.bin", 300 * 1024, Some(big.clone())),
    ];
    let present = vec!["big.bin".to_string(), "tiny.txt".to_string(), "locked.bin".to_string()];
    let deltas = analyze_delta_sync(&files, &cache, &present);
    let shown: Vec<(String, DeltaStatus, u64)> =
        deltas.iter().map(|d| (d.path.clone(), d.status, d.total_size)).collect();
    assert_eq!(
        shown,
        vec![
            ("fresh.iso".to_string(), DeltaStatus::New, 9_000_000),
            ("tiny.txt".to_string(), DeltaStatus::SmallFile, 4),
            ("big.bin".to_string(), DeltaStatus::Unchanged, 300 * 1024),
        ]
    );
}
