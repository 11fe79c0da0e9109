//! Snapshots of a tree taken before a transfer, with retention, diffing and
//! restore planning.

use crate::clock::utc_timestamp;
use crate::digest::compute_hash;
use crate::digest::spec_hash;
use crate::ident::is_id_text;
use crate::ident::random_id;
use crate::paths::is_hidden_path;
use crate::paths::join_path;
use crate::paths::spec_is_hidden_path;
use crate::paths::spec_join;
use crate::paths::with_suffix;
use crate::text::clone_opt;
use crate::text::contains_text;
use crate::text::opt_view;
use crate::text::str_eq;
use crate::text::views;
use vstd::prelude::*;
use vstd::string::StringExecFns;

verus! {

/// Version entry for a single file.
#[derive(Debug, Clone)]
pub struct FileVersion {
    pub id: String,
    pub path: String,
    pub hash: String,
    pub size: u64,
    pub modified: String,
    pub sync_id: String,
    pub backup_path: Option<String>,
}

/// All file versions of a tree at a point in time.
#[derive(Debug, Clone)]
pub struct SyncSnapshot {
    pub id: String,
    pub project_id: String,
    pub timestamp: String,
    pub files: Vec<FileVersion>,
    pub total_size: u64,
    pub files_count: usize,
    pub message: Option<String>,
}

/// The snapshots of a project, oldest first, capped at `max_snapshots`.
#[derive(Debug, Clone)]
pub struct ProjectVersionHistory {
    pub project_id: String,
    pub snapshots: Vec<SyncSnapshot>,
    pub max_snapshots: usize,
}

/// What a listing shows of a snapshot.
#[derive(Debug, Clone)]
pub struct SnapshotSummary {
    pub id: String,
    pub timestamp: String,
    pub files_count: usize,
    pub total_size: u64,
    pub message: Option<String>,
}

/// The backup copies recorded for the given files, in order.
pub open spec fn backup_paths(files: Seq<FileVersion>) -> Seq<Seq<char>>
    decreases files.len(),
{
    if files.len() == 0 {
        Seq::empty()
    } else {
        match files.last().backup_path {
            Some(p) => backup_paths(files.drop_last()).push(p@),
            None => backup_paths(files.drop_last()),
        }
    }
}

/// The backup copies recorded in the given snapshots, snapshot by snapshot.
pub open spec fn all_backup_paths(snapshots: Seq<SyncSnapshot>) -> Seq<Seq<char>>
    decreases snapshots.len(),
{
    if snapshots.len() == 0 {
        Seq::empty()
    } else {
        all_backup_paths(snapshots.drop_last()) + backup_paths(snapshots.last().files@)
    }
}

/// How many of `len` snapshots exceed the cap.
pub open spec fn excess(len: int, max: int) -> int {
    if len > max {
        len - max
    } else {
        0
    }
}

/// `summary` shows the given snapshot.
pub open spec fn is_summary_of(summary: SnapshotSummary, snapshot: SyncSnapshot) -> bool {
    &&& summary.id@ == snapshot.id@
    &&& summary.timestamp@ == snapshot.timestamp@
    &&& summary.files_count == snapshot.files_count
    &&& summary.total_size == snapshot.total_size
    &&& opt_view(summary.message) == opt_view(snapshot.message)
}

impl ProjectVersionHistory {
    /// The history keeps no more snapshots than its cap.
    pub open spec fn wf(&self) -> bool {
        self.snapshots@.len() <= self.max_snapshots
    }

    /// An empty history that keeps the last ten snapshots.
    pub fn new(project_id: String) -> (history: Self)
        ensures
            history.wf(),
            history.project_id == project_id,
            history.snapshots@.len() == 0,
            history.max_snapshots == 10,
    {
        ProjectVersionHistory { project_id, snapshots: Vec::new(), max_snapshots: 10 }
    }

    /// Appends a snapshot and evicts the oldest ones beyond the cap.
    ///
    /// Returns the backup copies of the evicted snapshots, oldest first,
    /// which the caller deletes so that backups and history do not diverge.
    pub fn add_snapshot(&mut self, snapshot: SyncSnapshot) -> (evicted: Vec<String>)
        ensures
            final(self).wf(),
            final(self).project_id == old(self).project_id,
            final(self).max_snapshots == old(self).max_snapshots,
            final(self).snapshots@ == old(self).snapshots@.push(snapshot).skip(
                excess(old(self).snapshots@.len() as int + 1, old(self).max_snapshots as int),
            ),
            views(evicted@) == all_backup_paths(
                old(self).snapshots@.push(snapshot).take(
                    excess(old(self).snapshots@.len() as int + 1, old(self).max_snapshots as int),
                ),
            ),
    {
        let ghost all = self.snapshots@.push(snapshot);
        let ghost target = excess(all.len() as int, self.max_snapshots as int);
        self.snapshots.push(snapshot);
        let mut evicted: Vec<String> = Vec::new();
        let ghost mut k: int = 0;
        proof {
            assert(all.skip(0) =~= all);
            assert(views(evicted@) =~= all_backup_paths(all.take(0)));
        }
        while self.snapshots.len() > self.max_snapshots
            invariant
                0 <= k <= target,
                target == excess(all.len() as int, self.max_snapshots as int),
                self.snapshots@ == all.skip(k),
                self.max_snapshots == old(self).max_snapshots,
                self.project_id == old(self).project_id,
                views(evicted@) == all_backup_paths(all.take(k)),
            decreases self.snapshots.len(),
        {
            let removed = self.snapshots.remove(0);
            let ghost base = views(evicted@);
            proof {
                assert(removed == all[k]);
                assert(self.snapshots@ =~= all.skip(k + 1));
                assert(all.take(k + 1).drop_last() =~= all.take(k));
                assert(all.take(k + 1).last() == all[k]);
            }
            let mut j: usize = 0;
            while j < removed.files.len()
                invariant
                    j <= removed.files.len(),
                    views(evicted@) == base + backup_paths(removed.files@.take(j as int)),
                decreases removed.files.len() - j,
            {
                proof {
                    assert(removed.files@.take(j + 1).drop_last() =~= removed.files@.take(
                        j as int,
                    ));
                    assert(removed.files@.take(j + 1).last() == removed.files@[j as int]);
                }
                match &removed.files[j].backup_path {
                    Some(p) => {
                        let ghost before = views(evicted@);
                        evicted.push(p.clone());
                        assert(views(evicted@) =~= before.push(p@));
                    },
                    None => {},
                }
                j = j + 1;
            }
            proof {
                assert(removed.files@.take(j as int) =~= removed.files@);
                k = k + 1;
            }
        }
        evicted
    }

    /// The first snapshot with the given identifier.
    pub fn get_snapshot(&self, snapshot_id: &str) -> (found: Option<&SyncSnapshot>)
        ensures
            match found {
                Some(s) => exists|i: int|
                    0 <= i < self.snapshots@.len() && *s == #[trigger] self.snapshots@[i] && s.id@
                        == snapshot_id@ && forall|j: int|
                        0 <= j < i ==> (#[trigger] self.snapshots@[j]).id@ != snapshot_id@,
                None => forall|i: int|
                    0 <= i < self.snapshots@.len() ==> (#[trigger] self.snapshots@[i]).id@
                        != snapshot_id@,
            },
    {
        let mut i: usize = 0;
        while i < self.snapshots.len()
            invariant
                i <= self.snapshots.len(),
                forall|j: int| 0 <= j < i ==> (#[trigger] self.snapshots@[j]).id@ != snapshot_id@,
            decreases self.snapshots.len() - i,
        {
            if str_eq(self.snapshots[i].id.as_str(), snapshot_id) {
                return Some(&self.snapshots[i]);
            }
            i = i + 1;
        }
        None
    }

    /// The most recent snapshot.
    pub fn get_latest_snapshot(&self) -> (latest: Option<&SyncSnapshot>)
        ensures
            match latest {
                Some(s) => self.snapshots@.len() > 0 && *s == self.snapshots@.last(),
                None => self.snapshots@.len() == 0,
            },
    {
        if self.snapshots.len() == 0 {
            None
        } else {
            Some(&self.snapshots[self.snapshots.len() - 1])
        }
    }

    /// One summary per snapshot, oldest first.
    pub fn list_snapshots(&self) -> (summaries: Vec<SnapshotSummary>)
        ensures
            summaries@.len() == self.snapshots@.len(),
            forall|i: int|
                0 <= i < summaries@.len() ==> is_summary_of(
                    #[trigger] summaries@[i],
                    self.snapshots@[i],
                ),
    {
        let mut summaries: Vec<SnapshotSummary> = Vec::new();
        let mut i: usize = 0;
        while i < self.snapshots.len()
            invariant
                i <= self.snapshots.len(),
                summaries@.len() == i,
                forall|k: int|
                    0 <= k < i ==> is_summary_of(#[trigger] summaries@[k], self.snapshots@[k]),
            decreases self.snapshots.len() - i,
        {
            let s = &self.snapshots[i];
            summaries.push(
                SnapshotSummary {
                    id: s.id.clone(),
                    timestamp: s.timestamp.clone(),
                    files_count: s.files_count,
                    total_size: s.total_size,
                    message: clone_opt(&s.message),
                },
            );
            i = i + 1;
        }
        summaries
    }
}

/// Computes the whole-file hash recorded in a snapshot.
pub fn compute_file_hash(contents: &[u8]) -> (hash: String)
    ensures
        hash@ == spec_hash(contents@),
{
    compute_hash(contents)
}

/// A fresh identifier for a snapshot that is about to be taken: random,
/// in the hyphenated form, so that it names one directory for the backups
/// of the snapshot.
pub fn new_snapshot_id() -> (id: String)
    ensures
        is_id_text(id@),
{
    random_id()
}

/// Where the backup copy of a file goes: under the backup directory, in the
/// directory of the snapshot, at the file's relative path.
pub open spec fn spec_backup_file_path(
    backup_dir: Seq<char>,
    snapshot_id: Seq<char>,
    relative: Seq<char>,
) -> Seq<char> {
    spec_join(spec_join(backup_dir, snapshot_id), relative)
}

/// Where the backup copy of a file goes.
pub fn backup_file_path(backup_dir: &str, snapshot_id: &str, relative: &str) -> (target: String)
    ensures
        target@ == spec_backup_file_path(backup_dir@, snapshot_id@, relative@),
{
    let dir = join_path(backup_dir, snapshot_id);
    join_path(dir.as_str(), relative)
}

/// A file found by walking the tree for a snapshot: its contents, its
/// modification stamp, and whether its backup copy was made.
#[derive(Debug, Clone)]
pub struct SnapshotSource {
    pub relative_path: String,
    pub contents: Vec<u8>,
    pub modified: String,
    pub backup_copied: bool,
}

/// The test for a walked file to be recorded in a snapshot.
pub open spec fn is_recorded() -> spec_fn(SnapshotSource) -> bool {
    |f: SnapshotSource| !spec_is_hidden_path(f.relative_path@)
}

/// The walked files that a snapshot records: all but the hidden ones.
pub open spec fn recorded_sources(files: Seq<SnapshotSource>) -> Seq<SnapshotSource> {
    files.filter(is_recorded())
}

/// The total size of the given sources.
pub open spec fn sources_size(files: Seq<SnapshotSource>) -> int
    decreases files.len(),
{
    if files.len() == 0 {
        0
    } else {
        sources_size(files.drop_last()) + files.last().contents@.len()
    }
}

/// `version` records `source` in the snapshot `snapshot_id`, under an
/// identifier of its own in the hyphenated form. It names a backup copy
/// only if a backup directory was given and the copy was made.
pub open spec fn is_version_of(
    version: FileVersion,
    source: SnapshotSource,
    snapshot_id: Seq<char>,
    backup_dir: Option<Seq<char>>,
) -> bool {
    &&& is_id_text(version.id@)
    &&& version.path@ == source.relative_path@
    &&& version.hash@ == spec_hash(source.contents@)
    &&& version.size == source.contents@.len()
    &&& version.modified@ == source.modified@
    &&& version.sync_id@ == snapshot_id
    &&& opt_view(version.backup_path) == match backup_dir {
        Some(dir) => if source.backup_copied {
            Some(spec_backup_file_path(dir, snapshot_id, source.relative_path@))
        } else {
            None
        },
        None => None,
    }
}

/// `snapshot` records the walked files under the given identifier.
pub open spec fn is_snapshot_of(
    snapshot: SyncSnapshot,
    project_id: Seq<char>,
    snapshot_id: Seq<char>,
    files: Seq<SnapshotSource>,
    backup_dir: Option<Seq<char>>,
    message: Option<Seq<char>>,
) -> bool {
    let recorded = recorded_sources(files);
    &&& snapshot.id@ == snapshot_id
    &&& snapshot.project_id@ == project_id
    &&& opt_view(snapshot.message) == message
    &&& snapshot.files_count == recorded.len()
    &&& snapshot.total_size == sources_size(recorded)
    &&& snapshot.files@.len() == recorded.len()
    &&& forall|i: int|
        0 <= i < recorded.len() ==> is_version_of(
            #[trigger] snapshot.files@[i],
            recorded[i],
            snapshot_id,
            backup_dir,
        )
}

proof fn lemma_recorded_sources_step(files: Seq<SnapshotSource>, i: int)
    requires
        0 <= i < files.len(),
    ensures
        recorded_sources(files.take(i + 1)) == if spec_is_hidden_path(files[i].relative_path@) {
            recorded_sources(files.take(i))
        } else {
            recorded_sources(files.take(i)).push(files[i])
        },
{
    assert(files.take(i + 1) =~= files.take(i).push(files[i]));
    files.take(i).lemma_filter_push(files[i], is_recorded());
}

fn str_opt_view(text: Option<&str>) -> (copy: Option<String>)
    ensures
        opt_view(copy) == match text {
            Some(t) => Some(t@),
            None => None,
        },
{
    match text {
        Some(t) => Some(String::from_str(t)),
        None => None,
    }
}

/// Records a walked tree as a snapshot.
///
/// Hidden files are left out. Each recorded file gets its whole-file hash,
/// its size, and the place of its backup copy if one was made. The snapshot
/// is stamped with the current time and every file version gets a fresh
/// identifier. There is no snapshot when the sizes do not add up within 64
/// bits.
pub fn create_snapshot(
    project_id: &str,
    snapshot_id: &str,
    files: &Vec<SnapshotSource>,
    backup_dir: Option<&str>,
    message: Option<&str>,
) -> (snapshot: Option<SyncSnapshot>)
    ensures
        snapshot is None <==> sources_size(recorded_sources(files@)) > u64::MAX,
        snapshot matches Some(s) ==> is_snapshot_of(
            s,
            project_id@,
            snapshot_id@,
            files@,
            match backup_dir {
                Some(d) => Some(d@),
                None => None,
            },
            match message {
                Some(m) => Some(m@),
                None => None,
            },
        ),
{
    let ghost dir_view: Option<Seq<char>> = match backup_dir {
        Some(d) => Some(d@),
        None => None,
    };
    let mut versions: Vec<FileVersion> = Vec::new();
    let mut total: u128 = 0;
    let mut i: usize = 0;
    while i < files.len()
        invariant
            i <= files.len(),
            dir_view == match backup_dir {
                Some(d) => Some(d@),
                None => None,
            },
            versions@.len() == recorded_sources(files@.take(i as int)).len(),
            versions@.len() <= i,
            total == sources_size(recorded_sources(files@.take(i as int))),
            total <= i * 0xffff_ffff_ffff_ffff,
            forall|k: int|
                0 <= k < versions@.len() ==> is_version_of(
                    #[trigger] versions@[k],
                    recorded_sources(files@.take(i as int))[k],
                    snapshot_id@,
                    dir_view,
                ),
        decreases files.len() - i,
    {
        let file = &files[i];
        proof {
            lemma_recorded_sources_step(files@, i as int);
        }
        if !is_hidden_path(file.relative_path.as_str()) {
            let ghost before = recorded_sources(files@.take(i as int));
            proof {
                assert(before.push(files@[i as int]).drop_last() =~= before);
            }
            let backup_path = match backup_dir {
                Some(dir) => if file.backup_copied {
                    Some(backup_file_path(dir, snapshot_id, file.relative_path.as_str()))
                } else {
                    None
                },
                None => None,
            };
            total = total + file.contents.len() as u128;
            versions.push(
                FileVersion {
                    id: random_id(),
                    path: file.relative_path.clone(),
                    hash: compute_hash(file.contents.as_slice()),
                    size: file.contents.len() as u64,
                    modified: file.modified.clone(),
                    sync_id: String::from_str(snapshot_id),
                    backup_path,
                },
            );
        }
        i = i + 1;
    }
    assert(files@.take(i as int) =~= files@);
    if total > 0xffff_ffff_ffff_ffff {
        return None;
    }
    Some(
        SyncSnapshot {
            id: String::from_str(snapshot_id),
            project_id: String::from_str(project_id),
            timestamp: utc_timestamp(),
            files_count: versions.len(),
            total_size: total as u64,
            files: versions,
            message: str_opt_view(message),
        },
    )
}

/// The paths that changed between two snapshots.
#[derive(Debug, Clone)]
pub struct SnapshotDiff {
    pub added: Vec<String>,
    pub modified: Vec<String>,
    pub deleted: Vec<String>,
    pub unchanged: Vec<String>,
}

/// The hash that a snapshot records for `path`: that of the last file
/// version with this path.
pub open spec fn last_hash(files: Seq<FileVersion>, path: Seq<char>) -> Option<Seq<char>>
    decreases files.len(),
{
    if files.len() == 0 {
        None
    } else if files.last().path@ == path {
        Some(files.last().hash@)
    } else {
        last_hash(files.drop_last(), path)
    }
}

/// No later file version has the path of the one at `k`.
pub open spec fn is_last_occurrence(files: Seq<FileVersion>, k: int) -> bool {
    forall|j: int| k < j < files.len() ==> (#[trigger] files[j]).path@ != files[k].path@
}

/// `path` is at one of the first `n` positions, and for the last time there.
pub open spec fn settled_below(files: Seq<FileVersion>, n: int, path: Seq<char>) -> bool {
    exists|k: int|
        0 <= k < n && k < files.len() && (#[trigger] files[k]).path@ == path && is_last_occurrence(
            files,
            k,
        )
}

/// In the new snapshot only.
pub open spec fn is_added(old: Seq<FileVersion>, new: Seq<FileVersion>, path: Seq<char>) -> bool {
    last_hash(new, path) is Some && last_hash(old, path) is None
}

/// In both snapshots, with different hashes.
pub open spec fn is_modified(old: Seq<FileVersion>, new: Seq<FileVersion>, path: Seq<char>) -> bool {
    last_hash(new, path) is Some && last_hash(old, path) is Some && last_hash(new, path)
        != last_hash(old, path)
}

/// In both snapshots, with the same hash.
pub open spec fn is_unchanged(old: Seq<FileVersion>, new: Seq<FileVersion>, path: Seq<char>) -> bool {
    last_hash(new, path) is Some && last_hash(new, path) == last_hash(old, path)
}

/// In the old snapshot only.
pub open spec fn is_deleted(old: Seq<FileVersion>, new: Seq<FileVersion>, path: Seq<char>) -> bool {
    last_hash(old, path) is Some && last_hash(new, path) is None
}

/// `diff` is the comparison of two snapshots by path and whole-file hash:
/// each list holds exactly the paths of its kind, each path once.
pub open spec fn is_diff_of(diff: SnapshotDiff, old: Seq<FileVersion>, new: Seq<FileVersion>) -> bool {
    &&& views(diff.added@).no_duplicates()
    &&& views(diff.modified@).no_duplicates()
    &&& views(diff.deleted@).no_duplicates()
    &&& views(diff.unchanged@).no_duplicates()
    &&& forall|p: Seq<char>| #[trigger] views(diff.added@).contains(p) <==> is_added(old, new, p)
    &&& forall|p: Seq<char>| #[trigger]
        views(diff.modified@).contains(p) <==> is_modified(old, new, p)
    &&& forall|p: Seq<char>| #[trigger]
        views(diff.deleted@).contains(p) <==> is_deleted(old, new, p)
    &&& forall|p: Seq<char>| #[trigger]
        views(diff.unchanged@).contains(p) <==> is_unchanged(old, new, p)
}

proof fn lemma_last_occurrence_hash(files: Seq<FileVersion>, k: int)
    requires
        0 <= k < files.len(),
        is_last_occurrence(files, k),
    ensures
        last_hash(files, files[k].path@) == Some(files[k].hash@),
    decreases files.len(),
{
    if k < files.len() - 1 {
        let rest = files.drop_last();
        assert(files[files.len() - 1].path@ != files[k].path@);
        assert forall|j: int| k < j < rest.len() implies (#[trigger] rest[j]).path@
            != rest[k].path@ by {
            assert(files[j].path@ != files[k].path@);
        }
        lemma_last_occurrence_hash(rest, k);
    }
}

proof fn lemma_last_hash_settled(files: Seq<FileVersion>, path: Seq<char>)
    ensures
        last_hash(files, path) is Some <==> settled_below(files, files.len() as int, path),
    decreases files.len(),
{
    if files.len() > 0 {
        let rest = files.drop_last();
        let n = files.len() as int;
        lemma_last_hash_settled(rest, path);
        if files.last().path@ == path {
            assert(files[n - 1].path@ == path && is_last_occurrence(files, n - 1));
        } else {
            if settled_below(rest, n - 1, path) {
                let k = choose|k: int|
                    0 <= k < n - 1 && k < rest.len() && (#[trigger] rest[k]).path@ == path
                        && is_last_occurrence(rest, k);
                assert forall|j: int| k < j < files.len() implies (#[trigger] files[j]).path@
                    != files[k].path@ by {
                    if j < n - 1 {
                        assert(rest[j].path@ != rest[k].path@);
                    }
                }
                assert(files[k].path@ == path && is_last_occurrence(files, k));
            }
            if settled_below(files, n, path) {
                let k = choose|k: int|
                    0 <= k < n && k < files.len() && (#[trigger] files[k]).path@ == path
                        && is_last_occurrence(files, k);
                assert forall|j: int| k < j < rest.len() implies (#[trigger] rest[j]).path@
                    != rest[k].path@ by {
                    assert(files[j].path@ != files[k].path@);
                }
                assert(rest[k].path@ == path && is_last_occurrence(rest, k));
            }
        }
    }
}

fn find_last_hash<'a>(files: &'a Vec<FileVersion>, path: &str) -> (found: Option<&'a String>)
    ensures
        last_hash(files@, path@) == match found {
            Some(h) => Some(h@),
            None => None,
        },
{
    let mut found: Option<&String> = None;
    let mut i: usize = 0;
    while i < files.len()
        invariant
            i <= files.len(),
            last_hash(files@.take(i as int), path@) == match found {
                Some(h) => Some(h@),
                None => None,
            },
        decreases files.len() - i,
    {
        proof {
            assert(files@.take(i + 1).drop_last() =~= files@.take(i as int));
            assert(files@.take(i + 1).last() == files@[i as int]);
        }
        if str_eq(files[i].path.as_str(), path) {
            found = Some(&files[i].hash);
        }
        i = i + 1;
    }
    assert(files@.take(i as int) =~= files@);
    found
}

fn last_occurrence(files: &Vec<FileVersion>, k: usize) -> (last: bool)
    requires
        k < files.len(),
    ensures
        last == is_last_occurrence(files@, k as int),
{
    let mut j: usize = k + 1;
    while j < files.len()
        invariant
            k < j <= files.len(),
            forall|m: int| k < m < j ==> (#[trigger] files@[m]).path@ != files@[k as int].path@,
        decreases files.len() - j,
    {
        if str_eq(files[j].path.as_str(), files[k].path.as_str()) {
            return false;
        }
        j = j + 1;
    }
    true
}

proof fn lemma_settled_step(files: Seq<FileVersion>, i: int, path: Seq<char>)
    requires
        0 <= i < files.len(),
    ensures
        settled_below(files, i + 1, path) <==> (settled_below(files, i, path) || (files[i].path@
            == path && is_last_occurrence(files, i))),
        is_last_occurrence(files, i) ==> !settled_below(files, i, files[i].path@),
{
    if settled_below(files, i + 1, path) {
        let k = choose|k: int|
            0 <= k < i + 1 && k < files.len() && (#[trigger] files[k]).path@ == path
                && is_last_occurrence(files, k);
        if k < i {
            assert(settled_below(files, i, path));
        }
    }
    if settled_below(files, i, path) {
        let k = choose|k: int|
            0 <= k < i && k < files.len() && (#[trigger] files[k]).path@ == path
                && is_last_occurrence(files, k);
        assert(0 <= k < i + 1 && files[k].path@ == path && is_last_occurrence(files, k));
    }
    if files[i].path@ == path && is_last_occurrence(files, i) {
        assert(settled_below(files, i + 1, path));
    }
    if settled_below(files, i, files[i].path@) {
        let k = choose|k: int|
            0 <= k < i && k < files.len() && (#[trigger] files[k]).path@ == files[i].path@
                && is_last_occurrence(files, k);
        assert(files[i].path@ != files[k].path@);
    }
}

proof fn lemma_push_text(list: Seq<String>, item: String)
    ensures
        views(list.push(item)) == views(list).push(item@),
        forall|p: Seq<char>| #[trigger]
            views(list.push(item)).contains(p) <==> (views(list).contains(p) || p == item@),
        views(list).no_duplicates() && !views(list).contains(item@) ==> views(
            list.push(item),
        ).no_duplicates(),
{
    let after = views(list.push(item));
    assert(after =~= views(list).push(item@));
    assert forall|p: Seq<char>| #[trigger] after.contains(p) <==> (views(list).contains(p) || p
        == item@) by {
        if after.contains(p) {
            let k = after.index_of(p);
            if k < list.len() {
                assert(views(list)[k] == p);
            }
        }
        if views(list).contains(p) {
            let k = views(list).index_of(p);
            assert(after[k] == p);
        }
        assert(after[list.len() as int] == item@);
    }
    if views(list).no_duplicates() && !views(list).contains(item@) {
        assert forall|a: int, b: int| 0 <= a < after.len() && 0 <= b < after.len() && a
            != b implies after[a] != after[b] by {
            if a < list.len() {
                assert(views(list)[a] == after[a]);
            }
            if b < list.len() {
                assert(views(list)[b] == after[b]);
            }
        }
    }
}

proof fn lemma_list_step(
    before: Seq<String>,
    after: Seq<String>,
    item: String,
    files: Seq<FileVersion>,
    i: int,
    kind: spec_fn(Seq<char>) -> bool,
    pushed: bool,
)
    requires
        0 <= i < files.len(),
        item@ == files[i].path@,
        views(before).no_duplicates(),
        forall|p: Seq<char>| #[trigger]
            views(before).contains(p) <==> (kind(p) && settled_below(files, i, p)),
        pushed ==> after == before.push(item),
        !pushed ==> after == before,
        pushed <==> (is_last_occurrence(files, i) && kind(files[i].path@)),
    ensures
        views(after).no_duplicates(),
        forall|p: Seq<char>| #[trigger]
            views(after).contains(p) <==> (kind(p) && settled_below(files, i + 1, p)),
{
    lemma_settled_step(files, i, files[i].path@);
    lemma_push_text(before, item);
    assert forall|p: Seq<char>| #[trigger]
        views(after).contains(p) <==> (kind(p) && settled_below(files, i + 1, p)) by {
        lemma_settled_step(files, i, p);
        assert(views(before).contains(p) <==> (kind(p) && settled_below(files, i, p)));
        if pushed {
            assert(views(before.push(item)).contains(p) <==> (views(before).contains(p) || p
                == item@));
        }
    }
    if pushed {
        assert(views(before).contains(item@) <==> (kind(item@) && settled_below(
            files,
            i,
            item@,
        )));
    }
}

/// Compares two snapshots by relative path and whole-file hash.
///
/// Paths come out in the order in which the snapshots list them: those of
/// the new snapshot first for `added`, `modified` and `unchanged`, those of
/// the old one for `deleted`.
pub fn compare_snapshots(old: &SyncSnapshot, new: &SyncSnapshot) -> (diff: SnapshotDiff)
    ensures
        is_diff_of(diff, old.files@, new.files@),
{
    let mut added: Vec<String> = Vec::new();
    let mut modified: Vec<String> = Vec::new();
    let mut unchanged: Vec<String> = Vec::new();
    let mut deleted: Vec<String> = Vec::new();
    let ghost o = old.files@;
    let ghost n = new.files@;
    let ghost added_kind = |p: Seq<char>| is_added(o, n, p);
    let ghost modified_kind = |p: Seq<char>| is_modified(o, n, p);
    let ghost unchanged_kind = |p: Seq<char>| is_unchanged(o, n, p);
    let ghost deleted_kind = |p: Seq<char>| is_deleted(o, n, p);
    let mut i: usize = 0;
    while i < new.files.len()
        invariant
            i <= new.files.len(),
            o == old.files@,
            n == new.files@,
            added_kind == |p: Seq<char>| is_added(o, n, p),
            modified_kind == |p: Seq<char>| is_modified(o, n, p),
            unchanged_kind == |p: Seq<char>| is_unchanged(o, n, p),
            views(added@).no_duplicates(),
            views(modified@).no_duplicates(),
            views(unchanged@).no_duplicates(),
            forall|p: Seq<char>| #[trigger]
                views(added@).contains(p) <==> (added_kind(p) && settled_below(n, i as int, p)),
            forall|p: Seq<char>| #[trigger]
                views(modified@).contains(p) <==> (modified_kind(p) && settled_below(
                    n,
                    i as int,
                    p,
                )),
            forall|p: Seq<char>| #[trigger]
                views(unchanged@).contains(p) <==> (unchanged_kind(p) && settled_below(
                    n,
                    i as int,
                    p,
                )),
        decreases new.files.len() - i,
    {
        let file = &new.files[i];
        let ghost added0 = added@;
        let ghost modified0 = modified@;
        let ghost unchanged0 = unchanged@;
        let ghost mut to_added = false;
        let ghost mut to_modified = false;
        let ghost mut to_unchanged = false;
        if last_occurrence(&new.files, i) {
            proof {
                lemma_last_occurrence_hash(n, i as int);
            }
            match find_last_hash(&old.files, file.path.as_str()) {
                Some(old_hash) => {
                    if *old_hash != file.hash {
                        modified.push(file.path.clone());
                        proof {
                            to_modified = true;
                        }
                    } else {
                        unchanged.push(file.path.clone());
                        proof {
                            to_unchanged = true;
                        }
                    }
                },
                None => {
                    added.push(file.path.clone());
                    proof {
                        to_added = true;
                    }
                },
            }
        }
        proof {
            lemma_list_step(added0, added@, file.path, n, i as int, added_kind, to_added);
            lemma_list_step(
                modified0,
                modified@,
                file.path,
                n,
                i as int,
                modified_kind,
                to_modified,
            );
            lemma_list_step(
                unchanged0,
                unchanged@,
                file.path,
                n,
                i as int,
                unchanged_kind,
                to_unchanged,
            );
        }
        i = i + 1;
    }
    proof {
        assert forall|p: Seq<char>| last_hash(n, p) is Some <==> settled_below(
            n,
            n.len() as int,
            p,
        ) by {
            lemma_last_hash_settled(n, p);
        }
    }
    let mut j: usize = 0;
    while j < old.files.len()
        invariant
            j <= old.files.len(),
            o == old.files@,
            n == new.files@,
            deleted_kind == |p: Seq<char>| is_deleted(o, n, p),
            views(deleted@).no_duplicates(),
            forall|p: Seq<char>| #[trigger]
                views(deleted@).contains(p) <==> (deleted_kind(p) && settled_below(
                    o,
                    j as int,
                    p,
                )),
        decreases old.files.len() - j,
    {
        let file = &old.files[j];
        let ghost deleted0 = deleted@;
        let ghost mut to_deleted = false;
        if last_occurrence(&old.files, j) {
            proof {
                lemma_last_occurrence_hash(o, j as int);
            }
            if find_last_hash(&new.files, file.path.as_str()).is_none() {
                deleted.push(file.path.clone());
                proof {
                    to_deleted = true;
                }
            }
        }
        proof {
            lemma_list_step(deleted0, deleted@, file.path, o, j as int, deleted_kind, to_deleted);
        }
        j = j + 1;
    }
    proof {
        assert forall|p: Seq<char>| last_hash(o, p) is Some <==> settled_below(
            o,
            o.len() as int,
            p,
        ) by {
            lemma_last_hash_settled(o, p);
        }
    }
    SnapshotDiff { added, modified, deleted, unchanged }
}

/// One file to bring back: its relative path and its backup copy.
#[derive(Debug, Clone)]
pub struct RestoreStep {
    pub path: String,
    pub backup_path: String,
}

/// Whether a file version is to be restored: it is among the wanted paths,
/// if any were named, and it has a backup copy.
pub open spec fn is_restorable(version: FileVersion, wanted: Option<Seq<Seq<char>>>) -> bool {
    &&& version.backup_path is Some
    &&& match wanted {
        Some(paths) => paths.contains(version.path@),
        None => true,
    }
}

/// The path and backup copy of each restorable file version, in order.
pub open spec fn restore_steps(files: Seq<FileVersion>, wanted: Option<Seq<Seq<char>>>) -> Seq<
    (Seq<char>, Seq<char>),
>
    decreases files.len(),
{
    if files.len() == 0 {
        Seq::empty()
    } else if is_restorable(files.last(), wanted) {
        restore_steps(files.drop_last(), wanted).push(
            (files.last().path@, files.last().backup_path->0@),
        )
    } else {
        restore_steps(files.drop_last(), wanted)
    }
}

/// `steps` name exactly the expected paths and backup copies.
pub open spec fn steps_match(steps: Seq<RestoreStep>, expected: Seq<(Seq<char>, Seq<char>)>) -> bool {
    &&& steps.len() == expected.len()
    &&& forall|k: int|
        0 <= k < steps.len() ==> (#[trigger] steps[k]).path@ == expected[k].0
            && steps[k].backup_path@ == expected[k].1
}

/// Plans the restore of a snapshot: one step per file version that has a
/// backup copy and, if a subset was named, is in it. Files without a backup
/// are skipped. The caller copies each backup that still exists.
pub fn restore_snapshot(snapshot: &SyncSnapshot, files_to_restore: Option<&Vec<String>>) -> (steps:
    Vec<RestoreStep>)
    ensures
        steps_match(
            steps@,
            restore_steps(
                snapshot.files@,
                match files_to_restore {
                    Some(list) => Some(views(list@)),
                    None => None,
                },
            ),
        ),
{
    let ghost wanted: Option<Seq<Seq<char>>> = match files_to_restore {
        Some(list) => Some(views(list@)),
        None => None,
    };
    let mut steps: Vec<RestoreStep> = Vec::new();
    let mut i: usize = 0;
    while i < snapshot.files.len()
        invariant
            i <= snapshot.files.len(),
            wanted == match files_to_restore {
                Some(list) => Some(views(list@)),
                None => None,
            },
            steps_match(steps@, restore_steps(snapshot.files@.take(i as int), wanted)),
        decreases snapshot.files.len() - i,
    {
        let file = &snapshot.files[i];
        proof {
            assert(snapshot.files@.take(i + 1).drop_last() =~= snapshot.files@.take(i as int));
            assert(snapshot.files@.take(i + 1).last() == snapshot.files@[i as int]);
        }
        let selected = match files_to_restore {
            Some(list) => contains_text(list, file.path.as_str()),
            None => true,
        };
        if selected {
            match &file.backup_path {
                Some(backup) => {
                    steps.push(RestoreStep { path: file.path.clone(), backup_path: backup.clone() });
                },
                None => {},
            }
        }
        i = i + 1;
    }
    assert(snapshot.files@.take(i as int) =~= snapshot.files@);
    steps
}

/// Where the history of a project is kept: in the directory
/// `version_history` of the application data, in a file named after the
/// project.
pub fn get_history_path(app_data_dir: &str, project_id: &str) -> (path: String)
    ensures
        path@ == spec_join(spec_join(app_data_dir@, "version_history"@), project_id@ + ".json"@),
{
    let dir = join_path(app_data_dir, "version_history");
    let name = with_suffix(project_id, ".json");
    join_path(dir.as_str(), name.as_str())
}

/// Where the backup copies of a project are kept: in the directory
/// `backups` of the application data, in a directory named after the
/// project.
pub fn get_backup_dir(app_data_dir: &str, project_id: &str) -> (path: String)
    ensures
        path@ == spec_join(spec_join(app_data_dir@, "backups"@), project_id@),
{
    let dir = join_path(app_data_dir, "backups");
    join_path(dir.as_str(), project_id)
}

/// Adding a snapshot to a history that is full evicts exactly the oldest
/// snapshot: the others move up, the new one is last, and the backups to
/// delete are those of the oldest.
pub proof fn lemma_full_history_evicts_oldest(
    snapshots: Seq<SyncSnapshot>,
    added: SyncSnapshot,
    max_snapshots: int,
)
    requires
        0 < max_snapshots,
        snapshots.len() == max_snapshots,
    ensures
        excess(snapshots.len() as int + 1, max_snapshots) == 1,
        snapshots.push(added).skip(1) == snapshots.skip(1).push(added),
        snapshots.push(added).skip(1).len() == max_snapshots,
        all_backup_paths(snapshots.push(added).take(1)) == backup_paths(snapshots[0].files@),
{
    let all = snapshots.push(added);
    assert(all.skip(1) =~= snapshots.skip(1).push(added));
    assert(all.take(1).drop_last() =~= Seq::<SyncSnapshot>::empty());
    assert(all.take(1).last() == snapshots[0]);
    assert(all_backup_paths(all.take(1).drop_last()) =~= Seq::<Seq<char>>::empty());
    assert(all_backup_paths(all.take(1)) =~= backup_paths(snapshots[0].files@));
}

} // verus!
