//! Planning and bookkeeping for uploads over a bounded set of connections.
//!
//! The decisions live here: which files are sent, over how many
//! connections, whether a worker may start another file, how far the whole
//! operation has come, and how it ends. The caller performs the uploads and
//! hands back what happened.

use crate::delta_sync::DeltaStatus;
use crate::delta_sync::FileDelta;
use crate::paths::are_prefixes;
use crate::paths::directory_ends;
use crate::paths::join_path;
use crate::paths::parent_directories;
use crate::paths::spec_join;
use crate::strmap::StrMap;
use crate::text::contains_text;
use crate::text::opt_view;
use crate::text::views;
use vstd::prelude::*;
use vstd::string::StringExecFns;

verus! {

/// Default number of parallel connections.
pub const DEFAULT_PARALLEL_CONNECTIONS: usize = 4;

/// Maximum parallel connections allowed.
pub const MAX_PARALLEL_CONNECTIONS: usize = 8;

/// The number of failed files at which no further file is started.
pub const MAX_FAILURES: usize = 3;

/// Files larger than this report progress after each chunk sent.
pub const PROGRESS_CHUNK_SIZE: u64 = 65536;

/// How a local file compares with the remote side.
#[derive(Debug, Clone, Copy, PartialEq, Eq, Structural)]
pub enum DiffStatus {
    Added,
    Modified,
    Deleted,
    Unchanged,
}

/// One entry of a diff between the local tree and the remote side.
#[derive(Debug, Clone)]
pub struct FileDiff {
    pub path: String,
    pub status: DiffStatus,
    pub local_size: Option<u64>,
    pub remote_size: Option<u64>,
}

/// One file to upload.
#[derive(Debug, Clone)]
pub struct UploadTask {
    pub path: String,
    pub local_file: String,
    pub remote_file: String,
    pub file_size: u64,
}

/// `task` uploads the file at `path` from under `local_root` to under
/// `remote_root`.
pub open spec fn is_task_for(
    task: UploadTask,
    path: Seq<char>,
    size: u64,
    local_root: Seq<char>,
    remote_root: Seq<char>,
) -> bool {
    &&& task.path@ == path
    &&& task.local_file@ == spec_join(local_root, path)
    &&& task.remote_file@ == spec_join(remote_root, path)
    &&& task.file_size == size
}

/// The test for a diff entry to need an upload: added or modified.
pub open spec fn diff_needs_upload() -> spec_fn(FileDiff) -> bool {
    |d: FileDiff| d.status == DiffStatus::Added || d.status == DiffStatus::Modified
}

/// The test for a delta to need an upload: new, small or modified.
pub open spec fn delta_needs_upload() -> spec_fn(FileDelta) -> bool {
    |d: FileDelta|
        d.status == DeltaStatus::New || d.status == DeltaStatus::SmallFile || d.status
            == DeltaStatus::Modified
}

/// The size that a diff entry gives for the local file, zero if unknown.
pub open spec fn diff_size(d: FileDiff) -> u64 {
    match d.local_size {
        Some(n) => n,
        None => 0,
    }
}

/// `tasks` upload exactly the given diff entries, in order.
pub open spec fn tasks_cover_diffs(
    tasks: Seq<UploadTask>,
    diffs: Seq<FileDiff>,
    local_root: Seq<char>,
    remote_root: Seq<char>,
) -> bool {
    &&& tasks.len() == diffs.len()
    &&& forall|i: int|
        0 <= i < tasks.len() ==> is_task_for(
            #[trigger] tasks[i],
            diffs[i].path@,
            diff_size(diffs[i]),
            local_root,
            remote_root,
        )
}

/// `tasks` upload exactly the given deltas, in order.
pub open spec fn tasks_cover_deltas(
    tasks: Seq<UploadTask>,
    deltas: Seq<FileDelta>,
    local_root: Seq<char>,
    remote_root: Seq<char>,
) -> bool {
    &&& tasks.len() == deltas.len()
    &&& forall|i: int|
        0 <= i < tasks.len() ==> is_task_for(
            #[trigger] tasks[i],
            deltas[i].path@,
            deltas[i].total_size,
            local_root,
            remote_root,
        )
}

fn task_for(path: &str, size: u64, local_path: &str, remote_base: &str) -> (task: UploadTask)
    ensures
        is_task_for(task, path@, size, local_path@, remote_base@),
{
    UploadTask {
        path: String::from_str(path),
        local_file: join_path(local_path, path),
        remote_file: join_path(remote_base, path),
        file_size: size,
    }
}

/// Selects the files of a diff that are uploaded: the added and the
/// modified ones, each with its local and remote place.
pub fn files_to_upload(local_path: &str, remote_base: &str, diffs: &Vec<FileDiff>) -> (tasks: Vec<
    UploadTask,
>)
    ensures
        tasks_cover_diffs(tasks@, diffs@.filter(diff_needs_upload()), local_path@, remote_base@),
{
    let mut tasks: Vec<UploadTask> = Vec::new();
    let mut i: usize = 0;
    while i < diffs.len()
        invariant
            i <= diffs.len(),
            tasks_cover_diffs(
                tasks@,
                diffs@.take(i as int).filter(diff_needs_upload()),
                local_path@,
                remote_base@,
            ),
        decreases diffs.len() - i,
    {
        let diff = &diffs[i];
        proof {
            assert(diffs@.take(i + 1) =~= diffs@.take(i as int).push(diffs@[i as int]));
            diffs@.take(i as int).lemma_filter_push(diffs@[i as int], diff_needs_upload());
        }
        if diff.status == DiffStatus::Added || diff.status == DiffStatus::Modified {
            let size: u64 = match diff.local_size {
                Some(n) => n,
                None => 0,
            };
            tasks.push(task_for(diff.path.as_str(), size, local_path, remote_base));
        }
        i = i + 1;
    }
    assert(diffs@.take(i as int) =~= diffs@);
    tasks
}

/// Selects the files of a delta analysis that are uploaded: the new, the
/// small and the modified ones. Each is sent whole.
pub fn deltas_to_upload(local_path: &str, remote_base: &str, deltas: &Vec<FileDelta>) -> (tasks:
    Vec<UploadTask>)
    ensures
        tasks_cover_deltas(
            tasks@,
            deltas@.filter(delta_needs_upload()),
            local_path@,
            remote_base@,
        ),
{
    let mut tasks: Vec<UploadTask> = Vec::new();
    let mut i: usize = 0;
    while i < deltas.len()
        invariant
            i <= deltas.len(),
            tasks_cover_deltas(
                tasks@,
                deltas@.take(i as int).filter(delta_needs_upload()),
                local_path@,
                remote_base@,
            ),
        decreases deltas.len() - i,
    {
        let delta = &deltas[i];
        proof {
            assert(deltas@.take(i + 1) =~= deltas@.take(i as int).push(deltas@[i as int]));
            deltas@.take(i as int).lemma_filter_push(deltas@[i as int], delta_needs_upload());
        }
        if delta.status == DeltaStatus::New || delta.status == DeltaStatus::SmallFile
            || delta.status == DeltaStatus::Modified {
            tasks.push(task_for(delta.path.as_str(), delta.total_size, local_path, remote_base));
        }
        i = i + 1;
    }
    assert(deltas@.take(i as int) =~= deltas@);
    tasks
}

/// The number of connections used: the requested number, but no more than
/// there are files and no more than eight.
pub open spec fn spec_connection_count(requested: int, file_count: int) -> int {
    let by_files = if requested < file_count {
        requested
    } else {
        file_count
    };
    if by_files < MAX_PARALLEL_CONNECTIONS as int {
        by_files
    } else {
        MAX_PARALLEL_CONNECTIONS as int
    }
}

/// The number of connections to open for a given request and file count.
pub fn connection_count(max_connections: usize, file_count: usize) -> (count: usize)
    ensures
        count == spec_connection_count(max_connections as int, file_count as int),
        count <= max_connections,
        count <= file_count,
        count <= MAX_PARALLEL_CONNECTIONS,
{
    let by_files = if max_connections < file_count {
        max_connections
    } else {
        file_count
    };
    if by_files < MAX_PARALLEL_CONNECTIONS {
        by_files
    } else {
        MAX_PARALLEL_CONNECTIONS
    }
}

/// Whether a file reports progress after each chunk: only files larger than
/// one chunk do.
pub fn reports_chunk_progress(file_size: u64) -> (reports: bool)
    ensures
        reports == (file_size > PROGRESS_CHUNK_SIZE),
{
    file_size > PROGRESS_CHUNK_SIZE
}

/// The kinds of progress event.
#[derive(Debug, Clone, Copy, PartialEq, Eq, Structural)]
pub enum EventKind {
    Connecting,
    Analyzing,
    FileStart,
    FileProgress,
    FileComplete,
    FileError,
    Complete,
    Error,
    Cancelled,
}

/// One emission on the progress stream. The caller adds the time.
#[derive(Debug, Clone)]
pub struct ProgressEvent {
    pub project_id: String,
    pub event: EventKind,
    pub file: Option<String>,
    pub progress: u32,
    pub file_progress: Option<u32>,
    pub bytes_sent: Option<u64>,
    pub bytes_total: Option<u64>,
    pub message: Option<String>,
}

/// The overall progress once `completed` of `total` files are done: linear
/// within the window that starts at `base` and spans `range`, each file
/// weighing the same. With no files the window is at its end.
pub open spec fn spec_progress(base: int, range: int, total: int, completed: int) -> int {
    if total == 0 {
        base + range
    } else {
        base + completed * range / total
    }
}

/// The share of a file that was sent, in percent, rounded down; 100 for an
/// empty file.
pub open spec fn spec_file_percent(bytes_sent: int, bytes_total: int) -> int {
    if bytes_total > 0 {
        let exact = bytes_sent * 100 / bytes_total;
        if exact > u32::MAX {
            u32::MAX as int
        } else {
            exact
        }
    } else {
        100
    }
}

/// The share of a file that was sent, in percent.
pub fn file_percent(bytes_sent: u64, bytes_total: u64) -> (percent: u32)
    ensures
        percent == spec_file_percent(bytes_sent as int, bytes_total as int),
        bytes_sent <= bytes_total ==> percent <= 100,
{
    if bytes_total > 0 {
        let exact: u128 = (bytes_sent as u128) * 100 / (bytes_total as u128);
        assert(bytes_sent <= bytes_total ==> exact <= 100) by (nonlinear_arith)
            requires
                exact == (bytes_sent as int) * 100 / (bytes_total as int),
                bytes_total > 0,
        ;
        if exact > 0xffff_ffff {
            0xffff_ffff
        } else {
            exact as u32
        }
    } else {
        100
    }
}

/// The message recorded for a failed file: its path, a colon, the error.
pub open spec fn spec_error_entry(file: Seq<char>, error: Seq<char>) -> Seq<char> {
    file + seq![':', ' '] + error
}

fn error_entry(file: &str, error: &str) -> (entry: String)
    ensures
        entry@ == spec_error_entry(file@, error@),
{
    proof {
        reveal_strlit(": ");
    }
    let mut entry = String::from_str(file);
    entry.append(": ");
    entry.append(error);
    assert(entry@ =~= spec_error_entry(file@, error@));
    entry
}

/// Progress of a set of uploads: how many files are done, how many failed
/// and with which errors, and where the overall progress stands.
#[derive(Debug, Clone)]
pub struct ParallelProgressTracker {
    pub project_id: String,
    pub total_files: usize,
    pub completed_files: usize,
    pub failed_files: usize,
    pub current_progress: u32,
    pub errors: Vec<String>,
    pub base_progress: u32,
    pub progress_range: u32,
}

impl ParallelProgressTracker {
    /// The window fits, no more files are settled than there are, one error
    /// is recorded per failed file, and the progress is that of the
    /// completed files.
    pub open spec fn wf(&self) -> bool {
        &&& self.base_progress + self.progress_range <= u32::MAX
        &&& self.completed_files + self.failed_files <= self.total_files
        &&& self.errors@.len() == self.failed_files
        &&& self.current_progress == spec_progress(
            self.base_progress as int,
            self.progress_range as int,
            self.total_files as int,
            self.completed_files as int,
        ) || (self.completed_files == 0 && self.current_progress == self.base_progress)
    }

    /// The number of files that are completed or failed.
    pub open spec fn settled(&self) -> int {
        self.completed_files + self.failed_files
    }

    /// A tracker for `total_files` files with nothing done yet.
    pub fn new(project_id: String, total_files: usize, base_progress: u32, progress_range: u32) -> (tracker:
        Self)
        requires
            base_progress + progress_range <= u32::MAX,
        ensures
            tracker.wf(),
            tracker.project_id == project_id,
            tracker.total_files == total_files,
            tracker.completed_files == 0,
            tracker.failed_files == 0,
            tracker.current_progress == base_progress,
            tracker.errors@.len() == 0,
            tracker.base_progress == base_progress,
            tracker.progress_range == progress_range,
    {
        ParallelProgressTracker {
            project_id,
            total_files,
            completed_files: 0,
            failed_files: 0,
            current_progress: base_progress,
            errors: Vec::new(),
            base_progress,
            progress_range,
        }
    }

    /// The overall progress once `completed` files are done.
    pub fn calculate_progress(&self, completed: usize) -> (progress: u32)
        requires
            self.base_progress + self.progress_range <= u32::MAX,
            completed <= self.total_files,
        ensures
            progress == spec_progress(
                self.base_progress as int,
                self.progress_range as int,
                self.total_files as int,
                completed as int,
            ),
            self.base_progress <= progress <= self.base_progress + self.progress_range,
    {
        if self.total_files == 0 {
            return self.base_progress + self.progress_range;
        }
        assert((completed as int) * (self.progress_range as int) <= 0xffff_ffff_ffff_ffff
            * 0xffff_ffff) by (nonlinear_arith)
            requires
                0 <= completed <= 0xffff_ffff_ffff_ffff,
                0 <= self.progress_range <= 0xffff_ffff,
        ;
        let share: u128 = (completed as u128) * (self.progress_range as u128) / (
        self.total_files as u128);
        assert(share <= self.progress_range) by (nonlinear_arith)
            requires
                share == (completed as int) * (self.progress_range as int) / (
                self.total_files as int),
                completed <= self.total_files,
                self.total_files > 0,
        ;
        self.base_progress + share as u32
    }

    /// The event for a file whose upload starts.
    pub fn emit_file_start(&self, file: &str, file_size: u64) -> (event: ProgressEvent)
        ensures
            event.project_id == self.project_id,
            event.event == EventKind::FileStart,
            opt_view(event.file) == Some(file@),
            event.progress == self.current_progress,
            event.file_progress == Some(0u32),
            event.bytes_sent == Some(0u64),
            event.bytes_total == Some(file_size),
            event.message is None,
    {
        ProgressEvent {
            project_id: self.project_id.clone(),
            event: EventKind::FileStart,
            file: Some(String::from_str(file)),
            progress: self.current_progress,
            file_progress: Some(0),
            bytes_sent: Some(0),
            bytes_total: Some(file_size),
            message: None,
        }
    }

    /// The event for a chunk of a file that was sent.
    pub fn emit_file_progress(&self, file: &str, bytes_sent: u64, bytes_total: u64) -> (event:
        ProgressEvent)
        ensures
            event.project_id == self.project_id,
            event.event == EventKind::FileProgress,
            opt_view(event.file) == Some(file@),
            event.progress == self.current_progress,
            event.file_progress == Some(
                spec_file_percent(bytes_sent as int, bytes_total as int) as u32,
            ),
            event.bytes_sent == Some(bytes_sent),
            event.bytes_total == Some(bytes_total),
            event.message is None,
    {
        ProgressEvent {
            project_id: self.project_id.clone(),
            event: EventKind::FileProgress,
            file: Some(String::from_str(file)),
            progress: self.current_progress,
            file_progress: Some(file_percent(bytes_sent, bytes_total)),
            bytes_sent: Some(bytes_sent),
            bytes_total: Some(bytes_total),
            message: None,
        }
    }

    /// Counts a file as completed, moves the overall progress on and gives
    /// the event for it.
    pub fn emit_file_complete(&mut self, file: &str, file_size: u64) -> (event: ProgressEvent)
        requires
            old(self).wf(),
            old(self).settled() < old(self).total_files,
        ensures
            final(self).wf(),
            final(self).completed_files == old(self).completed_files + 1,
            final(self).failed_files == old(self).failed_files,
            final(self).errors == old(self).errors,
            final(self).total_files == old(self).total_files,
            final(self).base_progress == old(self).base_progress,
            final(self).progress_range == old(self).progress_range,
            final(self).project_id == old(self).project_id,
            final(self).current_progress == spec_progress(
                old(self).base_progress as int,
                old(self).progress_range as int,
                old(self).total_files as int,
                old(self).completed_files + 1,
            ),
            event.project_id == old(self).project_id,
            event.event == EventKind::FileComplete,
            opt_view(event.file) == Some(file@),
            event.progress == final(self).current_progress,
            event.file_progress == Some(100u32),
            event.bytes_sent == Some(file_size),
            event.bytes_total == Some(file_size),
            event.message is None,
    {
        self.completed_files = self.completed_files + 1;
        let progress = self.calculate_progress(self.completed_files);
        self.current_progress = progress;
        ProgressEvent {
            project_id: self.project_id.clone(),
            event: EventKind::FileComplete,
            file: Some(String::from_str(file)),
            progress,
            file_progress: Some(100),
            bytes_sent: Some(file_size),
            bytes_total: Some(file_size),
            message: None,
        }
    }

    /// Counts a file as failed, records its error and gives the event for
    /// it. The overall progress stays where it is.
    pub fn emit_file_error(&mut self, file: &str, error: &str, file_size: u64) -> (event:
        ProgressEvent)
        requires
            old(self).wf(),
            old(self).settled() < old(self).total_files,
        ensures
            final(self).wf(),
            final(self).completed_files == old(self).completed_files,
            final(self).failed_files == old(self).failed_files + 1,
            final(self).errors@.len() == old(self).errors@.len() + 1,
            final(self).errors@.last()@ == spec_error_entry(file@, error@),
            final(self).errors@.drop_last() == old(self).errors@,
            final(self).total_files == old(self).total_files,
            final(self).base_progress == old(self).base_progress,
            final(self).progress_range == old(self).progress_range,
            final(self).project_id == old(self).project_id,
            final(self).current_progress == old(self).current_progress,
            event.project_id == old(self).project_id,
            event.event == EventKind::FileError,
            opt_view(event.file) == Some(file@),
            event.progress == old(self).current_progress,
            event.file_progress == Some(0u32),
            event.bytes_sent is None,
            event.bytes_total == Some(file_size),
            opt_view(event.message) == Some(error@),
    {
        self.failed_files = self.failed_files + 1;
        self.errors.push(error_entry(file, error));
        assert(self.errors@.drop_last() =~= old(self).errors@);
        ProgressEvent {
            project_id: self.project_id.clone(),
            event: EventKind::FileError,
            file: Some(String::from_str(file)),
            progress: self.current_progress,
            file_progress: Some(0),
            bytes_sent: None,
            bytes_total: Some(file_size),
            message: Some(String::from_str(error)),
        }
    }

    /// The number of completed files.
    pub fn get_completed(&self) -> (n: usize)
        ensures
            n == self.completed_files,
    {
        self.completed_files
    }

    /// The number of failed files.
    pub fn get_failed(&self) -> (n: usize)
        ensures
            n == self.failed_files,
    {
        self.failed_files
    }

    /// The recorded errors, one per failed file.
    pub fn get_errors(&self) -> (errors: Vec<String>)
        ensures
            errors@ == self.errors@,
    {
        let mut errors: Vec<String> = Vec::new();
        let mut i: usize = 0;
        while i < self.errors.len()
            invariant
                i <= self.errors.len(),
                errors@ == self.errors@.take(i as int),
            decreases self.errors.len() - i,
        {
            errors.push(self.errors[i].clone());
            assert(errors@ =~= self.errors@.take(i + 1));
            i = i + 1;
        }
        assert(self.errors@.take(i as int) =~= self.errors@);
        errors
    }

    /// Whether no further file should be started: three files have failed.
    pub fn should_stop(&self) -> (stop: bool)
        ensures
            stop == (self.failed_files >= MAX_FAILURES),
    {
        self.failed_files >= MAX_FAILURES
    }
}

/// Why a sync did not succeed.
#[derive(Debug, Clone)]
pub enum SyncError {
    /// The user asked for the sync to stop.
    Cancelled,
    /// Some files failed; one message per failed file.
    Failed { errors: Vec<String> },
    /// The sequential path gave up after three failures.
    Stopped { last_error: String },
}

/// The bookkeeping of one wave of uploads over a bounded number of
/// connections: which task is handed out next, how many are under way, and
/// what has been settled.
#[derive(Debug, Clone)]
pub struct TransferRun {
    pub tracker: ParallelProgressTracker,
    pub next: usize,
    pub active: usize,
    pub limit: usize,
}

impl TransferRun {
    /// No more uploads are under way than there are connections, no more
    /// connections than eight or than there are files, and every task that
    /// was handed out is either under way or settled.
    pub open spec fn wf(&self) -> bool {
        &&& self.tracker.wf()
        &&& self.next <= self.tracker.total_files
        &&& self.active <= self.limit
        &&& self.limit <= MAX_PARALLEL_CONNECTIONS
        &&& self.limit <= self.tracker.total_files
        &&& self.active + self.tracker.settled() == self.next
    }

    /// `self` is `before` but for the counters of tasks handed out and
    /// under way.
    pub open spec fn same_wave(&self, before: TransferRun) -> bool {
        &&& self.limit == before.limit
        &&& self.tracker.total_files == before.tracker.total_files
        &&& self.tracker.base_progress == before.tracker.base_progress
        &&& self.tracker.progress_range == before.tracker.progress_range
        &&& self.tracker.project_id == before.tracker.project_id
    }

    /// May another task be handed out: nobody cancelled, fewer than three
    /// files failed, a task is left and a connection is free.
    pub open spec fn spec_can_start(&self, cancelled: bool) -> bool {
        &&& !cancelled
        &&& self.tracker.failed_files < MAX_FAILURES
        &&& self.next < self.tracker.total_files
        &&& self.active < self.limit
    }

    /// A run over `total_files` tasks with at most `max_connections`
    /// connections, and the progress window that starts at `base_progress`
    /// and spans `progress_range`.
    pub fn new(
        project_id: String,
        total_files: usize,
        max_connections: usize,
        base_progress: u32,
        progress_range: u32,
    ) -> (run: Self)
        requires
            base_progress + progress_range <= u32::MAX,
        ensures
            run.wf(),
            run.limit == spec_connection_count(max_connections as int, total_files as int),
            run.limit <= max_connections,
            run.next == 0,
            run.active == 0,
            run.tracker.total_files == total_files,
            run.tracker.completed_files == 0,
            run.tracker.failed_files == 0,
            run.tracker.project_id == project_id,
            run.tracker.base_progress == base_progress,
            run.tracker.progress_range == progress_range,
    {
        TransferRun {
            tracker: ParallelProgressTracker::new(
                project_id,
                total_files,
                base_progress,
                progress_range,
            ),
            next: 0,
            active: 0,
            limit: connection_count(max_connections, total_files),
        }
    }

    /// Hands out the next task to a worker that is free, or nothing when the
    /// worker is to stop: after a cancellation, after three failures, when no
    /// task is left, or when every connection is busy. The flag is read
    /// before a file is started; uploads under way are not interrupted.
    pub fn next_task(&mut self, cancelled: bool) -> (task: Option<usize>)
        requires
            old(self).wf(),
        ensures
            final(self).wf(),
            final(self).same_wave(*old(self)),
            final(self).tracker == old(self).tracker,
            task is Some <==> old(self).spec_can_start(cancelled),
            task is None ==> *final(self) == *old(self),
            task matches Some(i) ==> {
                &&& i == old(self).next
                &&& final(self).next == old(self).next + 1
                &&& final(self).active == old(self).active + 1
            },
    {
        if !cancelled && !self.tracker.should_stop() && self.next < self.tracker.total_files
            && self.active < self.limit {
            let index = self.next;
            self.next = self.next + 1;
            self.active = self.active + 1;
            Some(index)
        } else {
            None
        }
    }

    /// Settles a task whose upload succeeded and gives the event for it.
    /// Nothing happens when no task is under way.
    pub fn complete_task(&mut self, file: &str, file_size: u64) -> (event: Option<ProgressEvent>)
        requires
            old(self).wf(),
        ensures
            final(self).wf(),
            final(self).same_wave(*old(self)),
            event is Some <==> old(self).active > 0,
            event is None ==> *final(self) == *old(self),
            event matches Some(e) ==> {
                &&& final(self).active == old(self).active - 1
                &&& final(self).next == old(self).next
                &&& final(self).tracker.completed_files == old(self).tracker.completed_files + 1
                &&& final(self).tracker.failed_files == old(self).tracker.failed_files
                &&& final(self).tracker.errors == old(self).tracker.errors
                &&& e.event == EventKind::FileComplete
                &&& opt_view(e.file) == Some(file@)
                &&& e.progress == final(self).tracker.current_progress
                &&& e.progress == spec_progress(
                    old(self).tracker.base_progress as int,
                    old(self).tracker.progress_range as int,
                    old(self).tracker.total_files as int,
                    old(self).tracker.completed_files + 1,
                )
                &&& e.bytes_sent == Some(file_size)
                &&& e.bytes_total == Some(file_size)
            },
    {
        if self.active == 0 {
            return None;
        }
        let event = self.tracker.emit_file_complete(file, file_size);
        self.active = self.active - 1;
        Some(event)
    }

    /// Settles a task whose upload failed, records the error and gives the
    /// event for it. Nothing happens when no task is under way.
    pub fn fail_task(&mut self, file: &str, error: &str, file_size: u64) -> (event: Option<
        ProgressEvent,
    >)
        requires
            old(self).wf(),
        ensures
            final(self).wf(),
            final(self).same_wave(*old(self)),
            event is Some <==> old(self).active > 0,
            event is None ==> *final(self) == *old(self),
            event matches Some(e) ==> {
                &&& final(self).active == old(self).active - 1
                &&& final(self).next == old(self).next
                &&& final(self).tracker.completed_files == old(self).tracker.completed_files
                &&& final(self).tracker.failed_files == old(self).tracker.failed_files + 1
                &&& final(self).tracker.errors@.drop_last() == old(self).tracker.errors@
                &&& final(self).tracker.errors@.last()@ == spec_error_entry(file@, error@)
                &&& final(self).tracker.current_progress == old(self).tracker.current_progress
                &&& e.event == EventKind::FileError
                &&& opt_view(e.file) == Some(file@)
                &&& opt_view(e.message) == Some(error@)
                &&& e.progress == old(self).tracker.current_progress
            },
    {
        if self.active == 0 {
            return None;
        }
        let event = self.tracker.emit_file_error(file, error, file_size);
        self.active = self.active - 1;
        Some(event)
    }

    /// How a parallel wave ends once no upload is under way: with the list
    /// of errors if any file failed, else as cancelled if the user asked for
    /// that, else well. Files that were uploaded stay uploaded.
    pub fn outcome(&self, cancelled: bool) -> (result: Result<(), SyncError>)
        ensures
            match result {
                Ok(_) => self.tracker.errors@.len() == 0 && !cancelled,
                Err(SyncError::Failed { errors }) => self.tracker.errors@.len() > 0 && errors@
                    == self.tracker.errors@,
                Err(SyncError::Cancelled) => self.tracker.errors@.len() == 0 && cancelled,
                Err(SyncError::Stopped { .. }) => false,
            },
    {
        if self.tracker.errors.len() > 0 {
            Err(SyncError::Failed { errors: self.tracker.get_errors() })
        } else if cancelled {
            Err(SyncError::Cancelled)
        } else {
            Ok(())
        }
    }

    /// How a sequential pass ends: it gives up with the last error after
    /// three failures; else it ends as cancelled if the user asked for that
    /// while files were left; else with the list of errors if any file
    /// failed; else well.
    pub fn sequential_outcome(&self, cancelled: bool) -> (result: Result<(), SyncError>)
        requires
            self.wf(),
        ensures
            match result {
                Ok(_) => self.tracker.errors@.len() == 0 && !(cancelled && self.next
                    < self.tracker.total_files),
                Err(SyncError::Stopped { last_error }) => self.tracker.failed_files
                    >= MAX_FAILURES && last_error == self.tracker.errors@.last(),
                Err(SyncError::Cancelled) => self.tracker.failed_files < MAX_FAILURES && cancelled
                    && self.next < self.tracker.total_files,
                Err(SyncError::Failed { errors }) => 0 < self.tracker.failed_files < MAX_FAILURES
                    && !(cancelled && self.next < self.tracker.total_files) && errors@
                    == self.tracker.errors@,
            },
    {
        if self.tracker.failed_files >= MAX_FAILURES {
            let last = self.tracker.errors[self.tracker.errors.len() - 1].clone();
            Err(SyncError::Stopped { last_error: last })
        } else if cancelled && self.next < self.tracker.total_files {
            Err(SyncError::Cancelled)
        } else if self.tracker.errors.len() > 0 {
            Err(SyncError::Failed { errors: self.tracker.get_errors() })
        } else {
            Ok(())
        }
    }
}

/// The event that ends a sync: `Complete` at 100 when it went well,
/// `Cancelled` when the user stopped it, `Error` for any failure. The two
/// last stand at 0.
pub open spec fn spec_final_event(result: Result<(), SyncError>) -> (EventKind, u32) {
    match result {
        Ok(_) => (EventKind::Complete, 100u32),
        Err(SyncError::Cancelled) => (EventKind::Cancelled, 0u32),
        Err(_) => (EventKind::Error, 0u32),
    }
}

/// The kind and overall progress of the event that ends a sync, so that a
/// cancellation can be told from a failure.
pub fn final_event(result: &Result<(), SyncError>) -> (event: (EventKind, u32))
    ensures
        event == spec_final_event(*result),
{
    match result {
        Ok(_) => (EventKind::Complete, 100),
        Err(SyncError::Cancelled) => (EventKind::Cancelled, 0),
        Err(_) => (EventKind::Error, 0),
    }
}

/// In every state of a run no more uploads are under way than the run has
/// connections, and it has no more connections than eight and than files.
pub proof fn lemma_active_uploads_bounded(run: TransferRun)
    requires
        run.wf(),
    ensures
        run.active <= run.limit,
        run.limit <= MAX_PARALLEL_CONNECTIONS,
        run.limit <= run.tracker.total_files,
        run.active <= run.tracker.total_files - run.tracker.settled(),
{
}

/// A run that was asked for `max_connections` connections never has more
/// uploads under way than that: the limit is set at the start and no step
/// of the run changes it.
pub proof fn lemma_requested_connections_respected(
    start: TransferRun,
    now: TransferRun,
    max_connections: usize,
)
    requires
        start.limit == spec_connection_count(
            max_connections as int,
            start.tracker.total_files as int,
        ),
        now.same_wave(start),
        now.wf(),
    ensures
        now.active <= max_connections,
        now.active <= MAX_PARALLEL_CONNECTIONS,
{
}

/// Requests to stop the sync of a project. A worker reads the flag of its
/// project before it starts a file.
#[derive(Debug, Clone)]
pub struct CancelFlags {
    pub flags: StrMap<bool>,
}

impl CancelFlags {
    /// The flags are well formed and only raised flags are kept.
    pub open spec fn wf(&self) -> bool {
        &&& self.flags.wf()
        &&& forall|i: int|
            0 <= i < self.flags.spec_values().len() ==> #[trigger] self.flags.spec_values()[i]
    }

    /// Whether the sync of a project was asked to stop.
    pub open spec fn spec_is_cancelled(&self, project_id: Seq<char>) -> bool {
        self.flags@.contains_key(project_id)
    }

    /// No project is asked to stop.
    pub fn new() -> (flags: Self)
        ensures
            flags.wf(),
            forall|p: Seq<char>| !flags.spec_is_cancelled(p),
    {
        CancelFlags { flags: StrMap::new() }
    }

    /// Whether the sync of a project was asked to stop.
    pub fn is_cancelled(&self, project_id: &str) -> (cancelled: bool)
        requires
            self.wf(),
        ensures
            cancelled == self.spec_is_cancelled(project_id@),
    {
        self.flags.contains_key(project_id)
    }

    /// Raises or clears the flag of a project. The flags of other projects
    /// stay as they are.
    pub fn set_cancelled(&mut self, project_id: &str, value: bool)
        requires
            old(self).wf(),
        ensures
            final(self).wf(),
            final(self).spec_is_cancelled(project_id@) == value,
            forall|p: Seq<char>|
                p != project_id@ ==> final(self).spec_is_cancelled(p) == old(
                    self,
                ).spec_is_cancelled(p),
    {
        if value {
            proof {
                if self.flags@.contains_key(project_id@) {
                    self.flags.lemma_domain();
                }
            }
            self.flags.insert(String::from_str(project_id), true);
            proof {
                assert forall|i: int| 0 <= i < self.flags.spec_values().len() implies #[trigger]
                    self.flags.spec_values()[i] by {
                    if i < old(self).flags.spec_values().len() {
                        if old(self).flags@.contains_key(project_id@) {
                            if i != old(self).flags.spec_keys().index_of(project_id@) {
                                assert(old(self).flags.spec_values()[i]);
                            }
                        } else {
                            assert(old(self).flags.spec_values()[i]);
                        }
                    }
                }
            }
        } else {
            let ghost before = self.flags.spec_values();
            let _was = self.flags.remove(project_id);
            proof {
                if old(self).flags@.contains_key(project_id@) {
                    let at = old(self).flags.spec_keys().index_of(project_id@);
                    assert forall|i: int|
                        0 <= i < self.flags.spec_values().len() implies #[trigger]
                        self.flags.spec_values()[i] by {
                        let i0 = if i < at { i } else { i + 1 };
                        assert(before[i0]);
                    }
                }
            }
        }
    }
}

/// The remote directories that this wave has already tried to create, so
/// that each is tried once.
#[derive(Debug, Clone)]
pub struct CreatedDirs {
    pub dirs: Vec<String>,
}

impl CreatedDirs {
    /// Nothing was created yet.
    pub fn new() -> (cache: Self)
        ensures
            cache.dirs@.len() == 0,
    {
        CreatedDirs { dirs: Vec::new() }
    }

    /// Notes a directory and tells whether it is new: `true` means that the
    /// caller creates it now, `false` that it was tried before.
    pub fn claim(&mut self, dir: &str) -> (is_new: bool)
        ensures
            is_new == !views(old(self).dirs@).contains(dir@),
            is_new ==> views(final(self).dirs@) == views(old(self).dirs@).push(dir@),
            !is_new ==> final(self).dirs@ == old(self).dirs@,
            views(final(self).dirs@).contains(dir@),
    {
        if contains_text(&self.dirs, dir) {
            false
        } else {
            self.dirs.push(String::from_str(dir));
            proof {
                assert(views(self.dirs@) =~= views(old(self).dirs@).push(dir@));
                assert(views(self.dirs@)[old(self).dirs@.len() as int] == dir@);
            }
            true
        }
    }

    /// Notes the given directories and hands back those that are new, in
    /// order: the caller creates these now.
    pub fn claim_all(&mut self, dirs: &Vec<String>) -> (missing: Vec<String>)
        ensures
            final(self).claimed_of(*old(self), views(dirs@), views(missing@)),
    {
        let mut missing: Vec<String> = Vec::new();
        let mut k: usize = 0;
        proof {
            assert(views(self.dirs@) =~= views(old(self).dirs@) + views(missing@));
        }
        while k < dirs.len()
            invariant
                k <= dirs.len(),
                views(self.dirs@) == views(old(self).dirs@) + views(missing@),
                forall|m: int|
                    0 <= m < missing@.len() ==> !views(old(self).dirs@).contains(
                        #[trigger] views(missing@)[m],
                    ) && views(dirs@).contains(views(missing@)[m]),
                forall|m: int| 0 <= m < k ==> views(self.dirs@).contains(#[trigger] views(dirs@)[m]),
            decreases dirs.len() - k,
        {
            let ghost seen = views(self.dirs@);
            let ghost found = views(missing@);
            let ghost dir = dirs@[k as int]@;
            proof {
                assert(views(dirs@)[k as int] == dir);
            }
            if self.claim(dirs[k].as_str()) {
                missing.push(dirs[k].clone());
                proof {
                    assert(views(missing@) =~= found.push(dir));
                    assert(views(self.dirs@) =~= views(old(self).dirs@) + views(missing@));
                    assert(!views(old(self).dirs@).contains(dir)) by {
                        if views(old(self).dirs@).contains(dir) {
                            let at = views(old(self).dirs@).index_of(dir);
                            assert(seen[at] == dir);
                        }
                    }
                }
            }
            proof {
                assert forall|m: int| 0 <= m < k + 1 implies views(self.dirs@).contains(
                    #[trigger] views(dirs@)[m],
                ) by {
                    if m < k {
                        let at = seen.index_of(views(dirs@)[m]);
                        assert(views(self.dirs@)[at] == views(dirs@)[m]);
                    }
                }
            }
            k = k + 1;
        }
        missing
    }

    /// `self` is `before` after the directories `asked` were noted, of which
    /// `missing` were new: the new ones were asked for and not noted before,
    /// they were appended, and all that were asked for are noted now.
    pub open spec fn claimed_of(
        &self,
        before: CreatedDirs,
        asked: Seq<Seq<char>>,
        missing: Seq<Seq<char>>,
    ) -> bool {
        &&& views(self.dirs@) == views(before.dirs@) + missing
        &&& forall|m: int|
            0 <= m < missing.len() ==> !views(before.dirs@).contains(#[trigger] missing[m])
                && asked.contains(missing[m])
        &&& forall|m: int| 0 <= m < asked.len() ==> views(self.dirs@).contains(#[trigger] asked[m])
    }

    /// The directories to create before writing `remote_file`: its parent
    /// directories below the first `base_len` bytes, shortest first, but for
    /// those that were tried before. All of them count as tried afterwards.
    pub fn missing_parents(&mut self, remote_file: &str, base_len: usize) -> (missing: Vec<String>)
        ensures
            exists|parents: Seq<String>|
                {
                    &&& #[trigger] are_prefixes(
                        parents,
                        vstd::utf8::encode_utf8(remote_file@),
                        directory_ends(
                            vstd::utf8::encode_utf8(remote_file@),
                            base_len as int,
                            vstd::utf8::encode_utf8(remote_file@).len() as int,
                        ),
                    )
                    &&& final(self).claimed_of(*old(self), views(parents), views(missing@))
                },
    {
        let parents = parent_directories(remote_file, base_len);
        self.claim_all(&parents)
    }
}

} // verus!
