//! The ledger of a sync attempt: which files were sent how far, so that an
//! interrupted upload can continue from a byte offset.

use crate::clock::parse_rfc3339;
use crate::clock::spec_parse_rfc3339;
use crate::clock::utc_now_parts;
use crate::clock::utc_timestamp;
use crate::ident::is_id_text;
use crate::ident::random_id;
use crate::paths::join_path;
use crate::paths::spec_join;
use crate::strmap::StrMap;
use crate::text::clone_opt;
use crate::text::lemma_bytes_le_transitive;
use crate::text::lemma_bytes_lt_asymmetric;
use crate::text::str_eq;
use crate::text::str_lt;
use crate::text::text_lt;
use vstd::prelude::*;
use vstd::string::StringExecFns;

verus! {

/// Where a file stands in its transfer.
#[derive(Debug, Clone, Copy, PartialEq, Eq, Structural)]
pub enum TransferStatus {
    Pending,
    InProgress,
    Paused,
    Completed,
    Failed,
}

/// Transfer state for a single file.
#[derive(Debug, Clone)]
pub struct FileTransferState {
    pub path: String,
    pub local_path: String,
    pub remote_path: String,
    pub total_size: u64,
    pub transferred_bytes: u64,
    pub checksum: Option<String>,
    pub started_at: String,
    pub updated_at: String,
    pub status: TransferStatus,
}

impl FileTransferState {
    /// No more bytes are recorded than the file has, and a completed file
    /// is recorded in full.
    pub open spec fn wf(&self) -> bool {
        &&& self.transferred_bytes <= self.total_size
        &&& self.status == TransferStatus::Completed ==> self.transferred_bytes == self.total_size
    }

    /// The file is a candidate for continuing from its recorded offset:
    /// some but not all of its bytes were sent and it is not completed.
    pub open spec fn spec_is_resumable(&self) -> bool {
        &&& self.status != TransferStatus::Completed
        &&& 0 < self.transferred_bytes < self.total_size
    }

    /// The file still has to be sent from the start or tried again.
    pub open spec fn spec_is_pending(&self) -> bool {
        self.status == TransferStatus::Pending || self.status == TransferStatus::Failed
    }

    /// Whether the file can continue from its recorded offset.
    #[verifier::when_used_as_spec(spec_is_resumable)]
    pub fn is_resumable(&self) -> (r: bool)
        ensures
            r == self.spec_is_resumable(),
    {
        self.status != TransferStatus::Completed && self.transferred_bytes > 0
            && self.transferred_bytes < self.total_size
    }

    /// Whether the file still has to be sent or tried again.
    #[verifier::when_used_as_spec(spec_is_pending)]
    pub fn is_pending(&self) -> (r: bool)
        ensures
            r == self.spec_is_pending(),
    {
        self.status == TransferStatus::Pending || self.status == TransferStatus::Failed
    }

    /// `self` is `before` with a new offset and status; what identifies the
    /// file is untouched.
    pub open spec fn follows(&self, before: FileTransferState, transferred: u64, status: TransferStatus) -> bool {
        &&& self.path == before.path
        &&& self.local_path == before.local_path
        &&& self.remote_path == before.remote_path
        &&& self.total_size == before.total_size
        &&& self.checksum == before.checksum
        &&& self.started_at == before.started_at
        &&& self.transferred_bytes == transferred
        &&& self.status == status
    }

    fn advanced(&self, transferred: u64, status: TransferStatus) -> (next: FileTransferState)
        ensures
            next.follows(*self, transferred, status),
    {
        FileTransferState {
            path: self.path.clone(),
            local_path: self.local_path.clone(),
            remote_path: self.remote_path.clone(),
            total_size: self.total_size,
            transferred_bytes: transferred,
            checksum: clone_opt(&self.checksum),
            started_at: self.started_at.clone(),
            updated_at: utc_timestamp(),
            status,
        }
    }
}

/// How to take up a file again, given the size of the remote object.
#[derive(Debug, Clone, Copy, PartialEq, Eq, Structural)]
pub enum ResumePlan {
    /// Remote and ledger agree: seek to `offset` and append the remainder.
    Append { offset: u64 },
    /// Nothing usable is on the remote side: send the file from byte zero.
    Restart,
}

impl ResumePlan {
    /// The byte at which sending starts.
    pub open spec fn spec_start_offset(&self) -> u64 {
        match self {
            ResumePlan::Append { offset } => *offset,
            ResumePlan::Restart => 0,
        }
    }

    /// The byte at which sending starts.
    #[verifier::when_used_as_spec(spec_start_offset)]
    pub fn start_offset(&self) -> (offset: u64)
        ensures
            offset == self.spec_start_offset(),
    {
        match self {
            ResumePlan::Append { offset } => *offset,
            ResumePlan::Restart => 0,
        }
    }
}

/// The plan for a recorded offset and a reported remote size: append when
/// something was recorded and the remote object has exactly that size,
/// restart otherwise.
pub open spec fn spec_plan_resume(recorded_offset: u64, remote_size: u64) -> ResumePlan {
    if recorded_offset > 0 && remote_size == recorded_offset {
        ResumePlan::Append { offset: recorded_offset }
    } else {
        ResumePlan::Restart
    }
}

/// Decides how to take up a file again. When the remote size differs from
/// the recorded offset the two sides have diverged, and the file is sent
/// again from the start.
#[verifier::when_used_as_spec(spec_plan_resume)]
pub fn plan_resume(recorded_offset: u64, remote_size: u64) -> (plan: ResumePlan)
    ensures
        plan == spec_plan_resume(recorded_offset, remote_size),
{
    if recorded_offset > 0 && remote_size == recorded_offset {
        ResumePlan::Append { offset: recorded_offset }
    } else {
        ResumePlan::Restart
    }
}

/// Transfer session for one sync attempt of a project.
#[derive(Debug, Clone)]
pub struct TransferSession {
    pub id: String,
    pub project_id: String,
    pub started_at: String,
    pub files: StrMap<FileTransferState>,
    pub completed: bool,
}

impl TransferSession {
    /// Every file is keyed by its path and has a valid state.
    pub open spec fn wf(&self) -> bool {
        &&& self.files.wf()
        &&& forall|i: int|
            0 <= i < self.files.spec_values().len() ==> {
                &&& (#[trigger] self.files.spec_values()[i]).wf()
                &&& self.files.spec_values()[i].path@ == self.files.spec_keys()[i]
            }
    }

    /// `self` differs from `before` at most in the state of `path`.
    pub open spec fn same_but(&self, before: TransferSession, path: Seq<char>) -> bool {
        &&& self.id == before.id
        &&& self.project_id == before.project_id
        &&& self.started_at == before.started_at
        &&& self.completed == before.completed
        &&& self.files@.remove(path) == before.files@.remove(path)
    }

    /// An empty session with a fresh identifier, started now. The
    /// identifier is random, in the hyphenated form.
    pub fn new(project_id: &str) -> (session: Self)
        ensures
            session.wf(),
            is_id_text(session.id@),
            session.project_id@ == project_id@,
            session.files@ == Map::<Seq<char>, FileTransferState>::empty(),
            !session.completed,
    {
        TransferSession::with_id(project_id, random_id(), utc_timestamp())
    }

    /// An empty session with the given identifier and start stamp.
    pub fn with_id(project_id: &str, id: String, started_at: String) -> (session: Self)
        ensures
            session.wf(),
            session.id == id,
            session.started_at == started_at,
            session.project_id@ == project_id@,
            session.files@ == Map::<Seq<char>, FileTransferState>::empty(),
            session.files.spec_keys().len() == 0,
            !session.completed,
    {
        TransferSession {
            id,
            project_id: String::from_str(project_id),
            started_at,
            files: StrMap::new(),
            completed: false,
        }
    }

    /// Registers a file as pending, with nothing sent. An earlier entry for
    /// the same path is replaced.
    pub fn add_file(&mut self, path: &str, local_path: &str, remote_path: &str, total_size: u64)
        requires
            old(self).wf(),
        ensures
            final(self).wf(),
            final(self).same_but(*old(self), path@),
            final(self).files@.contains_key(path@),
            final(self).files@[path@].path@ == path@,
            final(self).files@[path@].local_path@ == local_path@,
            final(self).files@[path@].remote_path@ == remote_path@,
            final(self).files@[path@].total_size == total_size,
            final(self).files@[path@].transferred_bytes == 0,
            final(self).files@[path@].checksum is None,
            final(self).files@[path@].status == TransferStatus::Pending,
            final(self).files@[path@].started_at == final(self).files@[path@].updated_at,
    {
        let now = utc_timestamp();
        let state = FileTransferState {
            path: String::from_str(path),
            local_path: String::from_str(local_path),
            remote_path: String::from_str(remote_path),
            total_size,
            transferred_bytes: 0,
            checksum: None,
            started_at: now.clone(),
            updated_at: now,
            status: TransferStatus::Pending,
        };
        proof {
            if self.files@.contains_key(path@) {
                self.files.lemma_domain();
                self.files.lemma_entry(self.files.spec_keys().index_of(path@));
            }
        }
        self.files.insert(String::from_str(path), state);
        proof {
            assert(self.files@.remove(path@) =~= old(self).files@.remove(path@));
        }
    }

    fn transition(&mut self, i: usize, transferred: u64, status: TransferStatus)
        requires
            old(self).wf(),
            i < old(self).files.spec_keys().len(),
            transferred <= old(self).files.spec_values()[i as int].total_size,
            status == TransferStatus::Completed ==> transferred == old(
                self,
            ).files.spec_values()[i as int].total_size,
        ensures
            final(self).wf(),
            final(self).same_but(*old(self), old(self).files.spec_keys()[i as int]),
            final(self).files.spec_keys() == old(self).files.spec_keys(),
            final(self).files@.contains_key(old(self).files.spec_keys()[i as int]),
            final(self).files@[old(self).files.spec_keys()[i as int]].follows(
                old(self).files.spec_values()[i as int],
                transferred,
                status,
            ),
    {
        let next = self.files.value_at(i).advanced(transferred, status);
        let _previous = self.files.put_at(i, next);
        proof {
            let key = old(self).files.spec_keys()[i as int];
            assert(self.files@.remove(key) =~= old(self).files@.remove(key));
        }
    }

    /// Records how far a file was sent and marks it as in progress.
    ///
    /// The offset is recorded when the file is in the ledger, is not yet
    /// completed, and has at least that many bytes; the session is left as
    /// it was otherwise. Tells whether the offset was recorded.
    pub fn update_progress(&mut self, path: &str, transferred: u64) -> (recorded: bool)
        requires
            old(self).wf(),
        ensures
            final(self).wf(),
            recorded <==> (old(self).files@.contains_key(path@) && old(self).files@[path@].status
                != TransferStatus::Completed && transferred <= old(
                self,
            ).files@[path@].total_size),
            !recorded ==> *final(self) == *old(self),
            recorded ==> {
                &&& final(self).same_but(*old(self), path@)
                &&& final(self).files.spec_keys() == old(self).files.spec_keys()
                &&& final(self).files@.contains_key(path@)
                &&& final(self).files@[path@].follows(
                    old(self).files@[path@],
                    transferred,
                    TransferStatus::InProgress,
                )
            },
    {
        match self.files.find(path) {
            Some(i) => {
                proof {
                    self.files.lemma_entry(i as int);
                }
                let state = self.files.value_at(i);
                if state.status != TransferStatus::Completed && transferred <= state.total_size {
                    self.transition(i, transferred, TransferStatus::InProgress);
                    true
                } else {
                    false
                }
            },
            None => false,
        }
    }

    /// Marks a file as sent in full. Tells whether the file is in the ledger.
    pub fn mark_completed(&mut self, path: &str) -> (recorded: bool)
        requires
            old(self).wf(),
        ensures
            final(self).wf(),
            recorded <==> old(self).files@.contains_key(path@),
            !recorded ==> *final(self) == *old(self),
            recorded ==> {
                &&& final(self).same_but(*old(self), path@)
                &&& final(self).files.spec_keys() == old(self).files.spec_keys()
                &&& final(self).files@.contains_key(path@)
                &&& final(self).files@[path@].follows(
                    old(self).files@[path@],
                    old(self).files@[path@].total_size,
                    TransferStatus::Completed,
                )
            },
    {
        match self.files.find(path) {
            Some(i) => {
                proof {
                    self.files.lemma_entry(i as int);
                }
                let total = self.files.value_at(i).total_size;
                self.transition(i, total, TransferStatus::Completed);
                true
            },
            None => false,
        }
    }

    /// Marks a file as failed, keeping its recorded offset for a retry.
    /// A completed file stays completed. Tells whether the mark was set.
    pub fn mark_failed(&mut self, path: &str) -> (recorded: bool)
        requires
            old(self).wf(),
        ensures
            final(self).wf(),
            recorded <==> (old(self).files@.contains_key(path@) && old(self).files@[path@].status
                != TransferStatus::Completed),
            !recorded ==> *final(self) == *old(self),
            recorded ==> {
                &&& final(self).same_but(*old(self), path@)
                &&& final(self).files.spec_keys() == old(self).files.spec_keys()
                &&& final(self).files@.contains_key(path@)
                &&& final(self).files@[path@].follows(
                    old(self).files@[path@],
                    old(self).files@[path@].transferred_bytes,
                    TransferStatus::Failed,
                )
            },
    {
        match self.files.find(path) {
            Some(i) => {
                proof {
                    self.files.lemma_entry(i as int);
                }
                let state = self.files.value_at(i);
                if state.status != TransferStatus::Completed {
                    let sent = state.transferred_bytes;
                    self.transition(i, sent, TransferStatus::Failed);
                    true
                } else {
                    false
                }
            },
            None => false,
        }
    }
}

/// The test for a file to be a candidate for continuation.
pub open spec fn resumable() -> spec_fn(FileTransferState) -> bool {
    |f: FileTransferState| f.spec_is_resumable()
}

/// The test for a file to be waiting for a first or another attempt.
pub open spec fn pending() -> spec_fn(FileTransferState) -> bool {
    |f: FileTransferState| f.spec_is_pending()
}

/// `refs` point at exactly the expected states, in order.
pub open spec fn refs_match(refs: Seq<&FileTransferState>, expected: Seq<FileTransferState>) -> bool {
    &&& refs.len() == expected.len()
    &&& forall|k: int| 0 <= k < refs.len() ==> *(#[trigger] refs[k]) == expected[k]
}

proof fn lemma_filter_step(
    states: Seq<FileTransferState>,
    i: int,
    test: spec_fn(FileTransferState) -> bool,
)
    requires
        0 <= i < states.len(),
    ensures
        states.take(i + 1).filter(test) == if test(states[i]) {
            states.take(i).filter(test).push(states[i])
        } else {
            states.take(i).filter(test)
        },
{
    assert(states.take(i + 1) =~= states.take(i).push(states[i]));
    states.take(i).lemma_filter_push(states[i], test);
}

impl TransferSession {
    /// The files that can continue from a recorded offset, in ledger order:
    /// not completed, with some but not all bytes sent.
    pub fn get_resumable_files(&self) -> (files: Vec<&FileTransferState>)
        requires
            self.wf(),
        ensures
            refs_match(files@, self.files.spec_values().filter(resumable())),
    {
        let mut files: Vec<&FileTransferState> = Vec::new();
        let count = self.files.len();
        let mut i: usize = 0;
        while i < count
            invariant
                i <= count,
                self.wf(),
                count == self.files.spec_values().len(),
                refs_match(files@, self.files.spec_values().take(i as int).filter(resumable())),
            decreases count - i,
        {
            let state = self.files.value_at(i);
            proof {
                lemma_filter_step(self.files.spec_values(), i as int, resumable());
            }
            if state.is_resumable() {
                files.push(state);
            }
            i = i + 1;
        }
        assert(self.files.spec_values().take(i as int) =~= self.files.spec_values());
        files
    }

    /// The files that are waiting for a first attempt or for another one
    /// after a failure, in ledger order.
    pub fn get_pending_files(&self) -> (files: Vec<&FileTransferState>)
        requires
            self.wf(),
        ensures
            refs_match(files@, self.files.spec_values().filter(pending())),
    {
        let mut files: Vec<&FileTransferState> = Vec::new();
        let count = self.files.len();
        let mut i: usize = 0;
        while i < count
            invariant
                i <= count,
                self.wf(),
                count == self.files.spec_values().len(),
                refs_match(files@, self.files.spec_values().take(i as int).filter(pending())),
            decreases count - i,
        {
            let state = self.files.value_at(i);
            proof {
                lemma_filter_step(self.files.spec_values(), i as int, pending());
            }
            if state.is_pending() {
                files.push(state);
            }
            i = i + 1;
        }
        assert(self.files.spec_values().take(i as int) =~= self.files.spec_values());
        files
    }

    /// Whether every file of the session is completed. An empty session is
    /// complete.
    pub fn is_complete(&self) -> (complete: bool)
        requires
            self.wf(),
        ensures
            complete <==> forall|i: int|
                0 <= i < self.files.spec_values().len() ==> (
                #[trigger] self.files.spec_values()[i]).status == TransferStatus::Completed,
    {
        let count = self.files.len();
        let mut i: usize = 0;
        while i < count
            invariant
                i <= count,
                self.wf(),
                count == self.files.spec_values().len(),
                forall|k: int|
                    0 <= k < i ==> (#[trigger] self.files.spec_values()[k]).status
                        == TransferStatus::Completed,
            decreases count - i,
        {
            if self.files.value_at(i).status != TransferStatus::Completed {
                return false;
            }
            i = i + 1;
        }
        true
    }

    /// Prepares a file for being taken up again, given the size of the
    /// remote object: decides between appending and restarting, records the
    /// offset at which sending starts, and marks the file as in progress.
    /// There is no plan for a file that is not in the ledger or is completed.
    pub fn begin_resume(&mut self, path: &str, remote_size: u64) -> (plan: Option<ResumePlan>)
        requires
            old(self).wf(),
        ensures
            final(self).wf(),
            plan is Some <==> (old(self).files@.contains_key(path@) && old(
                self,
            ).files@[path@].status != TransferStatus::Completed),
            plan is None ==> *final(self) == *old(self),
            plan matches Some(p) ==> {
                &&& p == spec_plan_resume(old(self).files@[path@].transferred_bytes, remote_size)
                &&& final(self).same_but(*old(self), path@)
                &&& final(self).files.spec_keys() == old(self).files.spec_keys()
                &&& final(self).files@.contains_key(path@)
                &&& final(self).files@[path@].follows(
                    old(self).files@[path@],
                    p.spec_start_offset(),
                    TransferStatus::InProgress,
                )
            },
    {
        match self.files.find(path) {
            Some(i) => {
                proof {
                    self.files.lemma_entry(i as int);
                }
                let state = self.files.value_at(i);
                if state.status != TransferStatus::Completed {
                    let plan = plan_resume(state.transferred_bytes, remote_size);
                    self.transition(i, plan.start_offset(), TransferStatus::InProgress);
                    Some(plan)
                } else {
                    None
                }
            },
            None => None,
        }
    }
}

/// All sessions of an installation, keyed by session identifier.
#[derive(Debug, Clone)]
pub struct TransferSessionStore {
    pub sessions: StrMap<TransferSession>,
}

/// The session belongs to the project and is still open.
pub open spec fn is_open_for(session: TransferSession, project: Seq<char>) -> bool {
    session.project_id@ == project && !session.completed
}

/// The position of the open session of a project that started last. Among
/// sessions with the same start stamp the later position wins.
pub open spec fn latest_open(sessions: Seq<TransferSession>, project: Seq<char>) -> Option<int>
    decreases sessions.len(),
{
    if sessions.len() == 0 {
        None
    } else {
        let rest = latest_open(sessions.drop_last(), project);
        if is_open_for(sessions.last(), project) && (rest is None || !text_lt(
            sessions.last().started_at@,
            sessions[rest->0].started_at@,
        )) {
            Some(sessions.len() - 1)
        } else {
            rest
        }
    }
}

/// The instant `at` lies after the instant that is `hours` hours before
/// `now`. Instants are whole seconds since the Unix epoch and nanoseconds
/// within the second.
pub open spec fn is_after_cutoff(at: (i64, u32), now: (i64, u32), hours: i64) -> bool {
    let cutoff = now.0 - 3600 * hours;
    at.0 > cutoff || (at.0 == cutoff && at.1 > now.1)
}

/// A session survives a cleanup: it is still open, or it started after the
/// cutoff, or its start stamp cannot be read.
pub open spec fn survives(session: TransferSession, now: (i64, u32), hours: i64) -> bool {
    match spec_parse_rfc3339(session.started_at@) {
        Some(at) => is_after_cutoff(at, now, hours) || !session.completed,
        None => true,
    }
}

/// The test on a session identifier for its session to survive a cleanup.
pub open spec fn key_survives(
    sessions: Map<Seq<char>, TransferSession>,
    now: (i64, u32),
    hours: i64,
) -> spec_fn(Seq<char>) -> bool {
    |id: Seq<char>| survives(sessions[id], now, hours)
}

/// `after` is `before` without the completed sessions that started `hours`
/// hours before `now` or earlier: the identifiers that survive stay in
/// their order, each with its session as it was.
pub open spec fn is_cleaned_at(
    before: TransferSessionStore,
    after: TransferSessionStore,
    now: (i64, u32),
    hours: i64,
) -> bool {
    &&& after.sessions.spec_keys() == before.sessions.spec_keys().filter(
        key_survives(before.sessions@, now, hours),
    )
    &&& forall|id: Seq<char>| #[trigger]
        after.sessions@.contains_key(id) ==> before.sessions@.contains_key(id)
            && after.sessions@[id] == before.sessions@[id]
}

fn session_survives(session: &TransferSession, now: (i64, u32), hours: i64) -> (keep: bool)
    ensures
        keep == survives(*session, now, hours),
{
    match parse_rfc3339(session.started_at.as_str()) {
        Some(at) => {
            let cutoff: i128 = now.0 as i128 - 3600 * (hours as i128);
            let after = (at.0 as i128) > cutoff || (at.0 as i128 == cutoff && at.1 > now.1);
            after || !session.completed
        },
        None => true,
    }
}

impl Default for TransferSessionStore {
    fn default() -> (store: Self)
        ensures
            store.wf(),
            store.sessions@ == Map::<Seq<char>, TransferSession>::empty(),
    {
        TransferSessionStore { sessions: StrMap::new() }
    }
}

impl TransferSessionStore {
    /// Every session is keyed by its identifier and is itself well formed.
    pub open spec fn wf(&self) -> bool {
        &&& self.sessions.wf()
        &&& forall|i: int|
            0 <= i < self.sessions.spec_values().len() ==> {
                &&& (#[trigger] self.sessions.spec_values()[i]).wf()
                &&& self.sessions.spec_values()[i].id@ == self.sessions.spec_keys()[i]
            }
    }

    /// An empty store.
    pub fn new() -> (store: Self)
        ensures
            store.wf(),
            store.sessions@ == Map::<Seq<char>, TransferSession>::empty(),
    {
        TransferSessionStore { sessions: StrMap::new() }
    }

    fn find_latest_open(&self, project_id: &str) -> (found: Option<usize>)
        requires
            self.wf(),
        ensures
            match found {
                Some(i) => latest_open(self.sessions.spec_values(), project_id@) == Some(i as int)
                    && i < self.sessions.spec_values().len(),
                None => latest_open(self.sessions.spec_values(), project_id@) is None,
            },
    {
        let count = self.sessions.len();
        let mut best: Option<usize> = None;
        let mut i: usize = 0;
        while i < count
            invariant
                i <= count,
                self.wf(),
                count == self.sessions.spec_values().len(),
                match best {
                    Some(b) => b < i && latest_open(
                        self.sessions.spec_values().take(i as int),
                        project_id@,
                    ) == Some(b as int),
                    None => latest_open(self.sessions.spec_values().take(i as int), project_id@)
                        is None,
                },
            decreases count - i,
        {
            let session = self.sessions.value_at(i);
            proof {
                let all = self.sessions.spec_values();
                assert(all.take(i + 1).drop_last() =~= all.take(i as int));
                assert(all.take(i + 1).last() == all[i as int]);
            }
            if str_eq(session.project_id.as_str(), project_id) && !session.completed {
                let newer = match best {
                    Some(b) => !str_lt(
                        session.started_at.as_str(),
                        self.sessions.value_at(b).started_at.as_str(),
                    ),
                    None => true,
                };
                if newer {
                    best = Some(i);
                }
            }
            i = i + 1;
        }
        assert(self.sessions.spec_values().take(i as int) =~= self.sessions.spec_values());
        best
    }

    /// The open session of a project that started last.
    pub fn get_session(&self, project_id: &str) -> (found: Option<&TransferSession>)
        requires
            self.wf(),
        ensures
            match found {
                Some(s) => latest_open(self.sessions.spec_values(), project_id@) is Some && *s
                    == self.sessions.spec_values()[latest_open(
                    self.sessions.spec_values(),
                    project_id@,
                )->0],
                None => latest_open(self.sessions.spec_values(), project_id@) is None,
            },
    {
        match self.find_latest_open(project_id) {
            Some(i) => Some(self.sessions.value_at(i)),
            None => None,
        }
    }

    /// A mutable borrow of the open session of a project that started last.
    /// The other sessions stay as they are.
    pub fn get_session_mut(&mut self, project_id: &str) -> (found: Option<&mut TransferSession>)
        requires
            old(self).wf(),
        ensures
            match found {
                Some(s) => {
                    let at = latest_open(old(self).sessions.spec_values(), project_id@);
                    &&& at is Some
                    &&& *s == old(self).sessions.spec_values()[at->0]
                    &&& final(self).sessions.spec_keys() == old(self).sessions.spec_keys()
                    &&& final(self).sessions.spec_values() == old(self).sessions.spec_values().update(
                        at->0,
                        *final(s),
                    )
                },
                None => latest_open(old(self).sessions.spec_values(), project_id@) is None
                    && *final(self) == *old(self),
            },
    {
        match self.find_latest_open(project_id) {
            Some(i) => Some(self.sessions.value_at_mut(i)),
            None => None,
        }
    }

    /// Opens a new session for a project and returns its identifier, a
    /// random token in the hyphenated form. The session is filed under it.
    pub fn create_session(&mut self, project_id: &str) -> (id: String)
        requires
            old(self).wf(),
        ensures
            final(self).wf(),
            is_id_text(id@),
            final(self).sessions@.contains_key(id@),
            final(self).sessions@.remove(id@) == old(self).sessions@.remove(id@),
            final(self).sessions@[id@].id@ == id@,
            final(self).sessions@[id@].project_id@ == project_id@,
            !final(self).sessions@[id@].completed,
            final(self).sessions@[id@].files@ == Map::<Seq<char>, FileTransferState>::empty(),
    {
        let session = TransferSession::new(project_id);
        self.insert_session(session)
    }

    /// Files a session under its identifier, replacing any session that has
    /// the same one, and returns the identifier.
    pub fn insert_session(&mut self, session: TransferSession) -> (id: String)
        requires
            old(self).wf(),
            session.wf(),
        ensures
            final(self).wf(),
            id@ == session.id@,
            final(self).sessions@ == old(self).sessions@.insert(session.id@, session),
            final(self).sessions@.contains_key(id@),
            final(self).sessions@.remove(id@) == old(self).sessions@.remove(id@),
    {
        let id = session.id.clone();
        proof {
            if self.sessions@.contains_key(id@) {
                self.sessions.lemma_domain();
                self.sessions.lemma_entry(self.sessions.spec_keys().index_of(id@));
            }
        }
        self.sessions.insert(session.id.clone(), session);
        proof {
            assert(self.sessions@.remove(id@) =~= old(self).sessions@.remove(id@));
        }
        id
    }

    /// Marks a session as completed; it stays in the store. Tells whether
    /// the session exists.
    pub fn complete_session(&mut self, session_id: &str) -> (found: bool)
        requires
            old(self).wf(),
        ensures
            final(self).wf(),
            found <==> old(self).sessions@.contains_key(session_id@),
            !found ==> *final(self) == *old(self),
            found ==> {
                &&& final(self).sessions.spec_keys() == old(self).sessions.spec_keys()
                &&& final(self).sessions@.contains_key(session_id@)
                &&& final(self).sessions@.remove(session_id@) == old(self).sessions@.remove(
                    session_id@,
                )
                &&& final(self).sessions@[session_id@].completed
                &&& final(self).sessions@[session_id@].id == old(self).sessions@[session_id@].id
                &&& final(self).sessions@[session_id@].project_id == old(
                    self,
                ).sessions@[session_id@].project_id
                &&& final(self).sessions@[session_id@].started_at == old(
                    self,
                ).sessions@[session_id@].started_at
                &&& final(self).sessions@[session_id@].files == old(
                    self,
                ).sessions@[session_id@].files
            },
    {
        match self.sessions.find(session_id) {
            Some(i) => {
                proof {
                    self.sessions.lemma_entry(i as int);
                }
                let session = self.sessions.value_at_mut(i);
                session.completed = true;
                proof {
                    self.sessions.lemma_entry(i as int);
                    self.sessions.lemma_domain();
                    old(self).sessions.lemma_domain();
                    assert forall|k: Seq<char>| #[trigger]
                        self.sessions@.remove(session_id@).contains_key(k) implies self.sessions@.remove(
                        session_id@,
                    )[k] == old(self).sessions@.remove(session_id@)[k] by {
                        let j = self.sessions.spec_keys().index_of(k);
                        self.sessions.lemma_entry(j);
                        old(self).sessions.lemma_entry(j);
                    }
                    assert(self.sessions@.remove(session_id@) =~= old(self).sessions@.remove(
                        session_id@,
                    ));
                }
                true
            },
            None => false,
        }
    }

    /// Removes the completed sessions that started `max_age_hours` hours
    /// before `now` or earlier. Open sessions and sessions whose start stamp
    /// cannot be read stay. The sessions that stay keep their order.
    pub fn cleanup_sessions_before(&mut self, now: (i64, u32), max_age_hours: i64)
        requires
            old(self).wf(),
        ensures
            final(self).wf(),
            final(self).sessions.spec_keys() == old(self).sessions.spec_keys().filter(
                key_survives(old(self).sessions@, now, max_age_hours),
            ),
            forall|id: Seq<char>| #[trigger]
                final(self).sessions@.contains_key(id) ==> old(self).sessions@.contains_key(id)
                    && final(self).sessions@[id] == old(self).sessions@[id],
    {
        let ghost old_keys = self.sessions.spec_keys();
        let ghost old_values = self.sessions.spec_values();
        let ghost old_map = self.sessions@;
        let ghost test = key_survives(old_map, now, max_age_hours);
        let ghost mut j: int = 0;
        let mut i: usize = 0;
        proof {
            assert(old_keys.take(0).filter(test) =~= Seq::<Seq<char>>::empty()) by {
                old_keys.take(0).lemma_filter_len(test);
            }
            assert(old_keys.skip(0) =~= old_keys);
            assert forall|m: int| 0 <= m < old_keys.len() implies old_map.contains_key(
                #[trigger] old_keys[m],
            ) && old_values[m] == old_map[old_keys[m]] by {
                self.sessions.lemma_entry(m);
            }
        }
        while i < self.sessions.len()
            invariant
                self.wf(),
                old(self).wf(),
                old_keys == old(self).sessions.spec_keys(),
                old_values == old(self).sessions.spec_values(),
                old_map == old(self).sessions@,
                test == key_survives(old_map, now, max_age_hours),
                0 <= j <= old_keys.len(),
                i == old_keys.take(j).filter(test).len(),
                self.sessions.spec_keys() == old_keys.take(j).filter(test) + old_keys.skip(j),
                forall|m: int|
                    0 <= m < self.sessions.spec_keys().len() ==> old_map.contains_key(
                        #[trigger] self.sessions.spec_keys()[m],
                    ) && self.sessions.spec_values()[m] == old_map[self.sessions.spec_keys()[m]],
                forall|m: int|
                    0 <= m < old_keys.len() ==> old_map.contains_key(#[trigger] old_keys[m])
                        && old_values[m] == old_map[old_keys[m]],
            decreases self.sessions.spec_keys().len() - i,
        {
            let ghost done = old_keys.take(j).filter(test);
            proof {
                assert(self.sessions.spec_keys()[i as int] == old_keys.skip(j)[0]);
                assert(j < old_keys.len());
                assert(old_keys.take(j + 1) =~= old_keys.take(j).push(old_keys[j]));
                old_keys.take(j).lemma_filter_push(old_keys[j], test);
                assert(old_keys.skip(j + 1) =~= old_keys.skip(j).drop_first());
            }
            let keep = session_survives(self.sessions.value_at(i), now, max_age_hours);
            proof {
                assert(self.sessions.spec_values()[i as int] == old_map[old_keys[j]]);
                assert(keep == test(old_keys[j]));
            }
            if keep {
                proof {
                    assert(self.sessions.spec_keys() =~= done.push(old_keys[j]) + old_keys.skip(
                        j + 1,
                    ));
                    j = j + 1;
                }
                i = i + 1;
            } else {
                let ghost before_keys = self.sessions.spec_keys();
                let ghost before_values = self.sessions.spec_values();
                let _removed = self.sessions.remove_at(i);
                proof {
                    assert(self.sessions.spec_keys() =~= done + old_keys.skip(j + 1));
                    assert forall|m: int|
                        0 <= m < self.sessions.spec_keys().len() implies old_map.contains_key(
                        #[trigger] self.sessions.spec_keys()[m],
                    ) && self.sessions.spec_values()[m] == old_map[self.sessions.spec_keys()[m]] by {
                        let m0 = if m < i { m } else { m + 1 };
                        assert(self.sessions.spec_keys()[m] == before_keys[m0]);
                        assert(self.sessions.spec_values()[m] == before_values[m0]);
                    }
                    assert forall|m: int| 0 <= m < self.sessions.spec_values().len() implies {
                        &&& (#[trigger] self.sessions.spec_values()[m]).wf()
                        &&& self.sessions.spec_values()[m].id@ == self.sessions.spec_keys()[m]
                    } by {
                        let m0 = if m < i { m } else { m + 1 };
                        assert(self.sessions.spec_keys()[m] == before_keys[m0]);
                        assert(self.sessions.spec_values()[m] == before_values[m0]);
                        assert(before_values[m0].wf());
                    }
                    j = j + 1;
                }
            }
        }
        proof {
            assert(j == old_keys.len()) by {
                old_keys.take(j).lemma_filter_len(test);
                if j < old_keys.len() {
                    assert(self.sessions.spec_keys().len() == i + (old_keys.len() - j));
                }
            }
            assert(old_keys.take(j) =~= old_keys);
            assert(old_keys.skip(j) =~= Seq::<Seq<char>>::empty());
            assert(self.sessions.spec_keys() =~= old_keys.filter(test));
            assert forall|id: Seq<char>| #[trigger]
                self.sessions@.contains_key(id) implies old_map.contains_key(id)
                && self.sessions@[id] == old_map[id] by {
                self.sessions.lemma_domain();
                let m = self.sessions.spec_keys().index_of(id);
                self.sessions.lemma_entry(m);
            }
        }
    }

    /// Removes the completed sessions that started `max_age_hours` hours
    /// ago or earlier, by the current time.
    ///
    /// The present instant comes from the clock; whatever it is, the store
    /// is cleaned as `cleanup_sessions_before` cleans it at that instant.
    pub fn cleanup_old_sessions(&mut self, max_age_hours: i64)
        requires
            old(self).wf(),
        ensures
            final(self).wf(),
            exists|now: (i64, u32)| #[trigger]
                is_cleaned_at(*old(self), *final(self), now, max_age_hours),
            forall|id: Seq<char>| #[trigger]
                final(self).sessions@.contains_key(id) ==> old(self).sessions@.contains_key(id)
                    && final(self).sessions@[id] == old(self).sessions@[id],
            forall|id: Seq<char>|
                old(self).sessions@.contains_key(id) && !(#[trigger] old(
                    self,
                ).sessions@[id]).completed ==> final(self).sessions@.contains_key(id),
    {
        let now = utc_now_parts();
        self.cleanup_sessions_before(now, max_age_hours);
        proof {
            assert(is_cleaned_at(*old(self), *self, now, max_age_hours));
            let test = key_survives(old(self).sessions@, now, max_age_hours);
            let old_keys = old(self).sessions.spec_keys();
            assert forall|id: Seq<char>|
                old(self).sessions@.contains_key(id) && !(#[trigger] old(
                    self,
                ).sessions@[id]).completed implies self.sessions@.contains_key(id) by {
                old(self).sessions.lemma_domain();
                self.sessions.lemma_domain();
                let m = old_keys.index_of(id);
                assert(test(old_keys[m]));
                old_keys.lemma_filter_contains_rev(test, id);
            }
        }
    }
}

/// Where the sessions of an installation are kept: in one file in the
/// application data.
pub fn get_sessions_path(app_data_dir: &str) -> (path: String)
    ensures
        path@ == spec_join(app_data_dir@, "transfer_sessions.json"@),
{
    join_path(app_data_dir, "transfer_sessions.json")
}

/// The session that `latest_open` picks is open, belongs to the project,
/// and no open session of the project started after it. There is none
/// exactly when the project has no open session.
pub proof fn lemma_latest_open_is_newest(sessions: Seq<TransferSession>, project: Seq<char>)
    ensures
        match latest_open(sessions, project) {
            Some(i) => {
                &&& 0 <= i < sessions.len()
                &&& is_open_for(sessions[i], project)
                &&& forall|j: int|
                    0 <= j < sessions.len() && is_open_for(#[trigger] sessions[j], project)
                        ==> !text_lt(sessions[i].started_at@, sessions[j].started_at@)
            },
            None => forall|j: int|
                0 <= j < sessions.len() ==> !is_open_for(#[trigger] sessions[j], project),
        },
    decreases sessions.len(),
{
    if sessions.len() > 0 {
        let rest = sessions.drop_last();
        let last = sessions.last();
        lemma_latest_open_is_newest(rest, project);
        let before = latest_open(rest, project);
        match latest_open(sessions, project) {
            Some(i) => {
                assert forall|j: int|
                    0 <= j < sessions.len() && is_open_for(
                        #[trigger] sessions[j],
                        project,
                    ) implies !text_lt(sessions[i].started_at@, sessions[j].started_at@) by {
                    let chosen = vstd::utf8::encode_utf8(sessions[i].started_at@);
                    let other = vstd::utf8::encode_utf8(sessions[j].started_at@);
                    lemma_bytes_lt_asymmetric(chosen, chosen);
                    if j < rest.len() {
                        assert(rest[j] == sessions[j]);
                        if before is Some {
                            let b = before->0;
                            assert(rest[b] == sessions[b]);
                            let held = vstd::utf8::encode_utf8(sessions[b].started_at@);
                            if i == sessions.len() - 1 {
                                lemma_bytes_le_transitive(other, held, chosen);
                            }
                        }
                    } else if i < sessions.len() - 1 {
                        lemma_bytes_lt_asymmetric(other, chosen);
                    }
                }
            },
            None => {
                assert forall|j: int| 0 <= j < sessions.len() implies !is_open_for(
                    #[trigger] sessions[j],
                    project,
                ) by {
                    if j < rest.len() {
                        assert(rest[j] == sessions[j]);
                    }
                }
            },
        }
    }
}

} // verus!
