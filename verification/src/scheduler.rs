//! Schedules for automatic syncs, one per project, with cron expressions.

use crate::clock::utc_now_parts;
use crate::strmap::StrMap;
use crate::text::append_decimal;
use crate::text::clone_opt;
use crate::text::spec_decimal;
use crate::text::views;
use std::str::FromStr;
use vstd::prelude::*;
use vstd::string::StringExecFns;

verus! {

/// How often a project is synced.
#[derive(Debug, Clone, Copy, PartialEq, Eq, Structural)]
pub enum ScheduleType {
    Hourly,
    Daily,
    Weekly,
    Monthly,
    Custom,
}

/// How the last scheduled sync went.
#[derive(Debug, Clone)]
pub struct ScheduleResult {
    pub success: bool,
    pub timestamp: String,
    pub files_synced: usize,
    pub error: Option<String>,
}

/// Schedule configuration for a project.
#[derive(Debug, Clone)]
pub struct SyncSchedule {
    pub project_id: String,
    pub enabled: bool,
    pub schedule_type: ScheduleType,
    pub cron_expression: Option<String>,
    pub next_run: Option<String>,
    pub last_run: Option<String>,
    pub last_result: Option<ScheduleResult>,
}

/// Emitted when a scheduled sync should run.
#[derive(Debug, Clone)]
pub struct ScheduleEvent {
    pub project_id: String,
    pub schedule_type: String,
    pub timestamp: u64,
}

/// Why a schedule was refused.
#[derive(Debug, Clone, Copy, PartialEq, Eq, Structural)]
pub enum ScheduleError {
    /// The cron expression cannot be parsed.
    InvalidCron,
    /// The project has no schedule.
    NotFound,
}

/// The day of the week used when none is given: Monday.
pub const DEFAULT_DAY_OF_WEEK: u32 = 1;

/// The cron expression of a schedule type at the given time of day.
pub open spec fn spec_to_cron(kind: ScheduleType, hour: u32, minute: u32, day_of_week: Option<u32>) -> Seq<
    char,
> {
    match kind {
        ScheduleType::Hourly => spec_decimal(minute as nat) + " * * * *"@,
        ScheduleType::Daily => spec_decimal(minute as nat) + " "@ + spec_decimal(hour as nat)
            + " * * *"@,
        ScheduleType::Weekly => spec_decimal(minute as nat) + " "@ + spec_decimal(hour as nat)
            + " * * "@ + spec_decimal(
            (match day_of_week {
                Some(d) => d,
                None => DEFAULT_DAY_OF_WEEK,
            }) as nat,
        ),
        ScheduleType::Monthly => spec_decimal(minute as nat) + " "@ + spec_decimal(hour as nat)
            + " 1 * *"@,
        ScheduleType::Custom => Seq::empty(),
    }
}

impl ScheduleType {
    /// The predefined cron expression of this schedule type: minute, hour,
    /// day of month, month, day of week. A custom schedule has none.
    pub fn to_cron(&self, hour: u32, minute: u32, day_of_week: Option<u32>) -> (cron: String)
        ensures
            cron@ == spec_to_cron(*self, hour, minute, day_of_week),
    {
        let mut cron = String::new();
        match self {
            ScheduleType::Hourly => {
                append_decimal(&mut cron, minute);
                cron.append(" * * * *");
            },
            ScheduleType::Daily => {
                append_decimal(&mut cron, minute);
                cron.append(" ");
                append_decimal(&mut cron, hour);
                cron.append(" * * *");
            },
            ScheduleType::Weekly => {
                let dow: u32 = match day_of_week {
                    Some(d) => d,
                    None => DEFAULT_DAY_OF_WEEK,
                };
                append_decimal(&mut cron, minute);
                cron.append(" ");
                append_decimal(&mut cron, hour);
                cron.append(" * * ");
                append_decimal(&mut cron, dow);
            },
            ScheduleType::Monthly => {
                append_decimal(&mut cron, minute);
                cron.append(" ");
                append_decimal(&mut cron, hour);
                cron.append(" 1 * *");
            },
            ScheduleType::Custom => {},
        }
        assert(cron@ =~= spec_to_cron(*self, hour, minute, day_of_week));
        cron
    }
}

/// Makes `cron::Schedule` known as an opaque type: a parsed expression
/// that is only carried from the parser to the search for its next time.
#[verifier::external_type_specification]
#[verifier::external_body]
pub struct ExCronSchedule(cron::Schedule);

/// Whether the `cron` crate accepts the text as a schedule expression.
pub uninterp spec fn spec_cron_is_valid(expression: Seq<char>) -> bool;

/// Calls `cron::Schedule::from_str`. The contract names the outcome: the
/// text parses or it does not, and that depends on the text alone.
#[verifier::external_body]
fn parse_cron(expression: &str) -> (parsed: Option<cron::Schedule>)
    ensures
        parsed is Some <==> spec_cron_is_valid(expression@),
{
    match cron::Schedule::from_str(expression) {
        Ok(schedule) => Some(schedule),
        Err(_) => None,
    }
}

/// Calls `cron::Schedule::upcoming` for UTC and takes its first instant, if
/// there is one, in three forms: rendered with
/// `DateTime::format("%Y-%m-%dT%H:%M:%SZ")`, as whole seconds since the
/// Unix epoch (`DateTime::timestamp`), and as nanoseconds within the second
/// (`DateTime::timestamp_subsec_nanos`). The instant depends on the clock,
/// so nothing is promised about it.
#[verifier::external_body]
fn next_occurrence(schedule: &cron::Schedule) -> (next: Option<(String, i64, u32)>) {
    match schedule.upcoming(chrono::Utc).next() {
        Some(at) => Some(
            (
                at.format("%Y-%m-%dT%H:%M:%SZ").to_string(),
                at.timestamp(),
                at.timestamp_subsec_nanos(),
            ),
        ),
        None => None,
    }
}

fn copy_result(result: &Option<ScheduleResult>) -> (copy: Option<ScheduleResult>)
    ensures
        copy == *result,
{
    match result {
        Some(r) => Some(
            ScheduleResult {
                success: r.success,
                timestamp: r.timestamp.clone(),
                files_synced: r.files_synced,
                error: clone_opt(&r.error),
            },
        ),
        None => None,
    }
}

fn copy_schedule(schedule: &SyncSchedule) -> (copy: SyncSchedule)
    ensures
        copy == *schedule,
{
    SyncSchedule {
        project_id: schedule.project_id.clone(),
        enabled: schedule.enabled,
        schedule_type: schedule.schedule_type,
        cron_expression: clone_opt(&schedule.cron_expression),
        next_run: clone_opt(&schedule.next_run),
        last_run: clone_opt(&schedule.last_run),
        last_result: copy_result(&schedule.last_result),
    }
}

/// The nanoseconds from the instant `now` to the instant `next`. Instants
/// are whole seconds since the Unix epoch and nanoseconds within the second.
pub open spec fn nanos_until(next: (i64, u32), now: (i64, u32)) -> int {
    (next.0 - now.0) * 1_000_000_000 + (next.1 - now.1)
}

/// A schedule is due when its next run is less than a minute away.
pub open spec fn spec_is_due(next: (i64, u32), now: (i64, u32)) -> bool {
    -60_000_000_000 < nanos_until(next, now) < 60_000_000_000
}

/// Whether a schedule whose next run is at `next` is due at `now`.
#[verifier::when_used_as_spec(spec_is_due)]
pub fn is_due(next: (i64, u32), now: (i64, u32)) -> (due: bool)
    ensures
        due == spec_is_due(next, now),
{
    let gap: i128 = (next.0 as i128 - now.0 as i128) * 1_000_000_000 + (next.1 as i128
        - now.1 as i128);
    -60_000_000_000 < gap && gap < 60_000_000_000
}

/// The schedules of all projects and whether the scheduler is running.
#[derive(Debug, Clone)]
pub struct SchedulerState {
    pub schedules: StrMap<SyncSchedule>,
    pub running: bool,
}

/// `after` is `before` but for the time of the next run.
pub open spec fn same_but_next_run(after: SyncSchedule, before: SyncSchedule) -> bool {
    &&& after.project_id == before.project_id
    &&& after.enabled == before.enabled
    &&& after.schedule_type == before.schedule_type
    &&& after.cron_expression == before.cron_expression
    &&& after.last_run == before.last_run
    &&& after.last_result == before.last_result
}

impl SchedulerState {
    /// Every schedule is keyed by its project.
    pub open spec fn wf(&self) -> bool {
        &&& self.schedules.wf()
        &&& forall|i: int|
            0 <= i < self.schedules.spec_values().len() ==> (
            #[trigger] self.schedules.spec_values()[i]).project_id@
                == self.schedules.spec_keys()[i]
    }

    /// No schedules, not running.
    pub fn new() -> (state: Self)
        ensures
            state.wf(),
            state.schedules@ == Map::<Seq<char>, SyncSchedule>::empty(),
            !state.running,
    {
        SchedulerState { schedules: StrMap::new(), running: false }
    }
}

/// Marks the scheduler as running. Tells whether it was started by this
/// call, that is, whether it was not running before.
pub fn start_scheduler(state: &mut SchedulerState) -> (started: bool)
    ensures
        started == !old(state).running,
        final(state).running,
        final(state).schedules == old(state).schedules,
{
    if state.running {
        false
    } else {
        state.running = true;
        true
    }
}

/// Marks the scheduler as stopped.
pub fn stop_scheduler(state: &mut SchedulerState)
    ensures
        !final(state).running,
        final(state).schedules == old(state).schedules,
{
    state.running = false;
}

fn put_schedule(state: &mut SchedulerState, schedule: SyncSchedule)
    requires
        old(state).wf(),
    ensures
        final(state).wf(),
        final(state).running == old(state).running,
        final(state).schedules@ == old(state).schedules@.insert(schedule.project_id@, schedule),
{
    proof {
        if state.schedules@.contains_key(schedule.project_id@) {
            state.schedules.lemma_domain();
            state.schedules.lemma_entry(
                state.schedules.spec_keys().index_of(schedule.project_id@),
            );
        }
    }
    state.schedules.insert(schedule.project_id.clone(), schedule);
}

/// Adds or replaces the schedule of a project.
///
/// A schedule whose cron expression cannot be parsed is refused. Otherwise
/// the time of its next run is renewed, if the expression has one, and the
/// schedule is stored and returned.
pub fn set_schedule(state: &mut SchedulerState, schedule: SyncSchedule) -> (result: Result<
    SyncSchedule,
    ScheduleError,
>)
    requires
        old(state).wf(),
    ensures
        final(state).wf(),
        final(state).running == old(state).running,
        result is Err <==> (schedule.cron_expression matches Some(e) && !spec_cron_is_valid(e@)),
        match result {
            Ok(stored) => {
                &&& same_but_next_run(stored, schedule)
                &&& schedule.cron_expression is None ==> stored.next_run == schedule.next_run
                &&& final(state).schedules@ == old(state).schedules@.insert(
                    schedule.project_id@,
                    stored,
                )
            },
            Err(e) => e == ScheduleError::InvalidCron && *final(state) == *old(state),
        },
{
    let mut updated = schedule;
    match &updated.cron_expression {
        Some(expression) => {
            match parse_cron(expression.as_str()) {
                Some(parsed) => {
                    match next_occurrence(&parsed) {
                        Some(next) => {
                            updated.next_run = Some(next.0);
                        },
                        None => {},
                    }
                },
                None => {
                    return Err(ScheduleError::InvalidCron);
                },
            }
        },
        None => {},
    }
    let stored = copy_schedule(&updated);
    put_schedule(state, updated);
    Ok(stored)
}

/// Removes the schedule of a project, if it has one.
pub fn remove_schedule(state: &mut SchedulerState, project_id: &str) -> (result: Result<
    (),
    ScheduleError,
>)
    requires
        old(state).wf(),
    ensures
        result is Ok,
        final(state).wf(),
        final(state).running == old(state).running,
        final(state).schedules@ == old(state).schedules@.remove(project_id@),
{
    let ghost before_keys = state.schedules.spec_keys();
    let ghost before_values = state.schedules.spec_values();
    let _removed = state.schedules.remove(project_id);
    proof {
        if old(state).schedules@.contains_key(project_id@) {
            let at = before_keys.index_of(project_id@);
            assert forall|i: int| 0 <= i < state.schedules.spec_values().len() implies (
            #[trigger] state.schedules.spec_values()[i]).project_id@
                == state.schedules.spec_keys()[i] by {
                let i0 = if i < at { i } else { i + 1 };
                assert(state.schedules.spec_values()[i] == before_values[i0]);
                assert(state.schedules.spec_keys()[i] == before_keys[i0]);
            }
        }
    }
    Ok(())
}

/// The schedule of a project.
pub fn get_schedule(state: &SchedulerState, project_id: &str) -> (schedule: Option<SyncSchedule>)
    requires
        state.wf(),
    ensures
        match schedule {
            Some(s) => state.schedules@.contains_key(project_id@) && s
                == state.schedules@[project_id@],
            None => !state.schedules@.contains_key(project_id@),
        },
{
    match state.schedules.get(project_id) {
        Some(s) => Some(copy_schedule(s)),
        None => None,
    }
}

/// All schedules, in the order in which their projects were first given one.
pub fn get_all_schedules(state: &SchedulerState) -> (schedules: Vec<SyncSchedule>)
    requires
        state.wf(),
    ensures
        schedules@ == state.schedules.spec_values(),
{
    let mut schedules: Vec<SyncSchedule> = Vec::new();
    let count = state.schedules.len();
    let mut i: usize = 0;
    while i < count
        invariant
            i <= count,
            state.wf(),
            count == state.schedules.spec_values().len(),
            schedules@ == state.schedules.spec_values().take(i as int),
        decreases count - i,
    {
        schedules.push(copy_schedule(state.schedules.value_at(i)));
        assert(schedules@ =~= state.schedules.spec_values().take(i + 1));
        i = i + 1;
    }
    assert(state.schedules.spec_values().take(i as int) =~= state.schedules.spec_values());
    schedules
}

/// Records how the scheduled sync of a project went and renews the time of
/// its next run, if its cron expression has one. Nothing happens when the
/// project has no schedule.
pub fn update_schedule_result(state: &mut SchedulerState, project_id: &str, result: ScheduleResult)
    requires
        old(state).wf(),
    ensures
        final(state).wf(),
        final(state).running == old(state).running,
        final(state).schedules.spec_keys() == old(state).schedules.spec_keys(),
        !old(state).schedules@.contains_key(project_id@) ==> *final(state) == *old(state),
        old(state).schedules@.contains_key(project_id@) ==> {
            let before = old(state).schedules@[project_id@];
            let after = final(state).schedules@[project_id@];
            &&& final(state).schedules@ == old(state).schedules@.insert(project_id@, after)
            &&& after.last_result == Some(result)
            &&& after.project_id == before.project_id
            &&& after.enabled == before.enabled
            &&& after.schedule_type == before.schedule_type
            &&& after.cron_expression == before.cron_expression
            &&& after.last_run == before.last_run
        },
{
    match state.schedules.find(project_id) {
        Some(i) => {
            proof {
                state.schedules.lemma_entry(i as int);
            }
            let mut updated = copy_schedule(state.schedules.value_at(i));
            updated.last_result = Some(result);
            match &updated.cron_expression {
                Some(expression) => {
                    match parse_cron(expression.as_str()) {
                        Some(parsed) => {
                            match next_occurrence(&parsed) {
                                Some(next) => {
                                    updated.next_run = Some(next.0);
                                },
                                None => {},
                            }
                        },
                        None => {},
                    }
                },
                None => {},
            }
            let _previous = state.schedules.put_at(i, updated);
        },
        None => {},
    }
}

/// Enables or disables the schedule of a project.
pub fn set_schedule_enabled(state: &mut SchedulerState, project_id: &str, enabled: bool) -> (result:
    Result<(), ScheduleError>)
    requires
        old(state).wf(),
    ensures
        final(state).wf(),
        final(state).running == old(state).running,
        final(state).schedules.spec_keys() == old(state).schedules.spec_keys(),
        result is Ok <==> old(state).schedules@.contains_key(project_id@),
        match result {
            Ok(_) => {
                let before = old(state).schedules@[project_id@];
                let after = final(state).schedules@[project_id@];
                &&& final(state).schedules@ == old(state).schedules@.insert(project_id@, after)
                &&& after.enabled == enabled
                &&& after.project_id == before.project_id
                &&& after.schedule_type == before.schedule_type
                &&& after.cron_expression == before.cron_expression
                &&& after.next_run == before.next_run
                &&& after.last_run == before.last_run
                &&& after.last_result == before.last_result
            },
            Err(e) => e == ScheduleError::NotFound && *final(state) == *old(state),
        },
{
    match state.schedules.find(project_id) {
        Some(i) => {
            proof {
                state.schedules.lemma_entry(i as int);
            }
            let mut updated = copy_schedule(state.schedules.value_at(i));
            updated.enabled = enabled;
            let _previous = state.schedules.put_at(i, updated);
            Ok(())
        },
        None => Err(ScheduleError::NotFound),
    }
}

/// What the schedules are once `loaded` have been stored over `before`,
/// one after the other.
pub open spec fn schedules_loaded(
    before: Map<Seq<char>, SyncSchedule>,
    loaded: Seq<SyncSchedule>,
) -> Map<Seq<char>, SyncSchedule>
    decreases loaded.len(),
{
    if loaded.len() == 0 {
        before
    } else {
        schedules_loaded(before, loaded.drop_last()).insert(
            loaded.last().project_id@,
            loaded.last(),
        )
    }
}

/// Stores schedules that were kept in persistent storage. A later schedule
/// for the same project replaces an earlier one.
pub fn load_schedules(state: &mut SchedulerState, schedules: Vec<SyncSchedule>)
    requires
        old(state).wf(),
    ensures
        final(state).wf(),
        final(state).running == old(state).running,
        final(state).schedules@ == schedules_loaded(old(state).schedules@, schedules@),
{
    let mut i: usize = 0;
    while i < schedules.len()
        invariant
            i <= schedules.len(),
            state.wf(),
            state.running == old(state).running,
            state.schedules@ == schedules_loaded(old(state).schedules@, schedules@.take(i as int)),
        decreases schedules.len() - i,
    {
        proof {
            assert(schedules@.take(i + 1).drop_last() =~= schedules@.take(i as int));
            assert(schedules@.take(i + 1).last() == schedules@[i as int]);
        }
        put_schedule(state, copy_schedule(&schedules[i]));
        i = i + 1;
    }
    assert(schedules@.take(i as int) =~= schedules@);
}

/// All schedules, for persistent storage.
pub fn export_schedules(state: &SchedulerState) -> (schedules: Vec<SyncSchedule>)
    requires
        state.wf(),
    ensures
        schedules@ == state.schedules.spec_values(),
{
    get_all_schedules(state)
}

/// `listed` names only projects whose schedule is enabled and has a cron
/// expression that parses.
pub open spec fn are_runnable(listed: Seq<String>, state: SchedulerState) -> bool {
    forall|k: int|
        0 <= k < listed.len() ==> {
            let id = (#[trigger] listed[k])@;
            &&& state.schedules@.contains_key(id)
            &&& state.schedules@[id].enabled
            &&& state.schedules@[id].cron_expression matches Some(e) && spec_cron_is_valid(e@)
        }
}

/// The schedule is enabled and has a cron expression that parses.
pub open spec fn is_runnable(schedule: SyncSchedule) -> bool {
    &&& schedule.enabled
    &&& schedule.cron_expression matches Some(e) && spec_cron_is_valid(e@)
}

/// The next run found for the schedule at a position; none beyond the end
/// of the list.
pub open spec fn occurrence_at(occurrences: Seq<Option<(i64, u32)>>, i: int) -> Option<(i64, u32)> {
    if 0 <= i < occurrences.len() {
        occurrences[i]
    } else {
        None
    }
}

/// The schedule is enabled and its next run is less than a minute from
/// `now`.
pub open spec fn is_due_entry(schedule: SyncSchedule, next: Option<(i64, u32)>, now: (i64, u32)) -> bool {
    &&& schedule.enabled
    &&& next matches Some(at) && spec_is_due(at, now)
}

/// The projects among the first `n` schedules that are due at `now`, given
/// the next run of each, in the order of the schedules.
pub open spec fn due_below(
    schedules: Seq<SyncSchedule>,
    occurrences: Seq<Option<(i64, u32)>>,
    now: (i64, u32),
    n: int,
) -> Seq<Seq<char>>
    decreases n,
{
    if n <= 0 {
        Seq::empty()
    } else if is_due_entry(schedules[n - 1], occurrence_at(occurrences, n - 1), now) {
        due_below(schedules, occurrences, now, n - 1).push(schedules[n - 1].project_id@)
    } else {
        due_below(schedules, occurrences, now, n - 1)
    }
}

/// `listed` are the projects that are due at some instant `now`, given next
/// runs that were found only for runnable schedules.
pub open spec fn is_due_selection(
    listed: Seq<Seq<char>>,
    state: SchedulerState,
    occurrences: Seq<Option<(i64, u32)>>,
    now: (i64, u32),
) -> bool {
    let schedules = state.schedules.spec_values();
    &&& occurrences.len() == schedules.len()
    &&& forall|i: int|
        0 <= i < schedules.len() && (#[trigger] occurrences[i]) is Some ==> is_runnable(
            schedules[i],
        )
    &&& listed == due_below(schedules, occurrences, now, schedules.len() as int)
}

proof fn lemma_due_below_members(
    schedules: Seq<SyncSchedule>,
    occurrences: Seq<Option<(i64, u32)>>,
    now: (i64, u32),
    n: int,
)
    requires
        0 <= n <= schedules.len(),
    ensures
        forall|k: int|
            0 <= k < due_below(schedules, occurrences, now, n).len() ==> exists|i: int|
                0 <= i < n && (#[trigger] due_below(schedules, occurrences, now, n)[k])
                    == schedules[i].project_id@ && is_due_entry(
                    schedules[i],
                    occurrence_at(occurrences, i),
                    now,
                ),
    decreases n,
{
    if n > 0 {
        lemma_due_below_members(schedules, occurrences, now, n - 1);
        let before = due_below(schedules, occurrences, now, n - 1);
        let after = due_below(schedules, occurrences, now, n);
        assert forall|k: int| 0 <= k < after.len() implies exists|i: int|
            0 <= i < n && (#[trigger] after[k]) == schedules[i].project_id@ && is_due_entry(
                schedules[i],
                occurrence_at(occurrences, i),
                now,
            ) by {
            if k < before.len() {
                assert(after[k] == before[k]);
                let i = choose|i: int|
                    0 <= i < n - 1 && before[k] == schedules[i].project_id@ && is_due_entry(
                        schedules[i],
                        occurrence_at(occurrences, i),
                        now,
                    );
                assert(0 <= i < n && after[k] == schedules[i].project_id@ && is_due_entry(
                    schedules[i],
                    occurrence_at(occurrences, i),
                    now,
                ));
            } else {
                assert(after[k] == schedules[n - 1].project_id@ && is_due_entry(
                    schedules[n - 1],
                    occurrence_at(occurrences, n - 1),
                    now,
                ));
            }
        }
    }
}

/// Selects the projects that are due at `now`, given the next run of each
/// schedule by its position: a schedule is due when it is enabled and its
/// next run is less than a minute from `now`. A schedule without a next run
/// is not due.
pub fn due_projects(
    state: &SchedulerState,
    occurrences: &Vec<Option<(i64, u32)>>,
    now: (i64, u32),
) -> (due: Vec<String>)
    requires
        state.wf(),
    ensures
        views(due@) == due_below(
            state.schedules.spec_values(),
            occurrences@,
            now,
            state.schedules.spec_values().len() as int,
        ),
{
    let mut due: Vec<String> = Vec::new();
    let count = state.schedules.len();
    let mut i: usize = 0;
    proof {
        assert(views(due@) =~= due_below(state.schedules.spec_values(), occurrences@, now, 0));
    }
    while i < count
        invariant
            i <= count,
            state.wf(),
            count == state.schedules.spec_values().len(),
            views(due@) == due_below(state.schedules.spec_values(), occurrences@, now, i as int),
        decreases count - i,
    {
        let schedule = state.schedules.value_at(i);
        let next: Option<(i64, u32)> = if i < occurrences.len() {
            occurrences[i]
        } else {
            None
        };
        let listed = match next {
            Some(at) => schedule.enabled && is_due(at, now),
            None => false,
        };
        if listed {
            let ghost before = views(due@);
            due.push(schedule.project_id.clone());
            proof {
                assert(views(due@) =~= before.push(schedule.project_id@));
            }
        }
        i = i + 1;
    }
    due
}

fn next_occurrences(state: &SchedulerState) -> (occurrences: Vec<Option<(i64, u32)>>)
    requires
        state.wf(),
    ensures
        occurrences@.len() == state.schedules.spec_values().len(),
        forall|i: int|
            0 <= i < occurrences@.len() && (#[trigger] occurrences@[i]) is Some ==> is_runnable(
                state.schedules.spec_values()[i],
            ),
{
    let mut occurrences: Vec<Option<(i64, u32)>> = Vec::new();
    let count = state.schedules.len();
    let mut i: usize = 0;
    while i < count
        invariant
            i <= count,
            state.wf(),
            count == state.schedules.spec_values().len(),
            occurrences@.len() == i,
            forall|k: int|
                0 <= k < i && (#[trigger] occurrences@[k]) is Some ==> is_runnable(
                    state.schedules.spec_values()[k],
                ),
        decreases count - i,
    {
        let schedule = state.schedules.value_at(i);
        let mut found: Option<(i64, u32)> = None;
        if schedule.enabled {
            match &schedule.cron_expression {
                Some(expression) => {
                    match parse_cron(expression.as_str()) {
                        Some(parsed) => {
                            match next_occurrence(&parsed) {
                                Some(next) => {
                                    found = Some((next.1, next.2));
                                },
                                None => {},
                            }
                        },
                        None => {},
                    }
                },
                None => {},
            }
        }
        occurrences.push(found);
        i = i + 1;
    }
    occurrences
}

/// The projects whose scheduled sync is due now: their schedule is enabled
/// and the next time of its cron expression is less than a minute away.
///
/// The next time of each runnable schedule and the present instant come
/// from the clock; whatever they are, the result is the selection that
/// `due_projects` makes from them, in the order of the schedules.
pub fn schedules_to_run(state: &SchedulerState) -> (due: Vec<String>)
    requires
        state.wf(),
    ensures
        are_runnable(due@, *state),
        exists|occurrences: Seq<Option<(i64, u32)>>, now: (i64, u32)| #[trigger]
            is_due_selection(views(due@), *state, occurrences, now),
{
    let occurrences = next_occurrences(state);
    let now = utc_now_parts();
    let due = due_projects(state, &occurrences, now);
    proof {
        let schedules = state.schedules.spec_values();
        assert(is_due_selection(views(due@), *state, occurrences@, now));
        lemma_due_below_members(schedules, occurrences@, now, schedules.len() as int);
        assert forall|k: int| 0 <= k < due@.len() implies {
            let id = (#[trigger] due@[k])@;
            &&& state.schedules@.contains_key(id)
            &&& state.schedules@[id].enabled
            &&& state.schedules@[id].cron_expression matches Some(e) && spec_cron_is_valid(e@)
        } by {
            let listed = due_below(schedules, occurrences@, now, schedules.len() as int);
            assert(views(due@)[k] == due@[k]@);
            let i = choose|i: int|
                0 <= i < schedules.len() && listed[k] == schedules[i].project_id@ && is_due_entry(
                    schedules[i],
                    occurrence_at(occurrences@, i),
                    now,
                );
            assert(occurrences@[i] is Some);
            state.schedules.lemma_entry(i);
        }
    }
    due
}

/// Records the time of the last run of a project's schedule. Nothing
/// happens when the project has no schedule.
pub fn mark_schedule_run(state: &mut SchedulerState, project_id: &str, at: String)
    requires
        old(state).wf(),
    ensures
        final(state).wf(),
        final(state).running == old(state).running,
        final(state).schedules.spec_keys() == old(state).schedules.spec_keys(),
        !old(state).schedules@.contains_key(project_id@) ==> *final(state) == *old(state),
        old(state).schedules@.contains_key(project_id@) ==> {
            let before = old(state).schedules@[project_id@];
            let after = final(state).schedules@[project_id@];
            &&& final(state).schedules@ == old(state).schedules@.insert(project_id@, after)
            &&& after.last_run == Some(at)
            &&& after.project_id == before.project_id
            &&& after.enabled == before.enabled
            &&& after.schedule_type == before.schedule_type
            &&& after.cron_expression == before.cron_expression
            &&& after.next_run == before.next_run
            &&& after.last_result == before.last_result
        },
{
    match state.schedules.find(project_id) {
        Some(i) => {
            proof {
                state.schedules.lemma_entry(i as int);
            }
            let mut updated = copy_schedule(state.schedules.value_at(i));
            updated.last_run = Some(at);
            let _previous = state.schedules.put_at(i, updated);
        },
        None => {},
    }
}

} // verus!
