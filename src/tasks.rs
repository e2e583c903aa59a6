use vstd::prelude::*;

use crate::adaptor::{kept_events, kept_people, stale_count, stale_people_count, Adaptor, AdaptorError, DeletionCounts};
use crate::memory::MemoryAdaptor;

verus! {

/// How long an event is kept after its creation, in days, unless configured otherwise.
pub const DEFAULT_RETENTION_DAYS: u32 = 30;

/// Length of a day in the timestamps that events carry.
pub const SECONDS_PER_DAY: i64 = 86400;

/// The single owned handle to the active adaptor. Callers serialise access to it.
pub struct ApiState<A> {
    pub adaptor: A,
}

impl<A> ApiState<A> {
    pub fn new(adaptor: A) -> (r: ApiState<A>)
        ensures
            r.adaptor == adaptor,
    {
        ApiState { adaptor }
    }
}

/// The adaptor that the service runs with: an empty in-memory store.
pub fn create_adaptor() -> (r: MemoryAdaptor)
    ensures
        r.wf(),
        r.events_seq().len() == 0,
        r.people_seq().len() == 0,
        r.next_id_spec() == 0,
        r.people_created_spec() == 0,
{
    MemoryAdaptor::new()
}

/// The cutoff of a cleanup pass at `now`: `now` less the retention window, or the earliest representable instant
/// where that lies before it (no event is older, so nothing more is deleted).
pub open spec fn cutoff_of(now: i64, retention_days: u32) -> i64 {
    let c = now - retention_days * SECONDS_PER_DAY;
    if c < i64::MIN {
        i64::MIN
    } else {
        c as i64
    }
}

pub fn cleanup_cutoff(now: i64, retention_days: u32) -> (r: i64)
    ensures
        r == cutoff_of(now, retention_days),
{
    let window: i64 = retention_days as i64 * SECONDS_PER_DAY;
    if now < i64::MIN + window {
        i64::MIN
    } else {
        now - window
    }
}

/// The outcome of one cleanup pass: the cutoff it used and what it removed.
#[derive(Clone, Copy, Debug, PartialEq, Eq, Structural)]
pub struct CleanupReport {
    pub cutoff: i64,
    pub deleted: DeletionCounts,
}

/// What a cleanup pass with `cutoff` leaves and reports, given the adaptor's
/// result: on success the stale events and their people are gone and counted;
/// on failure nothing changed.
pub open spec fn pass_outcome<A: Adaptor>(
    before: A,
    after: A,
    cutoff: i64,
    deleted: Result<DeletionCounts, AdaptorError>,
) -> bool {
    &&& after.inv()
    &&& deleted is Ok ==> after.stored_events() == kept_events(before.stored_events(), cutoff)
        && after.stored_people() == kept_people(before.stored_people(), before.stored_events(), cutoff)
        && deleted->Ok_0.event_count == stale_count(before.stored_events(), cutoff)
        && deleted->Ok_0.person_count == stale_people_count(before.stored_people(), before.stored_events(), cutoff)
    &&& deleted is Err ==> after.stored_events() == before.stored_events()
        && after.stored_people() == before.stored_people()
}

/// One cleanup pass at time `now`: deletes what is older than the retention window.
pub fn cleanup_at<A: Adaptor>(adaptor: &mut A, now: i64, retention_days: u32) -> (r: Result<CleanupReport, AdaptorError>)
    requires
        old(adaptor).inv(),
    ensures
        r is Ok ==> r->Ok_0.cutoff == cutoff_of(now, retention_days)
            && pass_outcome(*old(adaptor), *final(adaptor), r->Ok_0.cutoff, Ok(r->Ok_0.deleted)),
        r is Err ==> pass_outcome(*old(adaptor), *final(adaptor), cutoff_of(now, retention_days), Err(r->Err_0)),
{
    let cutoff = cleanup_cutoff(now, retention_days);
    match adaptor.delete_events(cutoff) {
        Ok(deleted) => Ok(CleanupReport { cutoff, deleted }),
        Err(e) => Err(e),
    }
}

/// Relies on chrono's `From<SystemTime> for DateTime<Utc>` and
/// `DateTime::timestamp`: the current time in whole seconds since the Unix
/// epoch, negative for a clock set before it. Nothing is promised of its value.
#[verifier::external_body]
fn now_timestamp() -> (r: i64) {
    chrono::DateTime::<chrono::Utc>::from(std::time::SystemTime::now()).timestamp()
}

/// One cleanup pass at the current time. The report names the cutoff used.
pub fn do_cleanup<A: Adaptor>(adaptor: &mut A, retention_days: u32) -> (r: Result<CleanupReport, AdaptorError>)
    requires
        old(adaptor).inv(),
    ensures
        final(adaptor).inv(),
        r is Ok ==> (exists|now: i64| r->Ok_0.cutoff == cutoff_of(now, retention_days))
            && pass_outcome(*old(adaptor), *final(adaptor), r->Ok_0.cutoff, Ok(r->Ok_0.deleted)),
        r is Err ==> final(adaptor).stored_events() == old(adaptor).stored_events()
            && final(adaptor).stored_people() == old(adaptor).stored_people(),
{
    let now = now_timestamp();
    cleanup_at(adaptor, now, retention_days)
}

/// Errors of the cleanup request.
#[derive(Clone, Copy, Debug, PartialEq, Eq, Structural)]
pub enum ApiError {
    NotAuthorized,
    Adaptor(AdaptorError),
}

/// A request may run the cleanup when no key is configured, or when it
/// supplies exactly the configured key.
pub open spec fn key_accepted(configured: Seq<char>, supplied: Seq<char>) -> bool {
    configured.len() == 0 || configured == supplied
}

pub fn cron_key_accepted(configured: &String, supplied: &String) -> (r: bool)
    ensures
        r == key_accepted(configured@, supplied@),
{
    configured.as_str().unicode_len() == 0 || *configured == *supplied
}

/// The externally triggered cleanup: checks the key, then runs one pass with
/// the same cutoff computation as the periodic worker, and reports its outcome
/// or passes the adaptor's error on.
pub fn cleanup<A: Adaptor>(
    state: &mut ApiState<A>,
    configured_key: &String,
    supplied_key: &String,
    retention_days: u32,
) -> (r: Result<CleanupReport, ApiError>)
    requires
        old(state).adaptor.inv(),
    ensures
        final(state).adaptor.inv(),
        r == Err::<CleanupReport, ApiError>(ApiError::NotAuthorized) <==> !key_accepted(configured_key@, supplied_key@),
        r == Err::<CleanupReport, ApiError>(ApiError::NotAuthorized) ==> final(state).adaptor == old(state).adaptor,
        r is Ok ==> (exists|now: i64| r->Ok_0.cutoff == cutoff_of(now, retention_days))
            && pass_outcome(old(state).adaptor, final(state).adaptor, r->Ok_0.cutoff, Ok(r->Ok_0.deleted)),
        r matches Err(ApiError::Adaptor(_)) ==> final(state).adaptor.stored_events() == old(state).adaptor.stored_events()
            && final(state).adaptor.stored_people() == old(state).adaptor.stored_people(),
{
    if !cron_key_accepted(configured_key, supplied_key) {
        return Err(ApiError::NotAuthorized);
    }
    match do_cleanup(&mut state.adaptor, retention_days) {
        Ok(report) => Ok(report),
        Err(e) => Err(ApiError::Adaptor(e)),
    }
}

/// The cleanup worker's two states.
#[derive(Clone, Copy, Debug, PartialEq, Eq, Structural)]
pub enum WorkerState {
    Waiting,
    Terminated,
}

/// What the worker does after one wake-up.
#[derive(Clone, Copy, Debug, PartialEq, Eq, Structural)]
pub enum WorkerAction {
    /// Keep waiting for the timer or the shutdown event.
    Wait,
    /// Run one cleanup pass, then wait for the next cycle.
    RunCleanup,
    /// Leave the loop without starting a pass.
    Exit,
}

/// The worker's decision after a wake-up in which the shutdown event was or was
/// not observed and the hourly timer had or had not elapsed. Shutdown takes
/// priority; a terminated worker stays terminated.
pub fn worker_step(state: WorkerState, shutdown: bool, timer_elapsed: bool) -> (r: (WorkerState, WorkerAction))
    ensures
        state == WorkerState::Terminated ==> r == (WorkerState::Terminated, WorkerAction::Exit),
        state == WorkerState::Waiting && shutdown ==> r == (WorkerState::Terminated, WorkerAction::Exit),
        state == WorkerState::Waiting && !shutdown && timer_elapsed ==> r == (WorkerState::Waiting, WorkerAction::RunCleanup),
        state == WorkerState::Waiting && !shutdown && !timer_elapsed ==> r == (WorkerState::Waiting, WorkerAction::Wait),
{
    match state {
        WorkerState::Terminated => (WorkerState::Terminated, WorkerAction::Exit),
        WorkerState::Waiting => {
            if shutdown {
                (WorkerState::Terminated, WorkerAction::Exit)
            } else if timer_elapsed {
                (WorkerState::Waiting, WorkerAction::RunCleanup)
            } else {
                (WorkerState::Waiting, WorkerAction::Wait)
            }
        },
    }
}

} // verus!
