use crabfit_api::adaptor::{Adaptor, EventKind, NewEvent};
use crabfit_api::memory::MemoryAdaptor;
use crabfit_api::tasks::{
    cleanup, cleanup_at, cleanup_cutoff, create_adaptor, cron_key_accepted, do_cleanup, worker_step, ApiError,
    ApiState, WorkerAction, WorkerState, DEFAULT_RETENTION_DAYS,
};

fn event(name: &str) -> NewEvent {
    NewEvent {
        name: name.to_string(),
        timezone: "UTC".to_string(),
        earliest: 0,
        latest: 1439,
        kind: EventKind::DaysOfWeek,
    }
}

#[test]
fn cutoff_is_thirty_days_back() {
    assert_eq!(DEFAULT_RETENTION_DAYS, 30);
    assert_eq!(cleanup_cutoff(1_700_000_000, 30), 1_700_000_000 - 2_592_000);
    assert_eq!(cleanup_cutoff(0, 1), -86_400);
}

#[test]
fn cutoff_saturates_at_earliest_instant() {
    assert_eq!(cleanup_cutoff(i64::MIN + 10, 1), i64::MIN);
}

#[test]
fn shutdown_mid_timer_exits_without_pass() {
    let (state, action) = worker_step(WorkerState::Waiting, true, false);
    assert_eq!(state, WorkerState::Terminated);
    assert_eq!(action, WorkerAction::Exit);
}

#[test]
fn shutdown_with_timer_wins() {
    let (state, action) = worker_step(WorkerState::Waiting, true, true);
    assert_eq!((state, action), (WorkerState::Terminated, WorkerAction::Exit));
}

#[test]
fn timer_alone_runs_a_pass() {
    assert_eq!(worker_step(WorkerState::Waiting, false, true), (WorkerState::Waiting, WorkerAction::RunCleanup));
    assert_eq!(worker_step(WorkerState::Waiting, false, false), (WorkerState::Waiting, WorkerAction::Wait));
    assert_eq!(worker_step(WorkerState::Terminated, false, true), (WorkerState::Terminated, WorkerAction::Exit));
}

#[test]
fn serialized_passes_do_not_double_count() {
    let day = 86_400;
    let now = 100 * day;
    let mut a = MemoryAdaptor::new();
    let old = a.create_event(event("old"), now - 40 * day).unwrap();
    a.update_person(old.id, "P".to_string(), vec![], None).unwrap();
    a.create_event(event("older"), now - 60 * day).unwrap();
    a.create_event(event("fresh"), now).unwrap();
    let timer = cleanup_at(&mut a, now, 30).unwrap();
    let manual = cleanup_at(&mut a, now + 1, 30).unwrap();
    assert_eq!(timer.deleted.event_count + manual.deleted.event_count, 2);
    assert_eq!(timer.deleted.person_count + manual.deleted.person_count, 1);
    assert_eq!(manual.deleted.event_count, 0);
    assert_eq!(timer.cutoff, now - 30 * day);
}

#[test]
fn adaptor_interface_reaches_memory_store() {
    let mut a = MemoryAdaptor::new();
    let e = Adaptor::create_event(&mut a, event("via trait"), 3).unwrap();
    assert_eq!(Adaptor::get_event(&a, e.id).unwrap().name, "via trait");
    let counts = Adaptor::delete_events(&mut a, 4).unwrap();
    assert_eq!(counts.event_count, 1);
    assert_eq!(Adaptor::delete_events(&mut a, 4).unwrap().event_count, 0);
}

#[test]
fn cron_key_rules() {
    assert!(cron_key_accepted(&String::new(), &"anything".to_string()));
    assert!(cron_key_accepted(&"k".to_string(), &"k".to_string()));
    assert!(!cron_key_accepted(&"k".to_string(), &"j".to_string()));
    assert!(!cron_key_accepted(&"k".to_string(), &String::new()));
}

#[test]
fn cleanup_with_wrong_key_is_refused() {
    let mut state = ApiState::new(create_adaptor());
    state.adaptor.create_event(event("ancient"), 0).unwrap();
    let r = cleanup(&mut state, &"secret".to_string(), &"guess".to_string(), 30);
    assert_eq!(r, Err(ApiError::NotAuthorized));
    assert!(state.adaptor.get_event(0).is_ok());
}

#[test]
fn cleanup_with_key_deletes_old_events() {
    let mut state = ApiState::new(create_adaptor());
    let e = state.adaptor.create_event(event("ancient"), 0).unwrap();
    let r = cleanup(&mut state, &"secret".to_string(), &"secret".to_string(), 30).unwrap();
    assert_eq!(r.deleted.event_count, 1);
    assert!(state.adaptor.get_event(e.id).is_err());
}

#[test]
fn do_cleanup_keeps_recent_events() {
    let mut a = create_adaptor();
    let e = a.create_event(event("future"), i64::MAX).unwrap();
    let r = do_cleanup(&mut a, 30).unwrap();
    assert_eq!(r.deleted.event_count, 0);
    // The cutoff comes from the system clock: after 2017, thirty days back.
    assert!(r.cutoff > 1_500_000_000);
    assert!(a.get_event(e.id).is_ok());
}

#[test]
fn fresh_adaptor_gives_first_id_zero() {
    let mut a = create_adaptor();
    let e = a.create_event(event("first"), 1).unwrap();
    assert_eq!(e.id, 0);
    assert_eq!(a.get_stats().event_count, 1);
    assert_eq!(a.get_stats().person_count, 0);
}
