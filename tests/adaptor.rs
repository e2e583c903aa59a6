use crabfit_api::adaptor::{AdaptorError, EventKind, NewEvent, Slot};
use crabfit_api::memory::MemoryAdaptor;

fn team_sync() -> NewEvent {
    NewEvent {
        name: "Team Sync".to_string(),
        timezone: "Europe/Berlin".to_string(),
        earliest: 9 * 60,
        latest: 17 * 60,
        kind: EventKind::SpecificDates,
    }
}

#[test]
fn created_event_is_fetched_unchanged() {
    let mut a = MemoryAdaptor::new();
    let created = a.create_event(team_sync(), 1_700_000_000).unwrap();
    let fetched = a.get_event(created.id).unwrap();
    assert_eq!(fetched.id, created.id);
    assert_eq!(fetched.name, "Team Sync");
    assert_eq!(fetched.timezone, "Europe/Berlin");
    assert_eq!(fetched.earliest, 540);
    assert_eq!(fetched.latest, 1020);
    assert_eq!(fetched.kind, EventKind::SpecificDates);
    assert_eq!(fetched.created_at, 1_700_000_000);
}

#[test]
fn created_ids_are_distinct() {
    let mut a = MemoryAdaptor::new();
    let e1 = a.create_event(team_sync(), 10).unwrap();
    let e2 = a.create_event(team_sync(), 10).unwrap();
    assert_ne!(e1.id, e2.id);
    assert_eq!(a.get_stats().event_count, 2);
}

#[test]
fn unknown_event_is_not_found() {
    let a = MemoryAdaptor::new();
    assert_eq!(a.get_event(7).unwrap_err(), AdaptorError::NotFound);
    assert_eq!(a.get_people(7).unwrap_err(), AdaptorError::NotFound);
    assert_eq!(a.get_person(7, &"Alice".to_string()).unwrap_err(), AdaptorError::NotFound);
}

#[test]
fn update_on_unknown_event_is_not_found() {
    let mut a = MemoryAdaptor::new();
    let r = a.update_person(3, "Alice".to_string(), vec![], None);
    assert_eq!(r, Err(AdaptorError::NotFound));
    assert_eq!(a.get_stats().person_count, 0);
}

#[test]
fn team_sync_scenario() {
    let mut a = MemoryAdaptor::new();
    let e = a.create_event(team_sync(), 100).unwrap();
    let slots = vec![Slot { start: 1000, end: 1900 }, Slot { start: 5000, end: 5900 }];
    a.update_person(e.id, "Alice".to_string(), slots.clone(), None).unwrap();
    let people = a.get_people(e.id).unwrap();
    assert_eq!(people.len(), 1);
    assert_eq!(people[0].name, "Alice");
    assert_eq!(people[0].availability, slots);
}

#[test]
fn people_keep_submission_order() {
    let mut a = MemoryAdaptor::new();
    let e = a.create_event(team_sync(), 100).unwrap();
    let other = a.create_event(team_sync(), 100).unwrap();
    a.update_person(e.id, "Bob".to_string(), vec![], None).unwrap();
    a.update_person(other.id, "Zed".to_string(), vec![], None).unwrap();
    a.update_person(e.id, "Alice".to_string(), vec![], None).unwrap();
    a.update_person(e.id, "Bob".to_string(), vec![Slot { start: 1, end: 2 }], None).unwrap();
    let names: Vec<String> = a.get_people(e.id).unwrap().into_iter().map(|p| p.name).collect();
    assert_eq!(names, vec!["Bob".to_string(), "Alice".to_string()]);
    assert_eq!(a.get_stats().person_count, 3);
}

#[test]
fn unset_password_admits_calls_without_credential() {
    let mut a = MemoryAdaptor::new();
    let e = a.create_event(team_sync(), 100).unwrap();
    a.update_person(e.id, "Alice".to_string(), vec![Slot { start: 1, end: 2 }], None).unwrap();
    a.update_person(e.id, "Alice".to_string(), vec![Slot { start: 3, end: 4 }], None).unwrap();
    a.update_person(e.id, "Alice".to_string(), vec![Slot { start: 5, end: 6 }], Some("x".to_string())).unwrap();
    let p = a.get_person(e.id, &"Alice".to_string()).unwrap();
    assert_eq!(p.availability, vec![Slot { start: 5, end: 6 }]);
    assert_eq!(p.password_hash, None);
}

#[test]
fn wrong_credential_is_unauthorized_and_keeps_availability() {
    let mut a = MemoryAdaptor::new();
    let e = a.create_event(team_sync(), 100).unwrap();
    let first = vec![Slot { start: 1, end: 2 }];
    a.update_person(e.id, "Alice".to_string(), first.clone(), Some("hash-a".to_string())).unwrap();
    let r = a.update_person(e.id, "Alice".to_string(), vec![], Some("hash-b".to_string()));
    assert_eq!(r, Err(AdaptorError::Unauthorized));
    let r = a.update_person(e.id, "Alice".to_string(), vec![], None);
    assert_eq!(r, Err(AdaptorError::Unauthorized));
    assert_eq!(a.get_person(e.id, &"Alice".to_string()).unwrap().availability, first);
    let second = vec![Slot { start: 7, end: 8 }];
    a.update_person(e.id, "Alice".to_string(), second.clone(), Some("hash-a".to_string())).unwrap();
    assert_eq!(a.get_person(e.id, &"Alice".to_string()).unwrap().availability, second);
}

#[test]
fn delete_respects_cutoff() {
    let mut a = MemoryAdaptor::new();
    let old = a.create_event(team_sync(), 99).unwrap();
    let edge = a.create_event(team_sync(), 100).unwrap();
    let new = a.create_event(team_sync(), 101).unwrap();
    a.update_person(old.id, "A".to_string(), vec![], None).unwrap();
    a.update_person(old.id, "B".to_string(), vec![], None).unwrap();
    a.update_person(edge.id, "C".to_string(), vec![], None).unwrap();
    let counts = a.delete_events(100);
    assert_eq!(counts.event_count, 1);
    assert_eq!(counts.person_count, 2);
    assert_eq!(a.get_event(old.id).unwrap_err(), AdaptorError::NotFound);
    assert!(a.get_event(edge.id).is_ok());
    assert!(a.get_event(new.id).is_ok());
    assert_eq!(a.get_people(edge.id).unwrap().len(), 1);
}

#[test]
fn delete_twice_returns_zero() {
    let mut a = MemoryAdaptor::new();
    let e = a.create_event(team_sync(), 5).unwrap();
    a.update_person(e.id, "A".to_string(), vec![], None).unwrap();
    a.create_event(team_sync(), 50).unwrap();
    let first = a.delete_events(40);
    assert_eq!((first.event_count, first.person_count), (1, 1));
    let second = a.delete_events(40);
    assert_eq!((second.event_count, second.person_count), (0, 0));
}

#[test]
fn delete_on_empty_store() {
    let mut a = MemoryAdaptor::new();
    let counts = a.delete_events(i64::MAX);
    assert_eq!((counts.event_count, counts.person_count), (0, 0));
}
