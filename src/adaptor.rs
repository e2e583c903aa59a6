use vstd::prelude::*;

verus! {

/// Whether an event offers specific calendar dates or recurring days of the week.
#[derive(Clone, Copy, Debug, PartialEq, Eq, Structural)]
pub enum EventKind {
    SpecificDates,
    DaysOfWeek,
}

/// One selected availability range, as start and end instants in seconds.
#[derive(Clone, Copy, Debug, PartialEq, Eq, Structural)]
pub struct Slot {
    pub start: i64,
    pub end: i64,
}

/// What a client supplies to create an event.
#[derive(Debug)]
pub struct NewEvent {
    pub name: String,
    pub timezone: String,
    /// Earliest selectable slot of a day, in minutes after midnight.
    pub earliest: u32,
    /// Latest selectable slot of a day, in minutes after midnight.
    pub latest: u32,
    pub kind: EventKind,
}

/// A stored event.
#[derive(Debug)]
pub struct Event {
    pub id: u64,
    /// Creation time, in seconds since the Unix epoch.
    pub created_at: i64,
    pub name: String,
    pub timezone: String,
    pub earliest: u32,
    pub latest: u32,
    pub kind: EventKind,
}

/// A person's availability submission under one event.
#[derive(Debug)]
pub struct Person {
    pub event_id: u64,
    pub name: String,
    pub password_hash: Option<String>,
    pub availability: Vec<Slot>,
}

/// The mathematical value of a `Person`.
pub struct PersonView {
    pub event_id: u64,
    pub name: Seq<char>,
    pub password: Option<Seq<char>>,
    pub availability: Seq<Slot>,
}

/// How many entities one deletion pass removed.
#[derive(Clone, Copy, Debug, PartialEq, Eq, Structural)]
pub struct DeletionCounts {
    pub event_count: usize,
    pub person_count: usize,
}

/// Aggregate counters of an adaptor: events and people created so far.
#[derive(Clone, Copy, Debug, PartialEq, Eq, Structural)]
pub struct Stats {
    pub event_count: u64,
    pub person_count: u64,
}

/// Failures surfaced by every storage operation.
#[derive(Clone, Copy, Debug, PartialEq, Eq, Structural)]
pub enum AdaptorError {
    NotFound,
    Conflict,
    Unauthorized,
    Backend,
}

pub open spec fn opt_view(o: Option<String>) -> Option<Seq<char>> {
    match o {
        Some(s) => Some(s@),
        None => None,
    }
}

impl View for Person {
    type V = PersonView;

    open spec fn view(&self) -> PersonView {
        PersonView {
            event_id: self.event_id,
            name: self.name@,
            password: opt_view(self.password_hash),
            availability: self.availability@,
        }
    }
}

pub open spec fn person_views(s: Seq<Person>) -> Seq<PersonView> {
    s.map_values(|p: Person| p@)
}

/// The event that `create_event` stores for `input`, under `id`, at time `now`.
pub open spec fn new_event(input: NewEvent, id: u64, now: i64) -> Event {
    Event {
        id,
        created_at: now,
        name: input.name,
        timezone: input.timezone,
        earliest: input.earliest,
        latest: input.latest,
        kind: input.kind,
    }
}

/// The fields of `e` are those that `input` gave.
pub open spec fn event_matches_input(e: Event, input: NewEvent) -> bool {
    &&& e.name@ == input.name@
    &&& e.timezone@ == input.timezone@
    &&& e.earliest == input.earliest
    &&& e.latest == input.latest
    &&& e.kind == input.kind
}

pub open spec fn has_event(s: Seq<Event>, id: u64) -> bool {
    exists|i: int| 0 <= i < s.len() && s[i].id == id
}

pub open spec fn unique_ids(s: Seq<Event>) -> bool {
    forall|i: int, j: int| 0 <= i < s.len() && 0 <= j < s.len() && i != j ==> s[i].id != s[j].id
}

/// Some event under `id` was created strictly before `cutoff`.
pub open spec fn is_stale_id(s: Seq<Event>, id: u64, cutoff: i64) -> bool {
    exists|i: int| 0 <= i < s.len() && s[i].id == id && s[i].created_at < cutoff
}

/// The events that a deletion pass with `cutoff` keeps, in their order.
pub open spec fn kept_events(s: Seq<Event>, cutoff: i64) -> Seq<Event>
    decreases s.len(),
{
    if s.len() == 0 {
        s
    } else if s.last().created_at < cutoff {
        kept_events(s.drop_last(), cutoff)
    } else {
        kept_events(s.drop_last(), cutoff).push(s.last())
    }
}

/// The number of events created strictly before `cutoff`.
pub open spec fn stale_count(s: Seq<Event>, cutoff: i64) -> nat
    decreases s.len(),
{
    if s.len() == 0 {
        0
    } else if s.last().created_at < cutoff {
        stale_count(s.drop_last(), cutoff) + 1
    } else {
        stale_count(s.drop_last(), cutoff)
    }
}

/// The people whose event a deletion pass with `cutoff` over `events` keeps.
pub open spec fn kept_people(p: Seq<PersonView>, events: Seq<Event>, cutoff: i64) -> Seq<PersonView>
    decreases p.len(),
{
    if p.len() == 0 {
        p
    } else if is_stale_id(events, p.last().event_id, cutoff) {
        kept_people(p.drop_last(), events, cutoff)
    } else {
        kept_people(p.drop_last(), events, cutoff).push(p.last())
    }
}

/// The number of people whose event was created strictly before `cutoff`.
pub open spec fn stale_people_count(p: Seq<PersonView>, events: Seq<Event>, cutoff: i64) -> nat
    decreases p.len(),
{
    if p.len() == 0 {
        0
    } else if is_stale_id(events, p.last().event_id, cutoff) {
        stale_people_count(p.drop_last(), events, cutoff) + 1
    } else {
        stale_people_count(p.drop_last(), events, cutoff)
    }
}

/// The people registered under event `id`, in the order of their first submission.
pub open spec fn people_of(p: Seq<PersonView>, id: u64) -> Seq<PersonView>
    decreases p.len(),
{
    if p.len() == 0 {
        p
    } else if p.last().event_id == id {
        people_of(p.drop_last(), id).push(p.last())
    } else {
        people_of(p.drop_last(), id)
    }
}

/// Position `j` of `p` holds the person `name` of event `id`.
pub open spec fn locates(p: Seq<PersonView>, j: int, id: u64, name: Seq<char>) -> bool {
    0 <= j < p.len() && p[j].event_id == id && p[j].name == name
}

/// No two people of one event share a name.
pub open spec fn distinct_names(p: Seq<PersonView>) -> bool {
    forall|i: int, j: int|
        0 <= i < p.len() && 0 <= j < p.len() && i != j && p[i].event_id == p[j].event_id
            ==> p[i].name != p[j].name
}

/// A stored password admits a supplied credential: none was set, or they are equal.
pub open spec fn admits(stored: Option<Seq<char>>, credential: Option<Seq<char>>) -> bool {
    stored is None || stored == credential
}

/// What a deletion pass keeps of the events: exactly those created at or
/// after the cutoff, each taken from the input, with unique ids kept unique.
pub proof fn lemma_kept_events_sub(s: Seq<Event>, cutoff: i64)
    ensures
        forall|k: int| 0 <= k < kept_events(s, cutoff).len() ==> s.contains(#[trigger] kept_events(s, cutoff)[k])
            && kept_events(s, cutoff)[k].created_at >= cutoff,
        forall|i: int| 0 <= i < s.len() && s[i].created_at >= cutoff ==> kept_events(s, cutoff).contains(#[trigger] s[i]),
        unique_ids(s) ==> unique_ids(kept_events(s, cutoff)),
    decreases s.len(),
{
    if s.len() > 0 {
        let d = s.drop_last();
        lemma_kept_events_sub(d, cutoff);
        let kd = kept_events(d, cutoff);
        assert forall|k: int| 0 <= k < kd.len() implies s.contains(#[trigger] kd[k]) by {
            let m = choose|m: int| 0 <= m < d.len() && d[m] == kd[k];
            assert(s[m] == d[m]);
        }
        assert forall|i: int| 0 <= i < s.len() && s[i].created_at >= cutoff implies kept_events(s, cutoff).contains(#[trigger] s[i]) by {
            if i < s.len() - 1 {
                assert(d[i] == s[i]);
                assert(kd.contains(d[i]));
                let m = choose|m: int| 0 <= m < kd.len() && kd[m] == d[i];
                if s.last().created_at >= cutoff {
                    assert(kept_events(s, cutoff)[m] == kd[m]);
                }
            } else {
                assert(kept_events(s, cutoff)[kd.len() as int] == s[i]);
            }
        }
        if unique_ids(s) {
            assert(unique_ids(d));
            if s.last().created_at >= cutoff {
                let ks = kept_events(s, cutoff);
                assert forall|i: int, j: int| 0 <= i < ks.len() && 0 <= j < ks.len() && i != j implies ks[i].id != ks[j].id by {
                    if i < kd.len() && j < kd.len() {
                        assert(ks[i] == kd[i] && ks[j] == kd[j]);
                    } else if i < kd.len() {
                        assert(ks[i] == kd[i]);
                        let m = choose|m: int| 0 <= m < d.len() && d[m] == kd[i];
                        assert(s[m] == d[m]);
                    } else {
                        assert(ks[j] == kd[j]);
                        let m = choose|m: int| 0 <= m < d.len() && d[m] == kd[j];
                        assert(s[m] == d[m]);
                    }
                }
            }
        }
    }
}

/// What a deletion pass keeps of the people: each is taken from the input
/// and belongs to no stale event; distinct names stay distinct.
pub proof fn lemma_kept_people_sub(p: Seq<PersonView>, events: Seq<Event>, cutoff: i64)
    ensures
        forall|k: int| 0 <= k < kept_people(p, events, cutoff).len() ==> p.contains(#[trigger] kept_people(p, events, cutoff)[k])
            && !is_stale_id(events, kept_people(p, events, cutoff)[k].event_id, cutoff),
        forall|i: int| 0 <= i < p.len() && !is_stale_id(events, p[i].event_id, cutoff)
            ==> kept_people(p, events, cutoff).contains(#[trigger] p[i]),
        distinct_names(p) ==> distinct_names(kept_people(p, events, cutoff)),
    decreases p.len(),
{
    if p.len() > 0 {
        let d = p.drop_last();
        lemma_kept_people_sub(d, events, cutoff);
        let kd = kept_people(d, events, cutoff);
        assert forall|k: int| 0 <= k < kd.len() implies p.contains(#[trigger] kd[k]) by {
            let m = choose|m: int| 0 <= m < d.len() && d[m] == kd[k];
            assert(p[m] == d[m]);
        }
        assert forall|i: int| 0 <= i < p.len() && !is_stale_id(events, p[i].event_id, cutoff)
            implies kept_people(p, events, cutoff).contains(#[trigger] p[i]) by {
            if i < p.len() - 1 {
                assert(d[i] == p[i]);
                assert(kd.contains(d[i]));
                let m = choose|m: int| 0 <= m < kd.len() && kd[m] == d[i];
                assert(kept_people(p, events, cutoff)[m] == kd[m]);
            } else {
                assert(kept_people(p, events, cutoff)[kd.len() as int] == p[i]);
            }
        }
        if distinct_names(p) {
            assert(distinct_names(d));
            if !is_stale_id(events, p.last().event_id, cutoff) {
                let ks = kept_people(p, events, cutoff);
                let n = p.len() - 1;
                assert forall|i: int, j: int|
                    0 <= i < ks.len() && 0 <= j < ks.len() && i != j && ks[i].event_id == ks[j].event_id
                        implies ks[i].name != ks[j].name by {
                    if i < kd.len() && j < kd.len() {
                        assert(ks[i] == kd[i] && ks[j] == kd[j]);
                    } else if i < kd.len() {
                        assert(ks[i] == kd[i]);
                        let m = choose|m: int| 0 <= m < d.len() && d[m] == kd[i];
                        assert(p[m] == d[m]);
                        assert(p[n] == ks[j]);
                    } else {
                        assert(ks[j] == kd[j]);
                        let m = choose|m: int| 0 <= m < d.len() && d[m] == kd[j];
                        assert(p[m] == d[m]);
                        assert(p[n] == ks[i]);
                    }
                }
            }
        }
    }
}


/// The storage capability that the service depends on. An implementation owns
/// all durable state; a failed call leaves it as it was.
pub trait Adaptor: Sized {
    /// The implementation's own invariant.
    spec fn inv(&self) -> bool;

    /// The stored events, in an order that is stable absent mutation.
    spec fn stored_events(&self) -> Seq<Event>;

    /// The stored people, in an order that is stable absent mutation.
    spec fn stored_people(&self) -> Seq<PersonView>;

    /// What the invariant guarantees of the stored data: event ids are unique,
    /// every person belongs to a stored event, and names are unique per event.
    proof fn lemma_inv_shape(&self)
        requires
            self.inv(),
        ensures
            unique_ids(self.stored_events()),
            distinct_names(self.stored_people()),
            forall|i: int| 0 <= i < self.stored_people().len()
                ==> has_event(self.stored_events(), #[trigger] self.stored_people()[i].event_id);

    /// Persists a new event created at `now` under an id that no stored event has.
    fn create_event(&mut self, input: NewEvent, now: i64) -> (r: Result<Event, AdaptorError>)
        requires
            old(self).inv(),
        ensures
            final(self).inv(),
            final(self).stored_people() == old(self).stored_people(),
            r is Ok ==> r->Ok_0 == new_event(input, r->Ok_0.id, now)
                && !has_event(old(self).stored_events(), r->Ok_0.id)
                && final(self).stored_events() == old(self).stored_events().push(r->Ok_0),
            r is Err ==> final(self).stored_events() == old(self).stored_events();

    fn get_event(&self, id: u64) -> (r: Result<Event, AdaptorError>)
        requires
            self.inv(),
        ensures
            r is Ok ==> self.stored_events().contains(r->Ok_0) && r->Ok_0.id == id,
            !has_event(self.stored_events(), id) ==> r is Err,
            r == Err::<Event, AdaptorError>(AdaptorError::NotFound) ==> !has_event(self.stored_events(), id);

    fn get_people(&self, id: u64) -> (r: Result<Vec<Person>, AdaptorError>)
        requires
            self.inv(),
        ensures
            r is Ok ==> has_event(self.stored_events(), id)
                && person_views(r->Ok_0@) == people_of(self.stored_people(), id),
            !has_event(self.stored_events(), id) ==> r is Err,
            r == Err::<Vec<Person>, AdaptorError>(AdaptorError::NotFound) ==> !has_event(self.stored_events(), id);

    fn get_person(&self, id: u64, name: &String) -> (r: Result<Person, AdaptorError>)
        requires
            self.inv(),
        ensures
            r is Ok ==> exists|j: int|
                locates(self.stored_people(), j, id, name@) && self.stored_people()[j] == r->Ok_0@,
            (forall|j: int| !locates(self.stored_people(), j, id, name@)) ==> r is Err,
            r == Err::<Person, AdaptorError>(AdaptorError::NotFound)
                ==> forall|j: int| !locates(self.stored_people(), j, id, name@);

    /// Creates the person or overwrites its availability; a stored password
    /// admits only an equal credential.
    fn update_person(&mut self, id: u64, name: String, availability: Vec<Slot>, credential: Option<String>) -> (r:
        Result<(), AdaptorError>)
        requires
            old(self).inv(),
        ensures
            final(self).inv(),
            final(self).stored_events() == old(self).stored_events(),
            r is Err ==> final(self).stored_people() == old(self).stored_people(),
            !has_event(old(self).stored_events(), id) ==> r is Err,
            (exists|j: int| locates(old(self).stored_people(), j, id, name@)
                && !admits(old(self).stored_people()[j].password, opt_view(credential))) ==> r is Err,
            r is Ok ==> has_event(old(self).stored_events(), id) && (
                ((forall|j: int| !locates(old(self).stored_people(), j, id, name@))
                    && final(self).stored_people() == old(self).stored_people().push(PersonView {
                        event_id: id,
                        name: name@,
                        password: opt_view(credential),
                        availability: availability@,
                    }))
                || (exists|j: int| locates(old(self).stored_people(), j, id, name@)
                    && final(self).stored_people() == old(self).stored_people().update(j, PersonView {
                        availability: availability@,
                        ..old(self).stored_people()[j]
                    }))),
            r == Err::<(), AdaptorError>(AdaptorError::Unauthorized) ==> exists|j: int|
                locates(old(self).stored_people(), j, id, name@)
                    && !admits(old(self).stored_people()[j].password, opt_view(credential));

    /// Deletes every event created strictly before `cutoff`, with its people.
    fn delete_events(&mut self, cutoff: i64) -> (r: Result<DeletionCounts, AdaptorError>)
        requires
            old(self).inv(),
        ensures
            final(self).inv(),
            r is Ok ==> final(self).stored_events() == kept_events(old(self).stored_events(), cutoff)
                && final(self).stored_people() == kept_people(old(self).stored_people(), old(self).stored_events(), cutoff)
                && r->Ok_0.event_count == stale_count(old(self).stored_events(), cutoff)
                && r->Ok_0.person_count == stale_people_count(old(self).stored_people(), old(self).stored_events(), cutoff),
            r is Err ==> final(self).stored_events() == old(self).stored_events()
                && final(self).stored_people() == old(self).stored_people();

    /// Aggregate counters; reads only.
    fn get_stats(&self) -> (r: Stats);
}

impl Event {
    /// A field-by-field copy.
    pub fn copied(&self) -> (r: Event)
        ensures
            r == *self,
    {
        Event {
            id: self.id,
            created_at: self.created_at,
            name: self.name.clone(),
            timezone: self.timezone.clone(),
            earliest: self.earliest,
            latest: self.latest,
            kind: self.kind,
        }
    }
}

fn copy_slots(v: &Vec<Slot>) -> (r: Vec<Slot>)
    ensures
        r@ == v@,
{
    let mut r: Vec<Slot> = Vec::new();
    let mut i: usize = 0;
    while i < v.len()
        invariant
            i <= v.len(),
            r@ == v@.subrange(0, i as int),
        decreases v.len() - i,
    {
        r.push(v[i]);
        i = i + 1;
        assert(r@ =~= v@.subrange(0, i as int));
    }
    assert(r@ =~= v@);
    r
}

fn copy_opt_string(o: &Option<String>) -> (r: Option<String>)
    ensures
        opt_view(r) == opt_view(*o),
{
    match o {
        Some(s) => Some(s.clone()),
        None => None,
    }
}

impl Person {
    /// A field-by-field copy.
    pub fn copied(&self) -> (r: Person)
        ensures
            r@ == self@,
    {
        Person {
            event_id: self.event_id,
            name: self.name.clone(),
            password_hash: copy_opt_string(&self.password_hash),
            availability: copy_slots(&self.availability),
        }
    }
}

} // verus!
