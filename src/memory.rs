use vstd::prelude::*;

use crate::adaptor::{
    admits, distinct_names, Adaptor, has_event, is_stale_id, kept_events, kept_people, lemma_kept_events_sub,
    lemma_kept_people_sub, locates, new_event, opt_view, people_of, person_views, stale_count,
    stale_people_count, unique_ids, AdaptorError, DeletionCounts, Event, NewEvent, Person, PersonView,
    Slot, Stats,
};

verus! {

/// A storage adaptor that keeps every event and person in process memory.
pub struct MemoryAdaptor {
    events: Vec<Event>,
    people: Vec<Person>,
    next_id: u64,
    people_created: u64,
}

impl MemoryAdaptor {
    /// The stored events, in order of creation.
    pub closed spec fn events_seq(&self) -> Seq<Event> {
        self.events@
    }

    /// The stored people, in order of first submission.
    pub closed spec fn people_seq(&self) -> Seq<PersonView> {
        person_views(self.people@)
    }

    /// The id that the next created event receives.
    pub closed spec fn next_id_spec(&self) -> u64 {
        self.next_id
    }

    /// How many people were created so far, saturating at the largest `u64`.
    pub closed spec fn people_created_spec(&self) -> u64 {
        self.people_created
    }

    /// Event ids are unique and below the next id; every person belongs to a
    /// stored event; a name occurs at most once per event.
    pub closed spec fn wf(&self) -> bool {
        let p = self.people_seq();
        &&& unique_ids(self.events@)
        &&& forall|i: int| 0 <= i < self.events@.len() ==> self.events@[i].id < self.next_id
        &&& forall|i: int| 0 <= i < p.len() ==> has_event(self.events@, #[trigger] p[i].event_id)
        &&& distinct_names(p)
    }

    /// An empty store.
    pub fn new() -> (r: MemoryAdaptor)
        ensures
            r.wf(),
            r.events_seq().len() == 0,
            r.people_seq().len() == 0,
            r.next_id_spec() == 0,
            r.people_created_spec() == 0,
    {
        let r = MemoryAdaptor { events: Vec::new(), people: Vec::new(), next_id: 0, people_created: 0 };
        assert(r.people_seq() =~= Seq::<PersonView>::empty());
        r
    }

    /// Stores a new event created at `now` under a fresh id.
    pub fn create_event(&mut self, input: NewEvent, now: i64) -> (r: Result<Event, AdaptorError>)
        requires
            old(self).wf(),
        ensures
            final(self).wf(),
            final(self).people_seq() == old(self).people_seq(),
            final(self).people_created_spec() == old(self).people_created_spec(),
            old(self).next_id_spec() == u64::MAX ==> r == Err::<Event, AdaptorError>(AdaptorError::Backend)
                && final(self).events_seq() == old(self).events_seq()
                && final(self).next_id_spec() == old(self).next_id_spec(),
            old(self).next_id_spec() < u64::MAX ==> r is Ok
                && r->Ok_0 == new_event(input, old(self).next_id_spec(), now)
                && !has_event(old(self).events_seq(), old(self).next_id_spec())
                && final(self).events_seq() == old(self).events_seq().push(r->Ok_0)
                && final(self).next_id_spec() == old(self).next_id_spec() + 1,
    {
        if self.next_id == u64::MAX {
            return Err(AdaptorError::Backend);
        }
        let id = self.next_id;
        let e = Event {
            id,
            created_at: now,
            name: input.name,
            timezone: input.timezone,
            earliest: input.earliest,
            latest: input.latest,
            kind: input.kind,
        };
        let stored = e.copied();
        let ghost old_events = self.events@;
        self.events.push(stored);
        self.next_id = id + 1;
        assert(self.events@ == old_events.push(e));
        assert forall|i: int| 0 <= i < old_events.len() implies old_events[i].id != id by {}
        assert(self.people_seq() == old(self).people_seq());
        assert forall|i: int| 0 <= i < self.people_seq().len()
            implies has_event(self.events@, #[trigger] self.people_seq()[i].event_id) by {
            let k = choose|k: int| 0 <= k < old_events.len() && old_events[k].id == self.people_seq()[i].event_id;
            assert(self.events@[k] == old_events[k]);
        }
        Ok(e)
    }

    /// The event stored under `id`.
    pub fn get_event(&self, id: u64) -> (r: Result<Event, AdaptorError>)
        requires
            self.wf(),
        ensures
            r is Ok <==> has_event(self.events_seq(), id),
            r is Ok ==> self.events_seq().contains(r->Ok_0) && r->Ok_0.id == id,
            r is Err ==> r == Err::<Event, AdaptorError>(AdaptorError::NotFound),
    {
        let mut i: usize = 0;
        while i < self.events.len()
            invariant
                i <= self.events@.len(),
                forall|k: int| 0 <= k < i ==> self.events@[k].id != id,
            decreases self.events@.len() - i,
        {
            if self.events[i].id == id {
                let e = self.events[i].copied();
                assert(self.events@[i as int] == e);
                return Ok(e);
            }
            i = i + 1;
        }
        Err(AdaptorError::NotFound)
    }

    /// Position of the event `id`, if it is stored.
    fn find_event(&self, id: u64) -> (r: Option<usize>)
        ensures
            r is Some <==> has_event(self.events@, id),
            r is Some ==> r->Some_0 < self.events@.len() && self.events@[r->Some_0 as int].id == id,
    {
        let mut i: usize = 0;
        while i < self.events.len()
            invariant
                i <= self.events@.len(),
                forall|k: int| 0 <= k < i ==> self.events@[k].id != id,
            decreases self.events@.len() - i,
        {
            if self.events[i].id == id {
                return Some(i);
            }
            i = i + 1;
        }
        None
    }

    /// Position of the person `name` of event `id`, if there is one.
    fn find_person(&self, id: u64, name: &String) -> (r: Option<usize>)
        ensures
            r is Some <==> exists|j: int| locates(self.people_seq(), j, id, name@),
            r is Some ==> locates(self.people_seq(), r->Some_0 as int, id, name@),
    {
        let mut j: usize = 0;
        while j < self.people.len()
            invariant
                j <= self.people@.len(),
                forall|k: int| 0 <= k < j ==> !locates(self.people_seq(), k, id, name@),
            decreases self.people@.len() - j,
        {
            if self.people[j].event_id == id && self.people[j].name == *name {
                assert(locates(self.people_seq(), j as int, id, name@));
                return Some(j);
            }
            j = j + 1;
        }
        None
    }

    /// The people of event `id`, in the order of their first submission.
    pub fn get_people(&self, id: u64) -> (r: Result<Vec<Person>, AdaptorError>)
        requires
            self.wf(),
        ensures
            r is Ok <==> has_event(self.events_seq(), id),
            r is Ok ==> person_views(r->Ok_0@) == people_of(self.people_seq(), id),
            r is Err ==> r == Err::<Vec<Person>, AdaptorError>(AdaptorError::NotFound),
    {
        if self.find_event(id).is_none() {
            return Err(AdaptorError::NotFound);
        }
        let mut out: Vec<Person> = Vec::new();
        let mut j: usize = 0;
        let ghost all = self.people_seq();
        while j < self.people.len()
            invariant
                j <= self.people@.len(),
                all == person_views(self.people@),
                person_views(out@) == people_of(all.subrange(0, j as int), id),
            decreases self.people@.len() - j,
        {
            assert(all.subrange(0, j + 1).drop_last() =~= all.subrange(0, j as int));
            if self.people[j].event_id == id {
                let p = self.people[j].copied();
                let ghost before = out@;
                out.push(p);
                assert(person_views(out@) =~= person_views(before).push(p@));
            }
            j = j + 1;
        }
        assert(all.subrange(0, j as int) =~= all);
        Ok(out)
    }

    /// The person `name` of event `id`.
    pub fn get_person(&self, id: u64, name: &String) -> (r: Result<Person, AdaptorError>)
        requires
            self.wf(),
        ensures
            r is Ok <==> exists|j: int| locates(self.people_seq(), j, id, name@),
            r is Ok ==> exists|j: int|
                locates(self.people_seq(), j, id, name@) && self.people_seq()[j] == r->Ok_0@,
            r is Err ==> r == Err::<Person, AdaptorError>(AdaptorError::NotFound),
    {
        match self.find_person(id, name) {
            Some(j) => Ok(self.people[j].copied()),
            None => Err(AdaptorError::NotFound),
        }
    }

    /// Creates the person `name` of event `id`, or overwrites its availability.
    /// A person with a password accepts only an equal credential. On failure
    /// nothing changes.
    pub fn update_person(
        &mut self,
        id: u64,
        name: String,
        availability: Vec<Slot>,
        credential: Option<String>,
    ) -> (r: Result<(), AdaptorError>)
        requires
            old(self).wf(),
        ensures
            final(self).wf(),
            final(self).events_seq() == old(self).events_seq(),
            final(self).next_id_spec() == old(self).next_id_spec(),
            has_event(old(self).events_seq(), id) && (forall|j: int| locates(old(self).people_seq(), j, id, name@)
                ==> admits(old(self).people_seq()[j].password, opt_view(credential))) ==> r is Ok,
            r is Ok ==> exists|j: int| locates(final(self).people_seq(), j, id, name@)
                && final(self).people_seq()[j].availability == availability@,
            ({
                let p = old(self).people_seq();
                let known = has_event(old(self).events_seq(), id);
                let cred = opt_view(credential);
                match r {
                    Err(AdaptorError::NotFound) => !known && *final(self) == *old(self),
                    Err(AdaptorError::Unauthorized) => known && *final(self) == *old(self)
                        && exists|j: int| locates(p, j, id, name@) && !admits(p[j].password, cred),
                    Ok(()) => known && (
                        ((forall|j: int| !locates(p, j, id, name@))
                            && final(self).people_seq() == p.push(PersonView {
                                event_id: id,
                                name: name@,
                                password: cred,
                                availability: availability@,
                            })
                            && final(self).people_created_spec() as int == if old(self).people_created_spec() == u64::MAX {
                                u64::MAX as int
                            } else {
                                old(self).people_created_spec() + 1
                            })
                        || (exists|j: int| locates(p, j, id, name@) && admits(p[j].password, cred)
                            && final(self).people_seq() == p.update(j, PersonView {
                                availability: availability@,
                                ..p[j]
                            })
                            && final(self).people_created_spec() == old(self).people_created_spec())),
                    _ => false,
                }
            }),
    {
        let found = self.find_event(id);
        if found.is_none() {
            return Err(AdaptorError::NotFound);
        }
        let ghost p = self.people_seq();
        match self.find_person(id, &name) {
            None => {
                let ghost name_view = name@;
                let person = Person { event_id: id, name, password_hash: credential, availability };
                let ghost pv = person@;
                self.people.push(person);
                assert(self.people_seq() =~= p.push(pv));
                assert(locates(self.people_seq(), p.len() as int, id, name_view));
                assert(has_event(self.events@, id)) by {
                    assert(self.events@[found.unwrap() as int].id == id);
                }
                assert forall|i: int, k: int|
                    0 <= i < self.people_seq().len() && 0 <= k < self.people_seq().len() && i != k
                        && self.people_seq()[i].event_id == self.people_seq()[k].event_id
                        implies self.people_seq()[i].name != self.people_seq()[k].name by {
                    if i == p.len() {
                        assert(!locates(p, k, id, pv.name));
                    } else if k == p.len() {
                        assert(!locates(p, i, id, pv.name));
                    }
                }
                self.people_created = self.people_created.saturating_add(1);
                Ok(())
            },
            Some(j) => {
                let allowed = match &self.people[j].password_hash {
                    None => true,
                    Some(stored) => match &credential {
                        Some(c) => *stored == *c,
                        None => false,
                    },
                };
                if !allowed {
                    return Err(AdaptorError::Unauthorized);
                }
                let ghost target = PersonView { availability: availability@, ..p[j as int] };
                self.people[j].availability = availability;
                assert(self.people_seq() =~= p.update(j as int, target));
                assert(locates(self.people_seq(), j as int, id, name@));
                assert forall|i: int| 0 <= i < self.people_seq().len()
                    implies has_event(self.events@, #[trigger] self.people_seq()[i].event_id) by {
                    assert(self.people_seq()[i].event_id == p[i].event_id);
                }
                assert forall|i: int, k: int|
                    0 <= i < self.people_seq().len() && 0 <= k < self.people_seq().len() && i != k
                        && self.people_seq()[i].event_id == self.people_seq()[k].event_id
                        implies self.people_seq()[i].name != self.people_seq()[k].name by {
                    assert(self.people_seq()[i].name == p[i].name && self.people_seq()[k].name == p[k].name);
                }
                Ok(())
            },
        }
    }

    /// Removes every event created strictly before `cutoff`, with its people.
    pub fn delete_events(&mut self, cutoff: i64) -> (r: DeletionCounts)
        requires
            old(self).wf(),
        ensures
            final(self).wf(),
            final(self).events_seq() == kept_events(old(self).events_seq(), cutoff),
            final(self).people_seq() == kept_people(old(self).people_seq(), old(self).events_seq(), cutoff),
            r.event_count == stale_count(old(self).events_seq(), cutoff),
            r.person_count == stale_people_count(old(self).people_seq(), old(self).events_seq(), cutoff),
            final(self).next_id_spec() == old(self).next_id_spec(),
            final(self).people_created_spec() == old(self).people_created_spec(),
    {
        let ghost ev = self.events@;
        let ghost pv = self.people_seq();
        let mut kept: Vec<Event> = Vec::new();
        let mut event_count: usize = 0;
        let mut i: usize = 0;
        while i < self.events.len()
            invariant
                i <= self.events@.len(),
                ev == self.events@,
                kept@ == kept_events(ev.subrange(0, i as int), cutoff),
                event_count == stale_count(ev.subrange(0, i as int), cutoff),
                event_count <= i,
            decreases self.events@.len() - i,
        {
            assert(ev.subrange(0, i + 1).drop_last() =~= ev.subrange(0, i as int));
            if self.events[i].created_at < cutoff {
                event_count = event_count + 1;
            } else {
                kept.push(self.events[i].copied());
            }
            i = i + 1;
        }
        assert(ev.subrange(0, i as int) =~= ev);
        let mut kept_p: Vec<Person> = Vec::new();
        let mut person_count: usize = 0;
        let mut j: usize = 0;
        while j < self.people.len()
            invariant
                j <= self.people@.len(),
                ev == self.events@,
                pv == person_views(self.people@),
                person_views(kept_p@) == kept_people(pv.subrange(0, j as int), ev, cutoff),
                person_count == stale_people_count(pv.subrange(0, j as int), ev, cutoff),
                person_count <= j,
            decreases self.people@.len() - j,
        {
            assert(pv.subrange(0, j + 1).drop_last() =~= pv.subrange(0, j as int));
            if event_is_stale(&self.events, self.people[j].event_id, cutoff) {
                person_count = person_count + 1;
            } else {
                let q = self.people[j].copied();
                let ghost before = kept_p@;
                kept_p.push(q);
                assert(person_views(kept_p@) =~= person_views(before).push(q@));
            }
            j = j + 1;
        }
        assert(pv.subrange(0, j as int) =~= pv);
        proof {
            lemma_kept_events_sub(ev, cutoff);
            lemma_kept_people_sub(pv, ev, cutoff);
        }
        self.events = kept;
        self.people = kept_p;
        proof {
            let ke = kept_events(ev, cutoff);
            let kp = kept_people(pv, ev, cutoff);
            assert forall|k: int| 0 <= k < kp.len() implies has_event(ke, #[trigger] kp[k].event_id) by {
                let m = choose|m: int| 0 <= m < pv.len() && pv[m] == kp[k];
                assert(has_event(ev, pv[m].event_id));
                let e = choose|e: int| 0 <= e < ev.len() && ev[e].id == pv[m].event_id;
                assert(ev[e].created_at >= cutoff);
                assert(ke.contains(ev[e]));
            }
            assert forall|k: int| 0 <= k < ke.len() implies ke[k].id < self.next_id by {
                assert(ev.contains(ke[k]));
            }
        }
        DeletionCounts { event_count, person_count }
    }

    /// Events and people created so far.
    pub fn get_stats(&self) -> (r: Stats)
        ensures
            r.event_count == self.next_id_spec(),
            r.person_count == self.people_created_spec(),
    {
        Stats { event_count: self.next_id, person_count: self.people_created }
    }
}

impl Adaptor for MemoryAdaptor {
    open spec fn inv(&self) -> bool {
        self.wf()
    }

    open spec fn stored_events(&self) -> Seq<Event> {
        self.events_seq()
    }

    open spec fn stored_people(&self) -> Seq<PersonView> {
        self.people_seq()
    }

    proof fn lemma_inv_shape(&self) {
    }

    fn create_event(&mut self, input: NewEvent, now: i64) -> (r: Result<Event, AdaptorError>) {
        MemoryAdaptor::create_event(self, input, now)
    }

    fn get_event(&self, id: u64) -> (r: Result<Event, AdaptorError>) {
        MemoryAdaptor::get_event(self, id)
    }

    fn get_people(&self, id: u64) -> (r: Result<Vec<Person>, AdaptorError>) {
        MemoryAdaptor::get_people(self, id)
    }

    fn get_person(&self, id: u64, name: &String) -> (r: Result<Person, AdaptorError>) {
        let r = MemoryAdaptor::get_person(self, id, name);
        proof {
            let p = self.stored_people();
            assert(p == self.people_seq());
            if r is Ok {
                let j = choose|j: int| locates(self.people_seq(), j, id, name@) && self.people_seq()[j] == r->Ok_0@;
                assert(locates(p, j, id, name@) && p[j] == r->Ok_0@);
            } else {
                assert(forall|j: int| !locates(p, j, id, name@));
            }
        }
        r
    }

    fn update_person(&mut self, id: u64, name: String, availability: Vec<Slot>, credential: Option<String>) -> (r:
        Result<(), AdaptorError>) {
        MemoryAdaptor::update_person(self, id, name, availability, credential)
    }

    fn delete_events(&mut self, cutoff: i64) -> (r: Result<DeletionCounts, AdaptorError>) {
        Ok(MemoryAdaptor::delete_events(self, cutoff))
    }

    fn get_stats(&self) -> (r: Stats) {
        MemoryAdaptor::get_stats(self)
    }
}

/// Whether some event under `id` was created strictly before `cutoff`.
fn event_is_stale(events: &Vec<Event>, id: u64, cutoff: i64) -> (r: bool)
    ensures
        r == is_stale_id(events@, id, cutoff),
{
    let mut i: usize = 0;
    while i < events.len()
        invariant
            i <= events@.len(),
            forall|k: int| 0 <= k < i ==> !(events@[k].id == id && events@[k].created_at < cutoff),
        decreases events@.len() - i,
    {
        if events[i].id == id && events[i].created_at < cutoff {
            return true;
        }
        i = i + 1;
    }
    false
}

} // verus!
