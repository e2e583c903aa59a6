use vstd::prelude::*;

use crate::adaptor::{
    admits, locates,
    event_matches_input, has_event, is_stale_id, kept_events, kept_people, lemma_kept_events_sub,
    lemma_kept_people_sub, new_event, stale_count, stale_people_count, unique_ids, Event, NewEvent,
    PersonView, Adaptor, DeletionCounts,
};
use crate::tasks::pass_outcome;

verus! {

/// The later of two cutoffs.
pub open spec fn later(c1: i64, c2: i64) -> i64 {
    if c1 >= c2 {
        c1
    } else {
        c2
    }
}

/// An event fetched right after its creation, under the id that creation
/// returned, is the created event: it holds exactly the fields of the input,
/// and a lookup of that id succeeds.
pub proof fn lemma_created_event_is_fetched(
    before: Seq<Event>,
    input: NewEvent,
    id: u64,
    now: i64,
    fetched: Event,
)
    requires
        unique_ids(before),
        !has_event(before, id),
        before.push(new_event(input, id, now)).contains(fetched),
        fetched.id == id,
    ensures
        has_event(before.push(new_event(input, id, now)), id),
        fetched == new_event(input, id, now),
        event_matches_input(fetched, input),
        fetched.created_at == now,
{
    let after = before.push(new_event(input, id, now));
    assert(after[before.len() as int].id == id);
    let k = choose|k: int| 0 <= k < after.len() && after[k] == fetched;
    if k < before.len() {
        assert(before[k] == after[k]);
    }
}

proof fn lemma_nothing_stale(s: Seq<Event>, cutoff: i64)
    requires
        forall|k: int| 0 <= k < s.len() ==> s[k].created_at >= cutoff,
    ensures
        stale_count(s, cutoff) == 0,
        kept_events(s, cutoff) == s,
        forall|id: u64| !is_stale_id(s, id, cutoff),
    decreases s.len(),
{
    if s.len() > 0 {
        lemma_nothing_stale(s.drop_last(), cutoff);
        assert(s.drop_last().push(s.last()) =~= s);
    }
}

proof fn lemma_no_stale_people(p: Seq<PersonView>, events: Seq<Event>, cutoff: i64)
    requires
        forall|id: u64| !is_stale_id(events, id, cutoff),
    ensures
        stale_people_count(p, events, cutoff) == 0,
        kept_people(p, events, cutoff) == p,
    decreases p.len(),
{
    if p.len() > 0 {
        lemma_no_stale_people(p.drop_last(), events, cutoff);
        assert(p.drop_last().push(p.last()) =~= p);
    }
}

/// A second deletion pass with the same cutoff finds nothing left to delete:
/// it removes no event and no person, and leaves the state as it was.
pub proof fn lemma_delete_twice(events: Seq<Event>, people: Seq<PersonView>, cutoff: i64)
    ensures
        stale_count(kept_events(events, cutoff), cutoff) == 0,
        kept_events(kept_events(events, cutoff), cutoff) == kept_events(events, cutoff),
        stale_people_count(kept_people(people, events, cutoff), kept_events(events, cutoff), cutoff) == 0,
        kept_people(kept_people(people, events, cutoff), kept_events(events, cutoff), cutoff)
            == kept_people(people, events, cutoff),
{
    let ke = kept_events(events, cutoff);
    lemma_kept_events_sub(events, cutoff);
    assert forall|k: int| 0 <= k < ke.len() implies ke[k].created_at >= cutoff by {}
    lemma_nothing_stale(ke, cutoff);
    lemma_no_stale_people(kept_people(people, events, cutoff), ke, cutoff);
}

/// A deletion pass never removes an event created at or after the cutoff and
/// always removes one created before it; a person stays exactly when the
/// event it belongs to stays.
pub proof fn lemma_delete_respects_cutoff(events: Seq<Event>, people: Seq<PersonView>, cutoff: i64)
    ensures
        forall|i: int| 0 <= i < events.len() && events[i].created_at >= cutoff
            ==> kept_events(events, cutoff).contains(#[trigger] events[i]),
        forall|i: int| 0 <= i < events.len() && events[i].created_at < cutoff
            ==> !kept_events(events, cutoff).contains(#[trigger] events[i]),
        forall|e: Event| #[trigger] kept_events(events, cutoff).contains(e) ==> events.contains(e),
        forall|i: int| 0 <= i < people.len() && !is_stale_id(events, people[i].event_id, cutoff)
            ==> kept_people(people, events, cutoff).contains(#[trigger] people[i]),
        forall|q: PersonView| #[trigger] kept_people(people, events, cutoff).contains(q)
            ==> people.contains(q) && !is_stale_id(events, q.event_id, cutoff),
{
    lemma_kept_events_sub(events, cutoff);
    lemma_kept_people_sub(people, events, cutoff);
    let ke = kept_events(events, cutoff);
    let kp = kept_people(people, events, cutoff);
    assert forall|e: Event| #[trigger] ke.contains(e) implies events.contains(e) && e.created_at >= cutoff by {
        let k = choose|k: int| 0 <= k < ke.len() && ke[k] == e;
        assert(events.contains(ke[k]));
    }
    assert forall|q: PersonView| #[trigger] kp.contains(q) implies people.contains(q)
        && !is_stale_id(events, q.event_id, cutoff) by {
        let k = choose|k: int| 0 <= k < kp.len() && kp[k] == q;
        assert(people.contains(kp[k]));
    }
}

/// For an id that a pass with `c1` did not delete, the event is stale for a
/// following pass with `c2` exactly when it is stale for the later cutoff.
proof fn lemma_stale_id_split(s: Seq<Event>, c1: i64, c2: i64, id: u64)
    requires
        unique_ids(s),
        !is_stale_id(s, id, c1),
    ensures
        is_stale_id(kept_events(s, c1), id, c2) == is_stale_id(s, id, later(c1, c2)),
{
    lemma_kept_events_sub(s, c1);
    let k1 = kept_events(s, c1);
    if is_stale_id(k1, id, c2) {
        let k = choose|k: int| 0 <= k < k1.len() && k1[k].id == id && k1[k].created_at < c2;
        assert(s.contains(k1[k]));
        let i = choose|i: int| 0 <= i < s.len() && s[i] == k1[k];
        assert(s[i].id == id && s[i].created_at < later(c1, c2));
    }
    if is_stale_id(s, id, later(c1, c2)) {
        let i = choose|i: int| 0 <= i < s.len() && s[i].id == id && s[i].created_at < later(c1, c2);
        assert(s[i].created_at >= c1);
        assert(k1.contains(s[i]));
        let k = choose|k: int| 0 <= k < k1.len() && k1[k] == s[i];
        assert(k1[k].id == id && k1[k].created_at < c2);
    }
}

proof fn lemma_serialized_people(p: Seq<PersonView>, s: Seq<Event>, c1: i64, c2: i64)
    requires
        unique_ids(s),
    ensures
        stale_people_count(p, s, c1) + stale_people_count(kept_people(p, s, c1), kept_events(s, c1), c2)
            == stale_people_count(p, s, later(c1, c2)),
        kept_people(kept_people(p, s, c1), kept_events(s, c1), c2) == kept_people(p, s, later(c1, c2)),
    decreases p.len(),
{
    if p.len() > 0 {
        let d = p.drop_last();
        let l = p.last();
        lemma_serialized_people(d, s, c1, c2);
        let kd = kept_people(d, s, c1);
        if is_stale_id(s, l.event_id, c1) {
            let i = choose|i: int| 0 <= i < s.len() && s[i].id == l.event_id && s[i].created_at < c1;
            assert(s[i].created_at < later(c1, c2));
        } else {
            lemma_stale_id_split(s, c1, c2, l.event_id);
            assert(kd.push(l).drop_last() =~= kd);
        }
    }
}

/// Two deletion passes run one after the other, with cutoffs `c1` and `c2`,
/// remove each event and each person at most once: together they remove
/// exactly what one pass with the later cutoff removes, and leave the same state.
pub proof fn lemma_serialized_passes(events: Seq<Event>, people: Seq<PersonView>, c1: i64, c2: i64)
    requires
        unique_ids(events),
    ensures
        stale_count(events, c1) + stale_count(kept_events(events, c1), c2) == stale_count(events, later(c1, c2)),
        kept_events(kept_events(events, c1), c2) == kept_events(events, later(c1, c2)),
        stale_people_count(people, events, c1)
            + stale_people_count(kept_people(people, events, c1), kept_events(events, c1), c2)
            == stale_people_count(people, events, later(c1, c2)),
        kept_people(kept_people(people, events, c1), kept_events(events, c1), c2)
            == kept_people(people, events, later(c1, c2)),
{
    lemma_serialized_events(events, c1, c2);
    lemma_serialized_people(people, events, c1, c2);
}

proof fn lemma_serialized_events(s: Seq<Event>, c1: i64, c2: i64)
    ensures
        stale_count(s, c1) + stale_count(kept_events(s, c1), c2) == stale_count(s, later(c1, c2)),
        kept_events(kept_events(s, c1), c2) == kept_events(s, later(c1, c2)),
    decreases s.len(),
{
    if s.len() > 0 {
        let d = s.drop_last();
        lemma_serialized_events(d, c1, c2);
        let kd = kept_events(d, c1);
        if s.last().created_at >= c1 {
            assert(kd.push(s.last()).drop_last() =~= kd);
        }
    }
}

/// The password gate of `update_person` for the person at position `j`: where
/// no password was set, a call with or without any credential is admitted;
/// where one was set, a call with another credential, or none, is refused.
pub proof fn lemma_password_gate(p: Seq<PersonView>, j: int, id: u64, name: Seq<char>, credential: Option<Seq<char>>)
    requires
        locates(p, j, id, name),
    ensures
        p[j].password is None ==> admits(p[j].password, credential),
        p[j].password is Some && credential != p[j].password ==> !admits(p[j].password, credential),
{
}

/// A successful cleanup pass with `cutoff` removes whole events: an event
/// created at or after the cutoff stays, together with every one of its
/// people; an event created before it is gone, and so is every one of its
/// people; and no person is left without an event.
pub proof fn lemma_pass_removes_whole_events<A: Adaptor>(before: A, after: A, cutoff: i64, deleted: DeletionCounts)
    requires
        before.inv(),
        pass_outcome(before, after, cutoff, Ok(deleted)),
    ensures
        forall|i: int| 0 <= i < before.stored_events().len() && before.stored_events()[i].created_at >= cutoff
            ==> after.stored_events().contains(#[trigger] before.stored_events()[i]),
        forall|i: int| 0 <= i < before.stored_events().len() && before.stored_events()[i].created_at < cutoff
            ==> !has_event(after.stored_events(), #[trigger] before.stored_events()[i].id),
        forall|i: int, j: int|
            0 <= i < before.stored_events().len() && 0 <= j < before.stored_people().len()
                && #[trigger] before.stored_people()[j].event_id == #[trigger] before.stored_events()[i].id
                ==> (after.stored_people().contains(before.stored_people()[j])
                    <==> before.stored_events()[i].created_at >= cutoff),
        forall|k: int| 0 <= k < after.stored_people().len()
            ==> has_event(after.stored_events(), #[trigger] after.stored_people()[k].event_id),
{
    before.lemma_inv_shape();
    after.lemma_inv_shape();
    let ev = before.stored_events();
    let pv = before.stored_people();
    lemma_kept_events_sub(ev, cutoff);
    lemma_kept_people_sub(pv, ev, cutoff);
    let ke = kept_events(ev, cutoff);
    let kp = kept_people(pv, ev, cutoff);
    assert forall|i: int| 0 <= i < ev.len() && ev[i].created_at < cutoff
        implies !has_event(ke, #[trigger] ev[i].id) by {
        if has_event(ke, ev[i].id) {
            let k = choose|k: int| 0 <= k < ke.len() && ke[k].id == ev[i].id;
            assert(ev.contains(ke[k]));
            let m = choose|m: int| 0 <= m < ev.len() && ev[m] == ke[k];
            assert(m == i);
        }
    }
    assert forall|i: int, j: int|
        0 <= i < ev.len() && 0 <= j < pv.len() && #[trigger] pv[j].event_id == #[trigger] ev[i].id
            implies (kp.contains(pv[j]) <==> ev[i].created_at >= cutoff) by {
        if ev[i].created_at >= cutoff {
            if is_stale_id(ev, pv[j].event_id, cutoff) {
                let m = choose|m: int| 0 <= m < ev.len() && ev[m].id == pv[j].event_id && ev[m].created_at < cutoff;
                assert(m == i);
            }
        } else {
            assert(is_stale_id(ev, pv[j].event_id, cutoff));
            if kp.contains(pv[j]) {
                let k = choose|k: int| 0 <= k < kp.len() && kp[k] == pv[j];
                assert(!is_stale_id(ev, kp[k].event_id, cutoff));
            }
        }
    }
}

} // verus!
