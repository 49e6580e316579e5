//! The calendar: dated events with store-assigned identifiers,
//! listed by exact date match and deleted by identifier. The store
//! here is the in-memory model of the single on-disk table; the
//! unverified shell loads and persists rows and leaves every
//! decision to this module.

use vstd::prelude::*;

verus! {

/// One calendar entry. The date is an opaque string: nothing here
/// validates its format, and two events may share a date.
pub struct Event {
    pub id: i64,
    pub title: String,
    pub description: String,
    pub date: String,
}

impl Clone for Event {
    /// The copy equals the original in every field.
    fn clone(&self) -> (r: Self)
        ensures
            r == *self,
    {
        Event {
            id: self.id,
            title: self.title.clone(),
            description: self.description.clone(),
            date: self.date.clone(),
        }
    }
}

/// The events of `events` whose date equals `date` exactly, in order.
pub open spec fn events_on(events: Seq<Event>, date: Seq<char>) -> Seq<Event> {
    events.filter(|e: Event| e.date@ == date)
}

/// All events of `events` whose date equals `date` exactly, kept in
/// their stored order.
pub fn events_matching(events: &Vec<Event>, date: &String) -> (r: Vec<Event>)
    ensures
        r@ == events_on(events@, date@),
{
    let mut r: Vec<Event> = Vec::new();
    let mut i: usize = 0;
    while i < events.len()
        invariant
            i <= events@.len(),
            r@ == events_on(events@.take(i as int), date@),
        decreases events@.len() - i,
    {
        proof {
            reveal(Seq::filter);
            assert(events@.take(i + 1).drop_last() =~= events@.take(i as int));
            assert(events@.take(i + 1).last() == events@[i as int]);
        }
        if events[i].date == *date {
            r.push(events[i].clone());
        }
        i += 1;
    }
    proof {
        assert(events@.take(events@.len() as int) =~= events@);
    }
    r
}

/// The in-memory event store: the stored events in insertion order,
/// and the identifier the next insertion will be given.
pub struct EventStore {
    events: Vec<Event>,
    next_id: i64,
}

impl View for EventStore {
    type V = Seq<Event>;

    closed spec fn view(&self) -> Seq<Event> {
        self.events@
    }
}

impl EventStore {
    /// The identifier the store will assign next.
    pub closed spec fn next_id_spec(&self) -> int {
        self.next_id as int
    }

    /// Identifiers are assigned in increasing order, so they are
    /// unique, and all stay below the one to be assigned next.
    pub closed spec fn wf(&self) -> bool {
        &&& 1 <= self.next_id
        &&& forall|i: int, j: int|
            0 <= i < j < self.events@.len() ==> self.events@[i].id < self.events@[j].id
        &&& forall|i: int| 0 <= i < self.events@.len() ==> #[trigger] self.events@[i].id < self.next_id
    }

    /// The store assigns identifiers uniquely: no two stored events
    /// share one.
    pub proof fn lemma_ids_unique(&self)
        requires
            self.wf(),
        ensures
            forall|i: int, j: int| 0 <= i < j < self@.len() ==> self@[i].id != self@[j].id,
    {
    }

    /// A fresh store holding nothing.
    pub fn new() -> (r: EventStore)
        ensures
            r@ =~= Seq::<Event>::empty(),
            r.wf(),
            r.next_id_spec() == 1,
    {
        EventStore { events: Vec::new(), next_id: 1 }
    }

    /// Inserts a new event and returns the identifier the store
    /// assigned to it. No validation of the date format and no
    /// duplicate detection: every insertion is accepted.
    pub fn add_event(&mut self, title: String, description: String, date: String) -> (id: i64)
        requires
            old(self).wf(),
            old(self).next_id_spec() < i64::MAX,
        ensures
            final(self).wf(),
            id == old(self).next_id_spec(),
            final(self)@ == old(self)@.push(Event { id, title, description, date }),
            final(self).next_id_spec() == old(self).next_id_spec() + 1,
    {
        let id = self.next_id;
        self.events.push(Event { id, title, description, date });
        self.next_id = self.next_id + 1;
        id
    }

    /// All stored events whose date equals `date` exactly, in
    /// insertion order.
    pub fn get_events(&self, date: &String) -> (r: Vec<Event>)
        ensures
            r@ == events_on(self@, date@),
    {
        events_matching(&self.events, date)
    }

    /// Removes the event carrying `id`; a no-op when no stored event
    /// carries it.
    pub fn delete_event(&mut self, id: i64)
        requires
            old(self).wf(),
        ensures
            final(self).wf(),
            final(self)@ == old(self)@.filter(|e: Event| e.id != id),
            final(self).next_id_spec() == old(self).next_id_spec(),
    {
        let mut kept: Vec<Event> = Vec::new();
        let mut i: usize = 0;
        while i < self.events.len()
            invariant
                i <= self.events@.len(),
                kept@ == self.events@.take(i as int).filter(|e: Event| e.id != id),
            decreases self.events@.len() - i,
        {
            proof {
                reveal(Seq::filter);
                assert(self.events@.take(i + 1).drop_last() =~= self.events@.take(i as int));
                assert(self.events@.take(i + 1).last() == self.events@[i as int]);
            }
            if self.events[i].id != id {
                kept.push(self.events[i].clone());
            }
            i += 1;
        }
        proof {
            assert(self.events@.take(self.events@.len() as int) =~= self.events@);
            lemma_filter_keeps_order(self.events@, |e: Event| e.id != id);
        }
        self.events = kept;
    }
}

/// Filtering keeps every kept element's origin in the sequence: each
/// element of the result occurs in the input, and a sequence of
/// strictly increasing identifiers stays strictly increasing.
proof fn lemma_filter_keeps_order(s: Seq<Event>, pred: spec_fn(Event) -> bool)
    ensures
        forall|k: int| 0 <= k < s.filter(pred).len() ==> s.contains(#[trigger] s.filter(pred)[k]),
        (forall|i: int, j: int| 0 <= i < j < s.len() ==> s[i].id < s[j].id) ==> (forall|i: int, j: int|
            0 <= i < j < s.filter(pred).len() ==> s.filter(pred)[i].id < s.filter(pred)[j].id),
    decreases s.len(),
{
    reveal(Seq::filter);
    if s.len() == 0 {
    } else {
        let t = s.drop_last();
        lemma_filter_keeps_order(t, pred);
        assert forall|k: int| 0 <= k < s.filter(pred).len() implies s.contains(
            #[trigger] s.filter(pred)[k],
        ) by {
            if k < t.filter(pred).len() {
                assert(t.contains(t.filter(pred)[k]));
                let m = choose|m: int| 0 <= m < t.len() && t[m] == t.filter(pred)[k];
                assert(s[m] == s.filter(pred)[k]);
            } else {
                assert(s.filter(pred)[k] == s.last());
            }
        }
        if forall|i: int, j: int| 0 <= i < j < s.len() ==> s[i].id < s[j].id {
            assert(forall|i: int, j: int| 0 <= i < j < t.len() ==> t[i].id < t[j].id);
            assert forall|i: int, j: int|
                0 <= i < j < s.filter(pred).len() implies s.filter(pred)[i].id < s.filter(
                pred,
            )[j].id by {
                if j < t.filter(pred).len() {
                } else {
                    assert(t.contains(t.filter(pred)[i]));
                    let m = choose|m: int| 0 <= m < t.len() && t[m] == t.filter(pred)[i];
                    assert(s[m].id < s.last().id);
                }
            }
        }
    }
}

/// After an event is added, a listing of its date includes it, and a
/// listing of any other date does not.
pub proof fn lemma_added_event_listed(events: Seq<Event>, e: Event, other: Seq<char>)
    ensures
        events_on(events.push(e), e.date@).contains(e),
        other != e.date@ ==> !events_on(events.push(e), other).contains(e),
{
    reveal(Seq::filter);
    let s = events.push(e);
    assert(s.drop_last() =~= events);
    assert(s.last() == e);
    assert(events_on(s, e.date@) == events_on(events, e.date@).push(e));
    assert(events_on(s, e.date@).last() == e);
    if other != e.date@ {
        if events_on(s, other).contains(e) {
            let k = choose|k: int| 0 <= k < events_on(s, other).len() && events_on(s, other)[k] == e;
            s.lemma_filter_pred(|ev: Event| ev.date@ == other, k);
            assert(e.date@ == other);
        }
    }
}

} // verus!
