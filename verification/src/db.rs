//! The event store: a durable mapping from event id to event record.
//!
//! The store keeps one record per id, in insertion order; a second insert
//! with the same id overwrites the prior record in place (last-write-wins).
//! Queries scan the records in order, retain those the filter matches, and
//! truncate the result to the filter's limit.

use vstd::prelude::*;
use vstd::seq_lib::group_seq_properties;

use crate::events::{
    effective_limit, spec_matches, Event, EventModel, Filter, FilterModel, DEFAULT_QUERY_LIMIT,
};

verus! {

/// No two records share an id.
pub open spec fn unique_ids(s: Seq<EventModel>) -> bool {
    forall|i: int, j: int| 0 <= i < j < s.len() ==> s[i].id != s[j].id
}

/// Whether some record of `s` carries `id`.
pub open spec fn has_id(s: Seq<EventModel>, id: Seq<char>) -> bool {
    exists|i: int| 0 <= i < s.len() && s[i].id == id
}

/// The position of the record carrying `id` (meaningful when `has_id` holds
/// and ids are unique).
pub open spec fn idx_of(s: Seq<EventModel>, id: Seq<char>) -> int {
    choose|i: int| 0 <= i < s.len() && s[i].id == id
}

/// The record stored under `id`, if any.
pub open spec fn lookup(s: Seq<EventModel>, id: Seq<char>) -> Option<EventModel> {
    if has_id(s, id) {
        Some(s[idx_of(s, id)])
    } else {
        None
    }
}

/// The store after inserting `e`: an existing record with the same id is
/// overwritten in place, otherwise `e` is appended.
pub open spec fn insert_event(s: Seq<EventModel>, e: EventModel) -> Seq<EventModel> {
    if has_id(s, e.id) {
        s.update(idx_of(s, e.id), e)
    } else {
        s.push(e)
    }
}

/// The store after a batch insert, applied left to right (later duplicates in
/// the batch win).
pub open spec fn insert_events(s: Seq<EventModel>, es: Seq<EventModel>) -> Seq<EventModel>
    decreases es.len(),
{
    if es.len() == 0 {
        s
    } else {
        insert_events(insert_event(s, es.first()), es.drop_first())
    }
}

/// The store after deleting `id`: the record is removed if present, and an
/// absent id leaves the store unchanged.
pub open spec fn delete_id(s: Seq<EventModel>, id: Seq<char>) -> Seq<EventModel> {
    if has_id(s, id) {
        s.remove(idx_of(s, id))
    } else {
        s
    }
}

/// In a store with unique ids, the id found at position `i` is found exactly
/// there.
pub proof fn lemma_idx_of_unique(s: Seq<EventModel>, i: int)
    requires
        unique_ids(s),
        0 <= i < s.len(),
    ensures
        has_id(s, s[i].id),
        idx_of(s, s[i].id) == i,
{
    assert(has_id(s, s[i].id)) by {
        assert(0 <= i < s.len() && s[i].id == s[i].id);
    }
    let j = idx_of(s, s[i].id);
    assert(0 <= j < s.len() && s[j].id == s[i].id);
    if i < j {
        assert(s[i].id != s[j].id);
    }
    if j < i {
        assert(s[j].id != s[i].id);
    }
}

/// An id that no record carries is not in the store.
pub proof fn lemma_no_id(s: Seq<EventModel>, id: Seq<char>)
    requires
        forall|i: int| 0 <= i < s.len() ==> s[i].id != id,
    ensures
        !has_id(s, id),
{
    if has_id(s, id) {
        let i = choose|i: int| 0 <= i < s.len() && s[i].id == id;
        assert(s[i].id != id);
    }
}

/// Inserting preserves id uniqueness, and the inserted record is then the one
/// retrievable under its id.
pub proof fn lemma_insert_event(s: Seq<EventModel>, e: EventModel)
    requires
        unique_ids(s),
    ensures
        unique_ids(insert_event(s, e)),
        lookup(insert_event(s, e), e.id) == Some(e),
{
    if has_id(s, e.id) {
        let k = idx_of(s, e.id);
        assert(0 <= k < s.len() && s[k].id == e.id);
        let t = s.update(k, e);
        assert(unique_ids(t)) by {
            assert forall|i: int, j: int| 0 <= i < j < t.len() implies t[i].id != t[j].id by {
                assert(s[i].id != s[j].id);
            }
        }
        lemma_idx_of_unique(t, k);
        assert(t[k] == e);
    } else {
        let t = s.push(e);
        assert forall|i: int, j: int| 0 <= i < j < t.len() implies t[i].id != t[j].id by {
            if j < s.len() {
                assert(s[i].id != s[j].id);
            } else {
                assert(t[j] == e);
                if t[i].id == e.id {
                    assert(has_id(s, e.id)) by {
                        assert(0 <= i < s.len() && s[i].id == e.id);
                    }
                }
            }
        }
        lemma_idx_of_unique(t, s.len() as int);
        assert(t[s.len() as int] == e);
    }
}

/// Overwrite semantics: inserting `e1` and then `e2` with the same id leaves
/// the store exactly as inserting `e2` alone would, so only `e2` is
/// retrievable under that id.
pub proof fn lemma_insert_overwrite(s: Seq<EventModel>, e1: EventModel, e2: EventModel)
    requires
        unique_ids(s),
        e1.id == e2.id,
    ensures
        insert_event(insert_event(s, e1), e2) == insert_event(s, e2),
        lookup(insert_event(insert_event(s, e1), e2), e2.id) == Some(e2),
{
    lemma_insert_event(s, e1);
    let t1 = insert_event(s, e1);
    lemma_insert_event(t1, e2);
    if has_id(s, e1.id) {
        let k = idx_of(s, e1.id);
        assert(0 <= k < s.len() && s[k].id == e1.id);
        assert(t1 == s.update(k, e1));
        lemma_idx_of_unique(t1, k);
        assert(idx_of(t1, e2.id) == k);
        assert(insert_event(t1, e2) =~= s.update(k, e2));
        assert(idx_of(s, e2.id) == k);
    } else {
        assert(t1 == s.push(e1));
        lemma_idx_of_unique(t1, s.len() as int);
        assert(has_id(t1, e2.id));
        assert(idx_of(t1, e2.id) == s.len() as int);
        assert(insert_event(t1, e2) =~= s.push(e2));
        assert(!has_id(s, e2.id));
    }
}

/// Deleting preserves id uniqueness, and afterwards nothing is retrievable
/// under the deleted id.
pub proof fn lemma_delete_id(s: Seq<EventModel>, id: Seq<char>)
    requires
        unique_ids(s),
    ensures
        unique_ids(delete_id(s, id)),
        !has_id(delete_id(s, id), id),
{
    if has_id(s, id) {
        let k = idx_of(s, id);
        assert(0 <= k < s.len() && s[k].id == id);
        let t = s.remove(k);
        s.remove_ensures(k);
        assert forall|i: int, j: int| 0 <= i < j < t.len() implies t[i].id != t[j].id by {
            let i0: int = if i < k {
                i
            } else {
                i + 1
            };
            let j0: int = if j < k {
                j
            } else {
                j + 1
            };
            assert(t[i] == s[i0] && t[j] == s[j0]);
            assert(s[i0].id != s[j0].id);
        }
        assert forall|i: int| 0 <= i < t.len() implies t[i].id != id by {
            let i0: int = if i < k {
                i
            } else {
                i + 1
            };
            assert(t[i] == s[i0]);
            if i0 != k {
                assert(s[i0].id != s[k].id) by {
                    if i0 < k {
                        assert(unique_ids(s));
                    }
                }
            }
        }
        lemma_no_id(t, id);
    } else {
        assert forall|i: int| 0 <= i < s.len() implies s[i].id != id by {
            if s[i].id == id {
                assert(has_id(s, id)) by {
                    assert(0 <= i < s.len() && s[i].id == id);
                }
            }
        }
        lemma_no_id(s, id);
    }
}

/// Inserting a record leaves every other id's lookup unchanged.
pub proof fn lemma_insert_preserves_other_ids(s: Seq<EventModel>, e: EventModel, id: Seq<char>)
    requires
        unique_ids(s),
        id != e.id,
    ensures
        lookup(insert_event(s, e), id) == lookup(s, id),
{
    lemma_insert_event(s, e);
    let t = insert_event(s, e);
    if has_id(s, id) {
        let m = idx_of(s, id);
        assert(0 <= m < s.len() && s[m].id == id);
        lemma_idx_of_unique(s, m);
        if has_id(s, e.id) {
            let k = idx_of(s, e.id);
            assert(0 <= k < s.len() && s[k].id == e.id);
            assert(m != k);
            assert(t == s.update(k, e));
        } else {
            assert(t == s.push(e));
        }
        assert(t[m] == s[m]);
        lemma_idx_of_unique(t, m);
    } else {
        assert forall|j: int| 0 <= j < s.len() implies s[j].id != id by {
            if s[j].id == id {
                assert(has_id(s, id)) by {
                    assert(0 <= j < s.len() && s[j].id == id);
                }
            }
        }
        assert forall|j: int| 0 <= j < t.len() implies t[j].id != id by {
            if has_id(s, e.id) {
                assert(t == s.update(idx_of(s, e.id), e));
                assert(t[j].id == s[j].id || t[j].id == e.id);
            } else {
                assert(t == s.push(e));
                if j < s.len() {
                    assert(t[j] == s[j]);
                } else {
                    assert(t[j] == e);
                }
            }
        }
        lemma_no_id(t, id);
    }
}

/// Deleting an id leaves every other id's lookup unchanged.
pub proof fn lemma_delete_preserves_other_ids(s: Seq<EventModel>, id: Seq<char>, other: Seq<char>)
    requires
        unique_ids(s),
        other != id,
    ensures
        lookup(delete_id(s, id), other) == lookup(s, other),
{
    if !has_id(s, id) {
        return ;
    }
    lemma_delete_id(s, id);
    let k = idx_of(s, id);
    assert(0 <= k < s.len() && s[k].id == id);
    let t = s.remove(k);
    s.remove_ensures(k);
    if has_id(s, other) {
        let m = idx_of(s, other);
        assert(0 <= m < s.len() && s[m].id == other);
        lemma_idx_of_unique(s, m);
        assert(m != k);
        let m2: int = if m < k {
            m
        } else {
            m - 1
        };
        assert(t[m2] == s[m]);
        lemma_idx_of_unique(t, m2);
    } else {
        assert forall|j: int| 0 <= j < t.len() implies t[j].id != other by {
            let j0: int = if j < k {
                j
            } else {
                j + 1
            };
            assert(t[j] == s[j0]);
            if s[j0].id == other {
                assert(has_id(s, other)) by {
                    assert(0 <= j0 < s.len() && s[j0].id == other);
                }
            }
        }
        lemma_no_id(t, other);
    }
}

/// A cleared store holds nothing: its count is zero and no id is retrievable.
pub proof fn lemma_cleared_store_holds_nothing(id: Seq<char>)
    ensures
        Seq::<EventModel>::empty().len() == 0,
        lookup(Seq::<EventModel>::empty(), id) is None,
{
    lemma_no_id(Seq::<EventModel>::empty(), id);
}

/// The matching predicate of filter `f`, as a function value.
pub open spec fn match_pred(f: FilterModel) -> spec_fn(EventModel) -> bool {
    |e: EventModel| spec_matches(e, f)
}

/// `s` cut off after its first `n` elements.
pub open spec fn truncate_to(s: Seq<EventModel>, n: nat) -> Seq<EventModel> {
    if s.len() <= n {
        s
    } else {
        s.take(n as int)
    }
}

/// What a query returns: the records matching `f`, in store order, truncated
/// to the filter's limit.
pub open spec fn query_spec(s: Seq<EventModel>, f: FilterModel) -> Seq<EventModel> {
    truncate_to(s.filter(match_pred(f)), effective_limit(f.limit))
}

/// Every element the filter keeps is an element of the original sequence.
proof fn lemma_filter_elements_in(s: Seq<EventModel>, p: spec_fn(EventModel) -> bool, i: int)
    requires
        0 <= i < s.filter(p).len(),
    ensures
        s.contains(s.filter(p)[i]),
    decreases s.len(),
{
    reveal(Seq::filter);
    if s.len() == 0 {
    } else {
        let rest = s.drop_last();
        let fs = s.filter(p);
        if p(s.last()) && i == fs.len() - 1 {
            assert(fs == rest.filter(p).push(s.last()));
            assert(fs[i] == s.last());
            assert(s[s.len() - 1] == s.last());
        } else {
            assert(0 <= i < rest.filter(p).len());
            lemma_filter_elements_in(rest, p, i);
            let x = rest.filter(p)[i];
            let j = choose|j: int| 0 <= j < rest.len() && rest[j] == x;
            assert(s[j] == x);
            assert(fs[i] == x);
        }
    }
}

/// Query soundness: what a query returns never exceeds the filter's limit,
/// and every returned record satisfies the filter and is a stored record.
pub proof fn lemma_query_sound(s: Seq<EventModel>, f: FilterModel, i: int)
    requires
        0 <= i < query_spec(s, f).len(),
    ensures
        query_spec(s, f).len() <= effective_limit(f.limit),
        spec_matches(query_spec(s, f)[i], f),
        s.contains(query_spec(s, f)[i]),
{
    let p = match_pred(f);
    let fs = s.filter(p);
    assert(query_spec(s, f)[i] == fs[i]);
    s.lemma_filter_pred(p, i);
    lemma_filter_elements_in(s, p, i);
}

/// Query completeness under the limit: when the matching records do not
/// exceed the filter's limit, every stored record that matches is returned.
pub proof fn lemma_query_complete(s: Seq<EventModel>, f: FilterModel, i: int)
    requires
        0 <= i < s.len(),
        spec_matches(s[i], f),
        s.filter(match_pred(f)).len() <= effective_limit(f.limit),
    ensures
        query_spec(s, f).contains(s[i]),
{
    let p = match_pred(f);
    assert(p(s[i]));
    s.lemma_filter_contains(p, i);
    assert(query_spec(s, f) == s.filter(p));
}

/// The durable event store. Ids are unique; records keep their insertion
/// position; an insert with an existing id overwrites that record in place.
pub struct EventStore {
    events: Vec<Event>,
}

impl View for EventStore {
    type V = Seq<EventModel>;

    closed spec fn view(&self) -> Seq<EventModel> {
        self.events.deep_view()
    }
}

impl EventStore {
    /// The store's invariant: ids are unique.
    pub open spec fn wf(&self) -> bool {
        unique_ids(self@)
    }

    /// An empty store.
    pub fn new() -> (s: EventStore)
        ensures
            s@ == Seq::<EventModel>::empty(),
            s.wf(),
    {
        let s = EventStore { events: Vec::new() };
        proof {
            assert(s@ =~= Seq::<EventModel>::empty());
        }
        s
    }

    /// Every stored (id, event) pair, in store order. An empty store yields
    /// an empty sequence (absence of data is a normal, non-error state).
    #[verifier::loop_isolation(false)]
    pub fn get_all_events_db(&self) -> (r: Vec<(String, Event)>)
        ensures
            r.deep_view().len() == self@.len(),
            forall|i: int| 0 <= i < self@.len() ==> r.deep_view()[i] == (self@[i].id, self@[i]),
    {
        let mut r: Vec<(String, Event)> = Vec::new();
        let n = self.events.len();
        for i in 0..n
            invariant
                n == self.events.len(),
                r.len() == i,
                forall|j: int| 0 <= j < i ==> r.deep_view()[j] == (self@[j].id, self@[j]),
        {
            let id = self.events[i].id.clone();
            let ev = self.events[i].clone();
            let ghost before = r.deep_view();
            r.push((id, ev));
            proof {
                assert(id@ == self@[i as int].id);
                assert(ev@ == self@[i as int]);
                assert(r.deep_view() =~= before.push((id@, ev@)));
            }
        }
        r
    }

    /// The number of stored records.
    pub fn count_all_events_db(&self) -> (r: u64)
        ensures
            r as nat == self@.len(),
    {
        self.events.len() as u64
    }

    /// Adds `event`, overwriting any record with the same id in place;
    /// always succeeds.
    #[verifier::loop_isolation(false)]
    pub fn save_event_db(&mut self, event: Event) -> (r: String)
        requires
            old(self).wf(),
        ensures
            final(self).wf(),
            final(self)@ == insert_event(old(self)@, event@),
            r@ == "success"@,
    {
        proof {
            lemma_insert_event(old(self)@, event@);
        }
        let n = self.events.len();
        let mut i: usize = 0;
        while i < n
            invariant
                *self == *old(self),
                n == self.events.len(),
                0 <= i <= n,
                forall|j: int| 0 <= j < i ==> self@[j].id != event@.id,
            decreases n - i,
        {
            if self.events[i].id == event.id {
                proof {
                    lemma_idx_of_unique(self@, i as int);
                }
                let ghost old_view = self@;
                self.events.set(i, event);
                proof {
                    assert(self@ =~= old_view.update(i as int, event@));
                }
                return "success".to_string();
            }
            proof {
                assert(self@[i as int].id != event@.id);
            }
            i += 1;
        }
        proof {
            lemma_no_id(self@, event@.id);
        }
        let ghost old_view = self@;
        self.events.push(event);
        proof {
            assert(self@ =~= old_view.push(event@));
        }
        "success".to_string()
    }

    /// Adds each event of the batch in order, so a later duplicate id in the
    /// batch wins; always succeeds.
    #[verifier::loop_isolation(false)]
    pub fn save_events_db(&mut self, events: Vec<Event>) -> (r: String)
        requires
            old(self).wf(),
        ensures
            final(self).wf(),
            final(self)@ == insert_events(old(self)@, events.deep_view()),
            r@ == "success"@,
    {
        let ghost es = events.deep_view();
        let n = events.len();
        proof {
            assert(es.skip(0) =~= es);
        }
        let mut i: usize = 0;
        while i < n
            invariant
                self.wf(),
                insert_events(old(self)@, es) == insert_events(self@, es.skip(i as int)),
                0 <= i <= n,
            decreases n - i,
        {
            let ghost before = self@;
            let ev = events[i].clone();
            let _ack = self.save_event_db(ev);
            proof {
                let tail = es.skip(i as int);
                assert(tail.len() == n - i);
                assert(tail.first() == es[i as int]);
                assert(tail.drop_first() =~= es.skip(i as int + 1));
                assert(ev@ == es[i as int]);
                assert(insert_events(before, tail) == insert_events(
                    insert_event(before, tail.first()),
                    tail.drop_first(),
                ));
            }
            i += 1;
        }
        proof {
            assert(es.skip(n as int) =~= Seq::<EventModel>::empty());
        }
        "success".to_string()
    }

    /// Removes the record stored under `id` if present; deleting an absent id
    /// leaves the store unchanged, and the call succeeds either way.
    #[verifier::loop_isolation(false)]
    pub fn delete_event_db(&mut self, id: String) -> (r: String)
        requires
            old(self).wf(),
        ensures
            final(self).wf(),
            final(self)@ == delete_id(old(self)@, id@),
            !has_id(old(self)@, id@) ==> final(self)@ == old(self)@,
            r@ == "success"@,
    {
        proof {
            lemma_delete_id(old(self)@, id@);
        }
        let n = self.events.len();
        let mut i: usize = 0;
        while i < n
            invariant
                *self == *old(self),
                n == self.events.len(),
                0 <= i <= n,
                forall|j: int| 0 <= j < i ==> self@[j].id != id@,
            decreases n - i,
        {
            if self.events[i].id == id {
                proof {
                    lemma_idx_of_unique(self@, i as int);
                }
                let ghost old_view = self@;
                let _removed = self.events.remove(i);
                proof {
                    old_view.remove_ensures(i as int);
                    assert(self@ =~= old_view.remove(i as int));
                }
                return "success".to_string();
            }
            proof {
                assert(self@[i as int].id != id@);
            }
            i += 1;
        }
        proof {
            lemma_no_id(self@, id@);
        }
        "success".to_string()
    }

    /// The records matching `filter`, in store order, truncated to the
    /// filter's limit. An empty result is a normal, non-error state.
    #[verifier::loop_isolation(false)]
    pub fn get_events_db(&self, filter: Filter) -> (r: Vec<Event>)
        ensures
            r.deep_view() == query_spec(self@, filter@),
    {
        broadcast use group_seq_properties;

        let lim: u64 = if filter.limit <= 0 {
            DEFAULT_QUERY_LIMIT
        } else {
            filter.limit as u64
        };
        assert(lim as nat == effective_limit(filter@.limit));
        let ghost p = match_pred(filter@);
        let mut r: Vec<Event> = Vec::new();
        let n = self.events.len();
        proof {
            assert(self@.take(0) =~= Seq::<EventModel>::empty());
            reveal(Seq::filter);
        }
        for i in 0..n
            invariant
                n == self.events.len(),
                lim as nat == effective_limit(filter@.limit),
                p == match_pred(filter@),
                r.deep_view() == truncate_to(self@.take(i as int).filter(p), lim as nat),
                r.len() <= lim,
                r.len() <= self@.take(i as int).filter(p).len(),
                r.len() < lim ==> r.deep_view() == self@.take(i as int).filter(p),
        {
            let ghost prefix = self@.take(i as int);
            let ghost fs = prefix.filter(p);
            proof {
                prefix.lemma_filter_len(p);
                self@.lemma_take_succ_push(i as int);
                prefix.lemma_filter_push(self@[i as int], p);
            }
            if self.events[i].is_match(&filter) {
                assert(p(self@[i as int]));
                if (r.len() as u64) < lim {
                    let ghost before = r.deep_view();
                    r.push(self.events[i].clone());
                    proof {
                        assert(r.deep_view() =~= before.push(self@[i as int]));
                        assert(self@.take(i + 1).filter(p) == fs.push(self@[i as int]));
                    }
                } else {
                    proof {
                        assert(r.len() == lim);
                        assert(fs.len() >= lim);
                        assert(self@.take(i + 1).filter(p) == fs.push(self@[i as int]));
                        assert(fs.push(self@[i as int]).take(lim as int) =~= fs.take(
                            lim as int,
                        ));
                        assert(truncate_to(fs, lim as nat) == fs.take(lim as int));
                    }
                }
            } else {
                assert(!p(self@[i as int]));
                assert(self@.take(i + 1).filter(p) == fs);
            }
        }
        proof {
            assert(self@.take(n as int) =~= self@);
        }
        r
    }

    /// The number of records a query with `filter` returns (after limit
    /// truncation).
    pub fn count_events_db(&self, filter: Filter) -> (r: u64)
        ensures
            r as nat == query_spec(self@, filter@).len(),
    {
        let events = self.get_events_db(filter);
        events.len() as u64
    }

    /// Atomically replaces the whole store with an empty one.
    pub fn clear_events_db(&mut self) -> (r: String)
        ensures
            final(self).wf(),
            final(self)@ == Seq::<EventModel>::empty(),
            r@ == "All events have been cleared"@,
    {
        self.events = Vec::new();
        proof {
            assert(self@ =~= Seq::<EventModel>::empty());
        }
        "All events have been cleared".to_string()
    }
}

} // verus!
