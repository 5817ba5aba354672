//! Event records and the filter engine.
//!
//! An [`Event`] is a signed record submitted by a caller; a [`Filter`] is a
//! query specification. [`Event::is_match`] decides inclusion as a conjunction
//! of six independent predicates, specified by [`spec_matches`].

use vstd::prelude::*;

verus! {

/// Mathematical model of an [`Event`]: each field as a ghost value.
pub ghost struct EventModel {
    pub id: Seq<char>,
    pub pubkey: Seq<char>,
    pub created_at: i64,
    pub kind: u16,
    pub tags: Seq<Seq<Seq<char>>>,
    pub content: Seq<char>,
    pub sig: Seq<char>,
}

/// A stored record: a caller-supplied unique `id`, the author's key, a
/// timestamp, an application-defined category, tag records, a free-form
/// payload and an opaque signature blob (not validated here).
#[derive(Debug)]
pub struct Event {
    pub id: String,
    pub pubkey: String,
    pub created_at: i64,
    pub kind: u16,
    pub tags: Vec<Vec<String>>,
    pub content: String,
    pub sig: String,
}

impl View for Event {
    type V = EventModel;

    open spec fn view(&self) -> EventModel {
        EventModel {
            id: self.id@,
            pubkey: self.pubkey@,
            created_at: self.created_at,
            kind: self.kind,
            tags: self.tags.deep_view(),
            content: self.content@,
            sig: self.sig@,
        }
    }
}

impl DeepView for Event {
    type V = EventModel;

    open spec fn deep_view(&self) -> EventModel {
        self.view()
    }
}

/// Mathematical model of a [`KeyValuePair`].
pub ghost struct KeyValueModel {
    pub key: Seq<char>,
    pub value: Seq<Seq<char>>,
}

/// One tag constraint of a filter: a tag name and a list of candidate values.
/// The value list is accepted but not matched against (see [`spec_matches`]).
pub struct KeyValuePair {
    pub key: String,
    pub value: Vec<String>,
}

impl View for KeyValuePair {
    type V = KeyValueModel;

    open spec fn view(&self) -> KeyValueModel {
        KeyValueModel { key: self.key@, value: self.value.deep_view() }
    }
}

impl DeepView for KeyValuePair {
    type V = KeyValueModel;

    open spec fn deep_view(&self) -> KeyValueModel {
        self.view()
    }
}

/// Mathematical model of a [`Filter`].
pub ghost struct FilterModel {
    pub ids: Seq<Seq<char>>,
    pub kinds: Seq<u64>,
    pub authors: Seq<Seq<char>>,
    pub tags: Seq<KeyValueModel>,
    pub since: i64,
    pub until: i64,
    pub limit: i64,
    pub search: Seq<char>,
}

/// A query specification. An empty `ids` / `kinds` / `authors` / `tags`
/// leaves that predicate unconstrained; a non-positive `since` / `until`
/// leaves that bound unconstrained (so records with `created_at <= 0` cannot
/// be selected by a time bound — a preserved quirk of the original encoding);
/// a non-positive `limit` falls back to [`DEFAULT_QUERY_LIMIT`]; `search` is
/// a reserved field that matching always ignores.
pub struct Filter {
    pub ids: Vec<String>,
    pub kinds: Vec<u64>,
    pub authors: Vec<String>,
    pub tags: Vec<KeyValuePair>,
    pub since: i64,
    pub until: i64,
    pub limit: i64,
    pub search: String,
}

impl View for Filter {
    type V = FilterModel;

    open spec fn view(&self) -> FilterModel {
        FilterModel {
            ids: self.ids.deep_view(),
            kinds: self.kinds@,
            authors: self.authors.deep_view(),
            tags: self.tags.deep_view(),
            since: self.since,
            until: self.until,
            limit: self.limit,
            search: self.search@,
        }
    }
}

/// The fallback cap on query results, used when a filter's `limit` is not
/// positive.
pub const DEFAULT_QUERY_LIMIT: u64 = 500;

/// The number of results a query may return under the given `limit` field.
pub open spec fn effective_limit(limit: i64) -> nat {
    if limit <= 0 {
        DEFAULT_QUERY_LIMIT as nat
    } else {
        limit as nat
    }
}

/// Whether some tag record of `tags` contains `key` as one of its elements.
pub open spec fn tag_key_present(tags: Seq<Seq<Seq<char>>>, key: Seq<char>) -> bool {
    exists|j: int| 0 <= j < tags.len() && tags[j].contains(key)
}

/// Whether event `e` satisfies filter `f`: the conjunction of six independent
/// predicates. Each of `ids`, `kinds` and `authors` is unconstrained when
/// empty, else a membership test; every filter tag's `key` must occur in some
/// tag record of the event (the filter's value list is not matched against);
/// `since` and `until` are inclusive bounds on `created_at`, each
/// unconstrained when non-positive.
pub open spec fn spec_matches(e: EventModel, f: FilterModel) -> bool {
    &&& f.ids.len() == 0 || f.ids.contains(e.id)
    &&& f.kinds.len() == 0 || f.kinds.contains(e.kind as u64)
    &&& f.authors.len() == 0 || f.authors.contains(e.pubkey)
    &&& f.tags.len() == 0 || (forall|i: int|
        0 <= i < f.tags.len() ==> #[trigger] tag_key_present(e.tags, f.tags[i].key))
    &&& f.since <= 0 || e.created_at >= f.since
    &&& f.until <= 0 || e.created_at <= f.until
}

/// A filter with every field empty or unconstrained matches every event.
pub proof fn lemma_unconstrained_filter_matches_all(e: EventModel, f: FilterModel)
    requires
        f.ids.len() == 0,
        f.kinds.len() == 0,
        f.authors.len() == 0,
        f.tags.len() == 0,
        f.since <= 0,
        f.until <= 0,
    ensures
        spec_matches(e, f),
{
}

/// Whether the string sequence `v` holds `s`.
fn contains_string(v: &Vec<String>, s: &String) -> (b: bool)
    ensures
        b == v.deep_view().contains(s@),
{
    let n = v.len();
    for i in 0..n
        invariant
            n == v.len(),
            forall|j: int| 0 <= j < i ==> v.deep_view()[j] != s@,
    {
        if v[i] == *s {
            assert(v.deep_view()[i as int] == s@);
            return true;
        }
    }
    assert(!v.deep_view().contains(s@)) by {
        if v.deep_view().contains(s@) {
            let j = choose|j: int| 0 <= j < v.deep_view().len() && v.deep_view()[j] == s@;
            assert(v.deep_view()[j] != s@);
        }
    }
    false
}

/// Whether the integer sequence `v` holds `x`.
fn contains_u64(v: &Vec<u64>, x: u64) -> (b: bool)
    ensures
        b == v@.contains(x),
{
    let n = v.len();
    for i in 0..n
        invariant
            n == v.len(),
            forall|j: int| 0 <= j < i ==> v@[j] != x,
    {
        if v[i] == x {
            return true;
        }
    }
    assert(!v@.contains(x)) by {
        if v@.contains(x) {
            let j = choose|j: int| 0 <= j < v@.len() && v@[j] == x;
            assert(v@[j] != x);
        }
    }
    false
}

/// Whether some tag record of `tags` contains `key`.
fn event_tags_have_key(tags: &Vec<Vec<String>>, key: &String) -> (b: bool)
    ensures
        b == tag_key_present(tags.deep_view(), key@),
{
    let n = tags.len();
    for j in 0..n
        invariant
            n == tags.len(),
            forall|t: int| 0 <= t < j ==> !tags.deep_view()[t].contains(key@),
    {
        if contains_string(&tags[j], key) {
            assert(tags.deep_view()[j as int].contains(key@));
            return true;
        }
    }
    assert(!tag_key_present(tags.deep_view(), key@)) by {
        if tag_key_present(tags.deep_view(), key@) {
            let t = choose|t: int|
                0 <= t < tags.deep_view().len() && tags.deep_view()[t].contains(key@);
            assert(!tags.deep_view()[t].contains(key@));
        }
    }
    false
}

/// Duplicates a vector of strings.
fn clone_string_vec(v: &Vec<String>) -> (res: Vec<String>)
    ensures
        res.deep_view() == v.deep_view(),
{
    let mut res: Vec<String> = Vec::new();
    let n = v.len();
    for i in 0..n
        invariant
            n == v.len(),
            res.len() == i,
            forall|j: int| 0 <= j < i ==> res.deep_view()[j] == v.deep_view()[j],
    {
        res.push(v[i].clone());
    }
    assert(res.deep_view() =~= v.deep_view());
    res
}

/// Duplicates a vector of tag records.
fn clone_tags(v: &Vec<Vec<String>>) -> (res: Vec<Vec<String>>)
    ensures
        res.deep_view() == v.deep_view(),
{
    let mut res: Vec<Vec<String>> = Vec::new();
    let n = v.len();
    for i in 0..n
        invariant
            n == v.len(),
            res.len() == i,
            forall|j: int| 0 <= j < i ==> res.deep_view()[j] == v.deep_view()[j],
    {
        res.push(clone_string_vec(&v[i]));
    }
    assert(res.deep_view() =~= v.deep_view());
    res
}

impl Clone for Event {
    /// The duplicate carries the same field values as the original.
    fn clone(&self) -> (res: Event)
        ensures
            res@ == self@,
    {
        Event {
            id: self.id.clone(),
            pubkey: self.pubkey.clone(),
            created_at: self.created_at,
            kind: self.kind,
            tags: clone_tags(&self.tags),
            content: self.content.clone(),
            sig: self.sig.clone(),
        }
    }
}

impl Event {
    /// Builds an event from its field values.
    pub fn new(
        id: String,
        pubkey: String,
        created_at: i64,
        kind: u16,
        tags: Vec<Vec<String>>,
        content: String,
        sig: String,
    ) -> (e: Event)
        ensures
            e@ == (EventModel {
                id: id@,
                pubkey: pubkey@,
                created_at: created_at,
                kind: kind,
                tags: tags.deep_view(),
                content: content@,
                sig: sig@,
            }),
    {
        Event { id, pubkey, created_at, kind, tags, content, sig }
    }

    /// Decides whether this event satisfies `filter`, exactly as
    /// [`spec_matches`] states.
    pub fn is_match(&self, filter: &Filter) -> (b: bool)
        ensures
            b == spec_matches(self@, filter@),
    {
        if filter.ids.len() > 0 && !contains_string(&filter.ids, &self.id) {
            return false;
        }
        if filter.kinds.len() > 0 && !contains_u64(&filter.kinds, self.kind as u64) {
            return false;
        }
        if filter.authors.len() > 0 && !contains_string(&filter.authors, &self.pubkey) {
            return false;
        }
        if filter.tags.len() > 0 {
            let m = filter.tags.len();
            for i in 0..m
                invariant
                    m == filter.tags.len(),
                    forall|t: int|
                        0 <= t < i ==> #[trigger] tag_key_present(
                            self.tags.deep_view(),
                            filter@.tags[t].key,
                        ),
            {
                if !event_tags_have_key(&self.tags, &filter.tags[i].key) {
                    assert(!tag_key_present(self@.tags, filter@.tags[i as int].key));
                    return false;
                }
            }
        }
        if filter.since > 0 && self.created_at < filter.since {
            return false;
        }
        if filter.until > 0 && self.created_at > filter.until {
            return false;
        }
        true
    }
}

} // verus!
