use event_store::db::EventStore;
use event_store::events::{Event, Filter};

fn ev(id: &str, kind: u16, created_at: i64) -> Event {
    Event::new(
        id.to_string(),
        "alice".to_string(),
        created_at,
        kind,
        vec![],
        format!("content of {}", id),
        "sig".to_string(),
    )
}

fn open_filter() -> Filter {
    Filter {
        ids: vec![],
        kinds: vec![],
        authors: vec![],
        tags: vec![],
        since: 0,
        until: 0,
        limit: 0,
        search: String::new(),
    }
}

#[test]
fn save_and_count() {
    let mut store = EventStore::new();
    assert_eq!(store.count_all_events_db(), 0);
    assert_eq!(store.save_event_db(ev("a", 1, 100)), "success");
    assert_eq!(store.save_event_db(ev("b", 2, 200)), "success");
    assert_eq!(store.count_all_events_db(), 2);
}

#[test]
fn overwrite_keeps_only_the_second_event() {
    let mut store = EventStore::new();
    let first = Event::new(
        "same-id".to_string(),
        "alice".to_string(),
        100,
        1,
        vec![],
        "first".to_string(),
        "sig1".to_string(),
    );
    let second = Event::new(
        "same-id".to_string(),
        "bob".to_string(),
        200,
        2,
        vec![],
        "second".to_string(),
        "sig2".to_string(),
    );
    store.save_event_db(first);
    store.save_event_db(second);
    assert_eq!(store.count_all_events_db(), 1);
    let all = store.get_all_events_db();
    assert_eq!(all.len(), 1);
    assert_eq!(all[0].0, "same-id");
    assert_eq!(all[0].1.content, "second");
    assert_eq!(all[0].1.pubkey, "bob");
    assert_eq!(all[0].1.kind, 2);
}

#[test]
fn overwrite_keeps_store_position() {
    let mut store = EventStore::new();
    store.save_event_db(ev("a", 1, 100));
    store.save_event_db(ev("b", 2, 200));
    store.save_event_db(ev("a", 9, 900));
    let all = store.get_all_events_db();
    assert_eq!(all.len(), 2);
    assert_eq!(all[0].0, "a");
    assert_eq!(all[0].1.kind, 9);
    assert_eq!(all[1].0, "b");
}

#[test]
fn batch_insert_later_duplicate_wins() {
    let mut store = EventStore::new();
    assert_eq!(store.save_events_db(vec![ev("a", 1, 100), ev("b", 2, 200), ev("a", 3, 300)]), "success");
    assert_eq!(store.count_all_events_db(), 2);
    let all = store.get_all_events_db();
    assert_eq!(all[0].0, "a");
    assert_eq!(all[0].1.kind, 3);
    assert_eq!(all[1].0, "b");
}

#[test]
fn delete_removes_the_record() {
    let mut store = EventStore::new();
    store.save_event_db(ev("a", 1, 100));
    store.save_event_db(ev("b", 2, 200));
    assert_eq!(store.delete_event_db("a".to_string()), "success");
    assert_eq!(store.count_all_events_db(), 1);
    let all = store.get_all_events_db();
    assert_eq!(all[0].0, "b");
}

#[test]
fn delete_of_absent_id_is_a_successful_no_op() {
    let mut store = EventStore::new();
    store.save_event_db(ev("a", 1, 100));
    assert_eq!(store.delete_event_db("missing".to_string()), "success");
    assert_eq!(store.count_all_events_db(), 1);
    let all = store.get_all_events_db();
    assert_eq!(all.len(), 1);
    assert_eq!(all[0].0, "a");
    assert_eq!(all[0].1.kind, 1);
}

#[test]
fn clear_leaves_nothing_retrievable() {
    let mut store = EventStore::new();
    store.save_event_db(ev("a", 1, 100));
    store.save_event_db(ev("b", 2, 200));
    assert_eq!(store.clear_events_db(), "All events have been cleared");
    assert_eq!(store.count_all_events_db(), 0);
    assert!(store.get_all_events_db().is_empty());
    assert!(store.get_events_db(open_filter()).is_empty());
}

#[test]
fn query_returns_matches_in_store_order() {
    let mut store = EventStore::new();
    store.save_event_db(ev("a", 1, 100));
    store.save_event_db(ev("b", 2, 200));
    store.save_event_db(ev("c", 1, 300));
    let mut f = open_filter();
    f.kinds = vec![1];
    let found = store.get_events_db(f);
    assert_eq!(found.len(), 2);
    assert_eq!(found[0].id, "a");
    assert_eq!(found[1].id, "c");
}

#[test]
fn query_truncates_to_limit() {
    let mut store = EventStore::new();
    for i in 0..5u16 {
        store.save_event_db(ev(&format!("id{}", i), 1, 100));
    }
    let mut f = open_filter();
    f.limit = 2;
    let found = store.get_events_db(f);
    assert_eq!(found.len(), 2);
    assert_eq!(found[0].id, "id0");
    assert_eq!(found[1].id, "id1");
}

#[test]
fn non_positive_limit_falls_back_to_default() {
    let mut store = EventStore::new();
    for i in 0..5u16 {
        store.save_event_db(ev(&format!("id{}", i), 1, 100));
    }
    let mut f = open_filter();
    f.limit = 0;
    assert_eq!(store.get_events_db(f).len(), 5);
    let mut g = open_filter();
    g.limit = -7;
    assert_eq!(store.get_events_db(g).len(), 5);
}

#[test]
fn default_limit_is_five_hundred() {
    let mut store = EventStore::new();
    let mut batch: Vec<Event> = Vec::new();
    for i in 0..501u32 {
        batch.push(ev(&format!("id{}", i), 1, 100));
    }
    store.save_events_db(batch);
    assert_eq!(store.count_all_events_db(), 501);
    let f = open_filter();
    assert_eq!(store.get_events_db(f).len(), 500);
}

#[test]
fn count_reflects_the_truncated_query() {
    let mut store = EventStore::new();
    for i in 0..5u16 {
        store.save_event_db(ev(&format!("id{}", i), 1, 100));
    }
    let mut f = open_filter();
    f.limit = 3;
    assert_eq!(store.count_events_db(f), 3);
    let mut g = open_filter();
    g.kinds = vec![2];
    assert_eq!(store.count_events_db(g), 0);
}

#[test]
fn event_new_keeps_its_fields() {
    let e = Event::new(
        "id".to_string(),
        "pk".to_string(),
        -3,
        65535,
        vec![vec!["t".to_string()]],
        "c".to_string(),
        "s".to_string(),
    );
    assert_eq!(e.id, "id");
    assert_eq!(e.pubkey, "pk");
    assert_eq!(e.created_at, -3);
    assert_eq!(e.kind, 65535);
    assert_eq!(e.tags, vec![vec!["t".to_string()]]);
    assert_eq!(e.content, "c");
    assert_eq!(e.sig, "s");
}
