use event_store::acl::{string_to_principal, Identity, Role};
use event_store::events::{Event, Filter};
use event_store::methods::{valid_timestamp, Backend, TIMESTAMP_TOLERANCE_NANOS};
use event_store::BackendError;

const OWNER_KEY: &str = "b3duZXIta2V5";
const USER_KEY: &str = "dXNlci1rZXk=";
const STRANGER_KEY: &str = "c3RyYW5nZXI=";

fn decoded(key: &str) -> Identity {
    string_to_principal(key.to_string()).unwrap()
}

fn ev(id: &str, kind: u16, created_at: i64) -> Event {
    Event::new(
        id.to_string(),
        "alice".to_string(),
        created_at,
        kind,
        vec![],
        format!("content of {}", id),
        "sig".to_string(),
    )
}

fn open_filter() -> Filter {
    Filter {
        ids: vec![],
        kinds: vec![],
        authors: vec![],
        tags: vec![],
        since: 0,
        until: 0,
        limit: 0,
        search: String::new(),
    }
}

/// A backend with a bootstrapped owner and one plain user.
fn seeded_backend() -> Backend {
    let mut backend = Backend::new(true);
    backend.bootstrap(OWNER_KEY).unwrap();
    let owner = decoded(OWNER_KEY);
    backend.add_user(&owner, USER_KEY.to_string(), false).unwrap();
    backend
}

#[test]
fn event_operations_require_a_permission_entry() {
    let mut backend = seeded_backend();
    let stranger = decoded(STRANGER_KEY);
    assert_eq!(
        backend.save_event(&stranger, ev("a", 1, 100)).unwrap_err(),
        BackendError::Unauthorized
    );
    assert_eq!(
        backend.save_events(&stranger, vec![ev("a", 1, 100)]).unwrap_err(),
        BackendError::Unauthorized
    );
    assert_eq!(
        backend.delete_event(&stranger, "a".to_string()).unwrap_err(),
        BackendError::Unauthorized
    );
    assert_eq!(backend.get_all_events(&stranger).unwrap_err(), BackendError::Unauthorized);
    assert_eq!(backend.count_all_events(&stranger).unwrap_err(), BackendError::Unauthorized);
    assert_eq!(
        backend.get_events(&stranger, open_filter()).unwrap_err(),
        BackendError::Unauthorized
    );
    assert_eq!(
        backend.count_events(&stranger, open_filter()).unwrap_err(),
        BackendError::Unauthorized
    );
    assert_eq!(backend.clear_events(&stranger).unwrap_err(), BackendError::Unauthorized);
    // Nothing was stored by the rejected calls.
    let user = decoded(USER_KEY);
    assert_eq!(backend.count_all_events(&user).unwrap(), 0);
}

#[test]
fn a_plain_user_may_work_with_events() {
    let mut backend = seeded_backend();
    let user = decoded(USER_KEY);
    backend.save_event(&user, ev("a", 1, 100)).unwrap();
    backend.save_events(&user, vec![ev("b", 2, 200), ev("c", 3, 300)]).unwrap();
    assert_eq!(backend.count_all_events(&user).unwrap(), 3);
    backend.delete_event(&user, "b".to_string()).unwrap();
    let all = backend.get_all_events(&user).unwrap();
    assert_eq!(all.len(), 2);
    assert_eq!(all[0].0, "a");
    assert_eq!(all[1].0, "c");
    backend.clear_events(&user).unwrap();
    assert_eq!(backend.count_all_events(&user).unwrap(), 0);
}

#[test]
fn permission_management_requires_the_owner() {
    // Neither an absent caller nor a plain user may manage permissions; the
    // owner may.
    let mut backend = seeded_backend();
    let stranger = decoded(STRANGER_KEY);
    let user = decoded(USER_KEY);
    let owner = decoded(OWNER_KEY);
    assert_eq!(
        backend.add_user(&stranger, STRANGER_KEY.to_string(), false).unwrap_err(),
        BackendError::Unauthorized
    );
    assert_eq!(
        backend.add_user(&user, STRANGER_KEY.to_string(), false).unwrap_err(),
        BackendError::Unauthorized
    );
    assert_eq!(
        backend.remove_user(&stranger, USER_KEY.to_string()).unwrap_err(),
        BackendError::Unauthorized
    );
    assert_eq!(
        backend.remove_user(&user, USER_KEY.to_string()).unwrap_err(),
        BackendError::Unauthorized
    );
    // The failed calls changed nothing: the stranger is still unknown, the
    // user still known.
    assert_eq!(backend.get_permission(&stranger).unwrap_err(), BackendError::Unauthorized);
    assert_eq!(backend.get_permission(&user).unwrap(), Role::User);
    // The owner's calls succeed.
    backend.add_user(&owner, STRANGER_KEY.to_string(), false).unwrap();
    assert_eq!(backend.get_permission(&stranger).unwrap(), Role::User);
    backend.remove_user(&owner, STRANGER_KEY.to_string()).unwrap();
    backend.remove_user(&owner, USER_KEY.to_string()).unwrap();
    assert_eq!(backend.get_permission(&user).unwrap_err(), BackendError::Unauthorized);
}

#[test]
fn owner_rejects_malformed_target_keys() {
    let mut backend = seeded_backend();
    let owner = decoded(OWNER_KEY);
    assert_eq!(
        backend.add_user(&owner, "*bad*".to_string(), true).unwrap_err(),
        BackendError::InvalidIdentity
    );
    assert_eq!(
        backend.remove_user(&owner, "*bad*".to_string()).unwrap_err(),
        BackendError::InvalidIdentity
    );
}

#[test]
fn bootstrap_twice_keeps_one_owner() {
    let mut backend = Backend::new(true);
    backend.bootstrap(OWNER_KEY).unwrap();
    backend.bootstrap(OWNER_KEY).unwrap();
    let owner = decoded(OWNER_KEY);
    assert_eq!(backend.get_permission(&owner).unwrap(), Role::Owner);
    // The single entry can be removed once, after which no owner remains:
    // the second bootstrap had not added a second entry.
    backend.remove_user(&owner, OWNER_KEY.to_string()).unwrap();
    assert_eq!(backend.get_permission(&owner).unwrap_err(), BackendError::Unauthorized);
}

#[test]
fn gated_permission_query_turns_strangers_away() {
    let backend = seeded_backend();
    let stranger = decoded(STRANGER_KEY);
    assert_eq!(backend.get_permission(&stranger).unwrap_err(), BackendError::Unauthorized);
}

#[test]
fn open_permission_query_reports_the_role_to_anybody() {
    let mut backend = Backend::new(false);
    backend.bootstrap(OWNER_KEY).unwrap();
    let owner = decoded(OWNER_KEY);
    backend.add_user(&owner, USER_KEY.to_string(), false).unwrap();
    assert_eq!(backend.get_permission(&owner).unwrap(), Role::Owner);
    assert_eq!(backend.get_permission(&decoded(USER_KEY)).unwrap(), Role::User);
    assert_eq!(backend.get_permission(&decoded(STRANGER_KEY)).unwrap(), Role::Unauthorized);
}

#[test]
fn end_to_end_scenario() {
    let mut backend = seeded_backend();
    let user = decoded(USER_KEY);
    backend.save_event(&user, ev("a", 1, 100)).unwrap();
    backend.save_event(&user, ev("b", 2, 200)).unwrap();

    let mut by_kind = open_filter();
    by_kind.kinds = vec![1];
    let found = backend.get_events(&user, by_kind).unwrap();
    assert_eq!(found.len(), 1);
    assert_eq!(found[0].id, "a");

    let mut since = open_filter();
    since.since = 150;
    let found = backend.get_events(&user, since).unwrap();
    assert_eq!(found.len(), 1);
    assert_eq!(found[0].id, "b");

    assert_eq!(backend.count_all_events(&user).unwrap(), 2);
    backend.clear_events(&user).unwrap();
    assert_eq!(backend.count_all_events(&user).unwrap(), 0);
}

#[test]
fn timestamp_freshness_window() {
    assert!(valid_timestamp(1_000_000_000, 1_000_000_000));
    assert!(valid_timestamp(1_000_000_000 + TIMESTAMP_TOLERANCE_NANOS, 1_000_000_000));
    assert!(valid_timestamp(1_000_000_000 - TIMESTAMP_TOLERANCE_NANOS, 1_000_000_000));
    assert!(!valid_timestamp(1_000_000_000 + TIMESTAMP_TOLERANCE_NANOS + 1, 1_000_000_000));
    assert!(!valid_timestamp(1_000_000_000 - TIMESTAMP_TOLERANCE_NANOS - 1, 1_000_000_000));
    // The comparison cannot overflow even at the extremes.
    assert!(!valid_timestamp(i64::MAX, i64::MIN));
    assert!(!valid_timestamp(i64::MIN, i64::MAX));
}
