use event_store::acl::{AccessControl, Identity, Role, string_to_principal};
use event_store::BackendError;

// "b3duZXIta2V5" is base64 for "owner-key"; "dXNlci1rZXk=" for "user-key".
const OWNER_KEY: &str = "b3duZXIta2V5";
const USER_KEY: &str = "dXNlci1rZXk=";

fn decoded(key: &str) -> Identity {
    string_to_principal(key.to_string()).unwrap()
}

#[test]
fn key_decoding_derives_the_self_authenticating_principal() {
    // "AAAA" is base64 for the three zero bytes.
    let id = string_to_principal("AAAA".to_string()).unwrap();
    let expected = candid::Principal::self_authenticating(&[0u8, 0u8, 0u8]);
    assert_eq!(id.as_bytes().as_slice(), expected.as_slice());
    // The principal is a digest, not the decoded key itself.
    assert_ne!(id.as_bytes().as_slice(), &[0u8, 0u8, 0u8]);
}

#[test]
fn malformed_key_is_an_invalid_identity() {
    let r = string_to_principal("!!! not base64 !!!".to_string());
    assert_eq!(r.unwrap_err(), BackendError::InvalidIdentity);
}

#[test]
fn decoding_is_deterministic() {
    let a = decoded(OWNER_KEY);
    let b = decoded(OWNER_KEY);
    assert_eq!(a.as_bytes(), b.as_bytes());
    let c = decoded(USER_KEY);
    assert_ne!(a.as_bytes(), c.as_bytes());
}

#[test]
fn absent_entry_means_unauthorized() {
    let acl = AccessControl::new();
    let caller = decoded(USER_KEY);
    assert_eq!(acl.is_user(&caller).unwrap_err(), BackendError::Unauthorized);
    assert_eq!(acl.is_owner(&caller).unwrap_err(), BackendError::Unauthorized);
    assert_eq!(acl.get_permission_acl(&caller), Role::Unauthorized);
}

#[test]
fn added_user_is_a_user_but_not_an_owner() {
    let mut acl = AccessControl::new();
    acl.add_user_acl(USER_KEY.to_string(), false).unwrap();
    let caller = decoded(USER_KEY);
    assert!(acl.is_user(&caller).is_ok());
    assert_eq!(acl.is_owner(&caller).unwrap_err(), BackendError::Unauthorized);
    assert_eq!(acl.get_permission_acl(&caller), Role::User);
}

#[test]
fn added_owner_is_both_user_and_owner() {
    let mut acl = AccessControl::new();
    acl.add_user_acl(OWNER_KEY.to_string(), true).unwrap();
    let caller = decoded(OWNER_KEY);
    assert!(acl.is_user(&caller).is_ok());
    assert!(acl.is_owner(&caller).is_ok());
    assert_eq!(acl.get_permission_acl(&caller), Role::Owner);
}

#[test]
fn adding_again_overwrites_the_flag() {
    let mut acl = AccessControl::new();
    acl.add_user_acl(USER_KEY.to_string(), false).unwrap();
    acl.add_user_acl(USER_KEY.to_string(), true).unwrap();
    assert_eq!(acl.get_permission_acl(&decoded(USER_KEY)), Role::Owner);
    acl.add_user_acl(USER_KEY.to_string(), false).unwrap();
    assert_eq!(acl.get_permission_acl(&decoded(USER_KEY)), Role::User);
}

#[test]
fn removing_revokes_and_absent_removal_is_a_no_op() {
    let mut acl = AccessControl::new();
    acl.add_user_acl(USER_KEY.to_string(), false).unwrap();
    acl.remove_user_acl(USER_KEY.to_string()).unwrap();
    assert_eq!(acl.get_permission_acl(&decoded(USER_KEY)), Role::Unauthorized);
    // Removing again succeeds and changes nothing.
    acl.remove_user_acl(USER_KEY.to_string()).unwrap();
    assert_eq!(acl.get_permission_acl(&decoded(USER_KEY)), Role::Unauthorized);
}

#[test]
fn malformed_keys_leave_the_table_unchanged() {
    let mut acl = AccessControl::new();
    acl.add_user_acl(USER_KEY.to_string(), false).unwrap();
    assert_eq!(
        acl.add_user_acl("%bad%".to_string(), true).unwrap_err(),
        BackendError::InvalidIdentity
    );
    assert_eq!(
        acl.remove_user_acl("%bad%".to_string()).unwrap_err(),
        BackendError::InvalidIdentity
    );
    assert_eq!(acl.get_permission_acl(&decoded(USER_KEY)), Role::User);
}

#[test]
fn bootstrap_seeds_exactly_one_owner() {
    let mut acl = AccessControl::new();
    acl.bootstrap(OWNER_KEY).unwrap();
    let owner = decoded(OWNER_KEY);
    assert_eq!(acl.get_permission_acl(&owner), Role::Owner);
    // Running bootstrap again is a no-op: still exactly one owner entry.
    acl.bootstrap(OWNER_KEY).unwrap();
    assert_eq!(acl.get_permission_acl(&owner), Role::Owner);
    // Removing that single entry leaves no trace of the owner, which shows
    // the second bootstrap did not add a second entry.
    acl.remove_user_acl(OWNER_KEY.to_string()).unwrap();
    assert_eq!(acl.get_permission_acl(&owner), Role::Unauthorized);
}

#[test]
fn bootstrap_does_not_promote_an_existing_user() {
    let mut acl = AccessControl::new();
    acl.add_user_acl(OWNER_KEY.to_string(), false).unwrap();
    acl.bootstrap(OWNER_KEY).unwrap();
    assert_eq!(acl.get_permission_acl(&decoded(OWNER_KEY)), Role::User);
}

#[test]
fn bootstrap_rejects_a_malformed_owner_key() {
    let mut acl = AccessControl::new();
    assert_eq!(acl.bootstrap("???").unwrap_err(), BackendError::InvalidIdentity);
}

#[test]
fn role_labels() {
    assert_eq!(Role::Owner.label(), "Owner");
    assert_eq!(Role::User.label(), "User");
    assert_eq!(Role::Unauthorized.label(), "Unauthorized");
}

#[test]
fn identity_round_trips_its_bytes() {
    let id = Identity::from_bytes(vec![1, 2, 3]);
    assert_eq!(id.as_bytes(), &vec![1u8, 2u8, 3u8]);
}
