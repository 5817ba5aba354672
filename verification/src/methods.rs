//! The guarded operation set.
//!
//! A caller identity arrives already authenticated by the transport. Every
//! event operation requires the caller to hold a permission entry (any flag);
//! managing permissions requires an owner entry. An unauthorized caller is
//! turned away before any state changes.

use vstd::prelude::*;

use crate::acl::{
    acl_has, acl_insert, acl_lookup, acl_remove, acl_unique, base64_decoded, bootstrap_spec,
    self_authenticating_of, spec_role, AccessControl, Identity, Role,
};
use crate::db::{
    delete_id, has_id, insert_event, insert_events, query_spec, unique_ids, EventStore,
};
use crate::events::{Event, EventModel, Filter};
use crate::BackendError;

verus! {

/// The freshness window for submitted timestamps, in nanoseconds.
pub const TIMESTAMP_TOLERANCE_NANOS: i64 = 30_000_000_000;

/// The replay-guard freshness test the transport applies before each call: a
/// submitted timestamp is fresh when it lies within the tolerance window
/// around the current time (both in nanoseconds).
pub fn valid_timestamp(timestamp: i64, current_time: i64) -> (b: bool)
    ensures
        b == (-(TIMESTAMP_TOLERANCE_NANOS as int) <= timestamp - current_time
            <= TIMESTAMP_TOLERANCE_NANOS as int),
{
    let diff: i128 = timestamp as i128 - current_time as i128;
    -(TIMESTAMP_TOLERANCE_NANOS as i128) <= diff && diff <= (TIMESTAMP_TOLERANCE_NANOS as i128)
}

/// The authenticated event store: an event table, a permission table, and a
/// configuration flag saying whether the role query itself is gated.
pub struct Backend {
    store: EventStore,
    acl: AccessControl,
    gate_permission_query: bool,
}

impl Backend {
    /// The stored events, in store order.
    pub closed spec fn events(&self) -> Seq<EventModel> {
        self.store@
    }

    /// The permission table's entries.
    pub closed spec fn perms(&self) -> Seq<(Seq<u8>, bool)> {
        self.acl@
    }

    /// Whether `get_permission` requires the caller to hold an entry
    /// (deployment configuration).
    pub closed spec fn permission_query_gated(&self) -> bool {
        self.gate_permission_query
    }

    /// Both tables keep their keys unique.
    pub open spec fn wf(&self) -> bool {
        unique_ids(self.events()) && acl_unique(self.perms())
    }

    /// Whether `caller` holds a permission entry, whatever its flag.
    pub open spec fn is_user_spec(&self, caller: Seq<u8>) -> bool {
        acl_has(self.perms(), caller)
    }

    /// Whether `caller` holds an owner entry.
    pub open spec fn is_owner_spec(&self, caller: Seq<u8>) -> bool {
        acl_lookup(self.perms(), caller) == Some(true)
    }

    /// A fresh backend: no events, nobody authorized.
    pub fn new(gate_permission_query: bool) -> (b: Backend)
        ensures
            b.events() == Seq::<EventModel>::empty(),
            b.perms() == Seq::<(Seq<u8>, bool)>::empty(),
            b.permission_query_gated() == gate_permission_query,
            b.wf(),
    {
        Backend { store: EventStore::new(), acl: AccessControl::new(), gate_permission_query }
    }

    /// Seeds the configured owner identity once: when the decoded identity
    /// holds no entry, an owner entry is inserted; re-running later is a
    /// no-op. A malformed key is reported as `InvalidIdentity` and nothing
    /// changes.
    pub fn bootstrap(&mut self, owner_key: &str) -> (r: Result<(), BackendError>)
        requires
            old(self).wf(),
        ensures
            final(self).wf(),
            final(self).events() == old(self).events(),
            final(self).permission_query_gated() == old(self).permission_query_gated(),
            r is Ok <==> base64_decoded(owner_key@) is Some,
            r is Ok ==> final(self).perms() == bootstrap_spec(
                old(self).perms(),
                self_authenticating_of(base64_decoded(owner_key@)->Some_0),
            ),
            r is Err ==> final(self).perms() == old(self).perms() && r->Err_0
                == BackendError::InvalidIdentity,
    {
        self.acl.bootstrap(owner_key)
    }

    /// Stores `event` for a known caller, overwriting any record with the
    /// same id; an unknown caller is turned away and nothing changes.
    pub fn save_event(&mut self, caller: &Identity, event: Event) -> (r: Result<(), BackendError>)
        requires
            old(self).wf(),
        ensures
            final(self).wf(),
            final(self).perms() == old(self).perms(),
            final(self).permission_query_gated() == old(self).permission_query_gated(),
            r is Ok <==> old(self).is_user_spec(caller@),
            r is Ok ==> final(self).events() == insert_event(old(self).events(), event@),
            r is Err ==> *final(self) == *old(self) && r->Err_0 == BackendError::Unauthorized,
    {
        if let Err(e) = self.acl.is_user(caller) {
            return Err(e);
        }
        let _ack = self.store.save_event_db(event);
        Ok(())
    }

    /// Stores a batch of events for a known caller, in order, so a later
    /// duplicate id in the batch wins; an unknown caller is turned away and
    /// nothing changes.
    pub fn save_events(&mut self, caller: &Identity, events: Vec<Event>) -> (r: Result<
        (),
        BackendError,
    >)
        requires
            old(self).wf(),
        ensures
            final(self).wf(),
            final(self).perms() == old(self).perms(),
            final(self).permission_query_gated() == old(self).permission_query_gated(),
            r is Ok <==> old(self).is_user_spec(caller@),
            r is Ok ==> final(self).events() == insert_events(
                old(self).events(),
                events.deep_view(),
            ),
            r is Err ==> *final(self) == *old(self) && r->Err_0 == BackendError::Unauthorized,
    {
        if let Err(e) = self.acl.is_user(caller) {
            return Err(e);
        }
        let _ack = self.store.save_events_db(events);
        Ok(())
    }

    /// Deletes the record stored under `id` for a known caller; an absent id
    /// is a no-op, not an error. An unknown caller is turned away and nothing
    /// changes.
    pub fn delete_event(&mut self, caller: &Identity, id: String) -> (r: Result<(), BackendError>)
        requires
            old(self).wf(),
        ensures
            final(self).wf(),
            final(self).perms() == old(self).perms(),
            final(self).permission_query_gated() == old(self).permission_query_gated(),
            r is Ok <==> old(self).is_user_spec(caller@),
            r is Ok ==> final(self).events() == delete_id(old(self).events(), id@),
            r is Ok && !has_id(old(self).events(), id@) ==> final(self).events() == old(
                self,
            ).events(),
            r is Err ==> *final(self) == *old(self) && r->Err_0 == BackendError::Unauthorized,
    {
        if let Err(e) = self.acl.is_user(caller) {
            return Err(e);
        }
        let _ack = self.store.delete_event_db(id);
        Ok(())
    }

    /// Every stored (id, event) pair for a known caller; an empty store
    /// yields an empty sequence.
    pub fn get_all_events(&self, caller: &Identity) -> (r: Result<
        Vec<(String, Event)>,
        BackendError,
    >)
        ensures
            r is Ok <==> self.is_user_spec(caller@),
            r is Ok ==> r->Ok_0.deep_view().len() == self.events().len(),
            r is Ok ==> forall|i: int|
                0 <= i < self.events().len() ==> r->Ok_0.deep_view()[i] == (
                    self.events()[i].id,
                    self.events()[i],
                ),
            r is Err ==> r->Err_0 == BackendError::Unauthorized,
    {
        if let Err(e) = self.acl.is_user(caller) {
            return Err(e);
        }
        Ok(self.store.get_all_events_db())
    }

    /// The number of stored records, for a known caller.
    pub fn count_all_events(&self, caller: &Identity) -> (r: Result<u64, BackendError>)
        ensures
            r is Ok <==> self.is_user_spec(caller@),
            r is Ok ==> r->Ok_0 as nat == self.events().len(),
            r is Err ==> r->Err_0 == BackendError::Unauthorized,
    {
        if let Err(e) = self.acl.is_user(caller) {
            return Err(e);
        }
        Ok(self.store.count_all_events_db())
    }

    /// The records matching `filter`, in store order, truncated to the
    /// filter's limit, for a known caller.
    pub fn get_events(&self, caller: &Identity, filter: Filter) -> (r: Result<
        Vec<Event>,
        BackendError,
    >)
        ensures
            r is Ok <==> self.is_user_spec(caller@),
            r is Ok ==> r->Ok_0.deep_view() == query_spec(self.events(), filter@),
            r is Err ==> r->Err_0 == BackendError::Unauthorized,
    {
        if let Err(e) = self.acl.is_user(caller) {
            return Err(e);
        }
        Ok(self.store.get_events_db(filter))
    }

    /// The number of records a query with `filter` returns, for a known
    /// caller.
    pub fn count_events(&self, caller: &Identity, filter: Filter) -> (r: Result<u64, BackendError>)
        ensures
            r is Ok <==> self.is_user_spec(caller@),
            r is Ok ==> r->Ok_0 as nat == query_spec(self.events(), filter@).len(),
            r is Err ==> r->Err_0 == BackendError::Unauthorized,
    {
        if let Err(e) = self.acl.is_user(caller) {
            return Err(e);
        }
        Ok(self.store.count_events_db(filter))
    }

    /// Atomically replaces the event table with an empty one, for a known
    /// caller; an unknown caller is turned away and nothing changes.
    pub fn clear_events(&mut self, caller: &Identity) -> (r: Result<(), BackendError>)
        requires
            old(self).wf(),
        ensures
            final(self).wf(),
            final(self).perms() == old(self).perms(),
            final(self).permission_query_gated() == old(self).permission_query_gated(),
            r is Ok <==> old(self).is_user_spec(caller@),
            r is Ok ==> final(self).events() == Seq::<EventModel>::empty(),
            r is Err ==> *final(self) == *old(self) && r->Err_0 == BackendError::Unauthorized,
    {
        if let Err(e) = self.acl.is_user(caller) {
            return Err(e);
        }
        let _ack = self.store.clear_events_db();
        Ok(())
    }

    /// Inserts or overwrites the permission entry for the decoded target key,
    /// for an owner caller. A non-owner caller is turned away with
    /// `Unauthorized`; an owner handing in a malformed key is told
    /// `InvalidIdentity`; in both cases nothing changes.
    pub fn add_user(&mut self, caller: &Identity, pub_key: String, perm: bool) -> (r: Result<
        (),
        BackendError,
    >)
        requires
            old(self).wf(),
        ensures
            final(self).wf(),
            final(self).events() == old(self).events(),
            final(self).permission_query_gated() == old(self).permission_query_gated(),
            !old(self).is_owner_spec(caller@) ==> *final(self) == *old(self) && r == Err::<
                (),
                BackendError,
            >(BackendError::Unauthorized),
            old(self).is_owner_spec(caller@) ==> (r is Ok <==> base64_decoded(pub_key@) is Some),
            old(self).is_owner_spec(caller@) && r is Ok ==> final(self).perms() == acl_insert(
                old(self).perms(),
                self_authenticating_of(base64_decoded(pub_key@)->Some_0),
                perm,
            ),
            old(self).is_owner_spec(caller@) && r is Err ==> final(self).perms() == old(
                self,
            ).perms() && r->Err_0 == BackendError::InvalidIdentity,
    {
        if let Err(e) = self.acl.is_owner(caller) {
            return Err(e);
        }
        self.acl.add_user_acl(pub_key, perm)
    }

    /// Deletes the permission entry for the decoded target key, for an owner
    /// caller; a missing entry is not an error. A non-owner caller is turned
    /// away with `Unauthorized`; an owner handing in a malformed key is told
    /// `InvalidIdentity`; in both cases nothing changes.
    pub fn remove_user(&mut self, caller: &Identity, pub_key: String) -> (r: Result<
        (),
        BackendError,
    >)
        requires
            old(self).wf(),
        ensures
            final(self).wf(),
            final(self).events() == old(self).events(),
            final(self).permission_query_gated() == old(self).permission_query_gated(),
            !old(self).is_owner_spec(caller@) ==> *final(self) == *old(self) && r == Err::<
                (),
                BackendError,
            >(BackendError::Unauthorized),
            old(self).is_owner_spec(caller@) ==> (r is Ok <==> base64_decoded(pub_key@) is Some),
            old(self).is_owner_spec(caller@) && r is Ok ==> final(self).perms() == acl_remove(
                old(self).perms(),
                self_authenticating_of(base64_decoded(pub_key@)->Some_0),
            ),
            old(self).is_owner_spec(caller@) && r is Err ==> final(self).perms() == old(
                self,
            ).perms() && r->Err_0 == BackendError::InvalidIdentity,
    {
        if let Err(e) = self.acl.is_owner(caller) {
            return Err(e);
        }
        self.acl.remove_user_acl(pub_key)
    }

    /// The caller's recorded role. When the deployment gates this query, an
    /// unknown caller is turned away with `Unauthorized`; when it is open,
    /// an unknown caller is told `Unauthorized` as a role value.
    pub fn get_permission(&self, caller: &Identity) -> (r: Result<Role, BackendError>)
        requires
            self.wf(),
        ensures
            self.permission_query_gated() && !self.is_user_spec(caller@) ==> r == Err::<
                Role,
                BackendError,
            >(BackendError::Unauthorized),
            !self.permission_query_gated() || self.is_user_spec(caller@) ==> r == Ok::<
                Role,
                BackendError,
            >(spec_role(self.perms(), caller@)),
    {
        if self.gate_permission_query {
            if let Err(e) = self.acl.is_user(caller) {
                return Err(e);
            }
        }
        Ok(self.acl.get_permission_acl(caller))
    }
}

} // verus!
