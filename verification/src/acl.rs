//! Access control: caller identities and the permission table.
//!
//! A permission entry maps a caller identity to a boolean owner flag. Absence
//! of an entry means the caller is unauthorized. Callers are identified by
//! the bytes of a self-authenticating principal, derived from a
//! base64-encoded public key.

use vstd::prelude::*;

use crate::BackendError;

verus! {

/// base64's error type for malformed input, declared so the decoding wrapper
/// can return it; callers only map it to [`BackendError::InvalidIdentity`].
#[verifier::external_type_specification]
#[verifier::external_body]
pub struct ExDecodeError(base64::DecodeError);

/// What decoding a string as standard base64 yields: `Some` bytes exactly
/// when the input is valid, `None` otherwise. Decoding is a pure function of
/// the input string.
pub uninterp spec fn base64_decoded(s: Seq<char>) -> Option<Seq<u8>>;

/// Relies on base64's `Engine::decode` with the standard-alphabet, padded
/// engine: the outcome depends on the input string alone.
#[verifier::external_body]
fn base64_decode(s: &str) -> (r: Result<Vec<u8>, base64::DecodeError>)
    ensures
        match r {
            Ok(bytes) => base64_decoded(s@) == Some(bytes@),
            Err(_) => base64_decoded(s@) is None,
        },
{
    base64::Engine::decode(&base64::engine::general_purpose::STANDARD, s)
}

/// The bytes of the self-authenticating principal derived from a public key:
/// a digest of the key bytes, a function of them alone.
pub uninterp spec fn self_authenticating_of(key: Seq<u8>) -> Seq<u8>;

/// Relies on candid's `Principal::self_authenticating`, which derives a
/// principal by hashing the key bytes; the result depends on them alone.
#[verifier::external_body]
fn self_authenticating_bytes(key: &Vec<u8>) -> (r: Vec<u8>)
    ensures
        r@ == self_authenticating_of(key@),
{
    candid::Principal::self_authenticating(key).as_slice().to_vec()
}

/// A caller identity: the raw bytes of a principal.
#[derive(Debug)]
pub struct Identity {
    bytes: Vec<u8>,
}

impl View for Identity {
    type V = Seq<u8>;

    closed spec fn view(&self) -> Seq<u8> {
        self.bytes@
    }
}

impl DeepView for Identity {
    type V = Seq<u8>;

    open spec fn deep_view(&self) -> Seq<u8> {
        self.view()
    }
}

impl Identity {
    /// Wraps raw principal bytes as an identity.
    pub fn from_bytes(bytes: Vec<u8>) -> (id: Identity)
        ensures
            id@ == bytes@,
    {
        Identity { bytes }
    }

    /// The identity's raw principal bytes.
    pub fn as_bytes(&self) -> (r: &Vec<u8>)
        ensures
            r@ == self@,
    {
        &self.bytes
    }
}

/// A caller's role, as the permission table records it.
#[derive(Clone, Copy, Debug, PartialEq, Eq, Structural)]
pub enum Role {
    Owner,
    User,
    Unauthorized,
}

impl Role {
    /// The role's conventional wire name.
    pub fn label(&self) -> (r: String)
        ensures
            *self == Role::Owner ==> r@ == "Owner"@,
            *self == Role::User ==> r@ == "User"@,
            *self == Role::Unauthorized ==> r@ == "Unauthorized"@,
    {
        match self {
            Role::Owner => "Owner".to_string(),
            Role::User => "User".to_string(),
            Role::Unauthorized => "Unauthorized".to_string(),
        }
    }
}

/// No two entries share an identity.
pub open spec fn acl_unique(s: Seq<(Seq<u8>, bool)>) -> bool {
    forall|i: int, j: int| 0 <= i < j < s.len() ==> s[i].0 != s[j].0
}

/// Whether an entry for identity `k` exists.
pub open spec fn acl_has(s: Seq<(Seq<u8>, bool)>, k: Seq<u8>) -> bool {
    exists|i: int| 0 <= i < s.len() && s[i].0 == k
}

/// The position of the entry for `k` (meaningful when `acl_has` holds and
/// identities are unique).
pub open spec fn acl_idx(s: Seq<(Seq<u8>, bool)>, k: Seq<u8>) -> int {
    choose|i: int| 0 <= i < s.len() && s[i].0 == k
}

/// The owner flag recorded for `k`, if an entry exists.
pub open spec fn acl_lookup(s: Seq<(Seq<u8>, bool)>, k: Seq<u8>) -> Option<bool> {
    if acl_has(s, k) {
        Some(s[acl_idx(s, k)].1)
    } else {
        None
    }
}

/// The table after granting `k` the flag `v`: an existing entry is
/// overwritten in place, otherwise a new entry is appended.
pub open spec fn acl_insert(s: Seq<(Seq<u8>, bool)>, k: Seq<u8>, v: bool) -> Seq<(Seq<u8>, bool)> {
    if acl_has(s, k) {
        s.update(acl_idx(s, k), (k, v))
    } else {
        s.push((k, v))
    }
}

/// The table after revoking `k`: the entry is removed if present, and an
/// absent identity leaves the table unchanged.
pub open spec fn acl_remove(s: Seq<(Seq<u8>, bool)>, k: Seq<u8>) -> Seq<(Seq<u8>, bool)> {
    if acl_has(s, k) {
        s.remove(acl_idx(s, k))
    } else {
        s
    }
}

/// The table after seeding owner `k`: untouched when an entry already exists
/// (whatever its flag), else extended with an owner entry.
pub open spec fn bootstrap_spec(s: Seq<(Seq<u8>, bool)>, k: Seq<u8>) -> Seq<(Seq<u8>, bool)> {
    if acl_has(s, k) {
        s
    } else {
        acl_insert(s, k, true)
    }
}

/// The role the table assigns to `k`.
pub open spec fn spec_role(s: Seq<(Seq<u8>, bool)>, k: Seq<u8>) -> Role {
    if !acl_has(s, k) {
        Role::Unauthorized
    } else if acl_lookup(s, k) == Some(true) {
        Role::Owner
    } else {
        Role::User
    }
}

/// In a table with unique identities, the identity found at position `i` is
/// found exactly there.
pub proof fn lemma_acl_idx_unique(s: Seq<(Seq<u8>, bool)>, i: int)
    requires
        acl_unique(s),
        0 <= i < s.len(),
    ensures
        acl_has(s, s[i].0),
        acl_idx(s, s[i].0) == i,
{
    assert(acl_has(s, s[i].0)) by {
        assert(0 <= i < s.len() && s[i].0 == s[i].0);
    }
    let j = acl_idx(s, s[i].0);
    assert(0 <= j < s.len() && s[j].0 == s[i].0);
    if i < j {
        assert(s[i].0 != s[j].0);
    }
    if j < i {
        assert(s[j].0 != s[i].0);
    }
}

/// An identity no entry carries is not in the table.
pub proof fn lemma_acl_no_key(s: Seq<(Seq<u8>, bool)>, k: Seq<u8>)
    requires
        forall|i: int| 0 <= i < s.len() ==> s[i].0 != k,
    ensures
        !acl_has(s, k),
{
    if acl_has(s, k) {
        let i = choose|i: int| 0 <= i < s.len() && s[i].0 == k;
        assert(s[i].0 != k);
    }
}

/// Granting preserves identity uniqueness, and the granted flag is then the
/// one recorded for that identity.
pub proof fn lemma_acl_insert(s: Seq<(Seq<u8>, bool)>, k: Seq<u8>, v: bool)
    requires
        acl_unique(s),
    ensures
        acl_unique(acl_insert(s, k, v)),
        acl_lookup(acl_insert(s, k, v), k) == Some(v),
{
    if acl_has(s, k) {
        let m = acl_idx(s, k);
        assert(0 <= m < s.len() && s[m].0 == k);
        let t = s.update(m, (k, v));
        assert forall|i: int, j: int| 0 <= i < j < t.len() implies t[i].0 != t[j].0 by {
            assert(s[i].0 != s[j].0);
        }
        lemma_acl_idx_unique(t, m);
        assert(t[m] == (k, v));
    } else {
        let t = s.push((k, v));
        assert forall|i: int, j: int| 0 <= i < j < t.len() implies t[i].0 != t[j].0 by {
            if j < s.len() {
                assert(s[i].0 != s[j].0);
            } else {
                assert(t[j] == (k, v));
                if t[i].0 == k {
                    assert(acl_has(s, k)) by {
                        assert(0 <= i < s.len() && s[i].0 == k);
                    }
                }
            }
        }
        lemma_acl_idx_unique(t, s.len() as int);
        assert(t[s.len() as int] == (k, v));
    }
}

/// Revoking preserves identity uniqueness, and afterwards no entry carries
/// the revoked identity.
pub proof fn lemma_acl_remove(s: Seq<(Seq<u8>, bool)>, k: Seq<u8>)
    requires
        acl_unique(s),
    ensures
        acl_unique(acl_remove(s, k)),
        !acl_has(acl_remove(s, k), k),
{
    if acl_has(s, k) {
        let m = acl_idx(s, k);
        assert(0 <= m < s.len() && s[m].0 == k);
        let t = s.remove(m);
        s.remove_ensures(m);
        assert forall|i: int, j: int| 0 <= i < j < t.len() implies t[i].0 != t[j].0 by {
            let i0: int = if i < m {
                i
            } else {
                i + 1
            };
            let j0: int = if j < m {
                j
            } else {
                j + 1
            };
            assert(t[i] == s[i0] && t[j] == s[j0]);
            assert(s[i0].0 != s[j0].0);
        }
        assert forall|i: int| 0 <= i < t.len() implies t[i].0 != k by {
            let i0: int = if i < m {
                i
            } else {
                i + 1
            };
            assert(t[i] == s[i0]);
            if i0 != m {
                assert(s[i0].0 != s[m].0) by {
                    if i0 < m {
                        assert(acl_unique(s));
                    }
                }
            }
        }
        lemma_acl_no_key(t, k);
    } else {
        assert forall|i: int| 0 <= i < s.len() implies s[i].0 != k by {
            if s[i].0 == k {
                assert(acl_has(s, k)) by {
                    assert(0 <= i < s.len() && s[i].0 == k);
                }
            }
        }
        lemma_acl_no_key(s, k);
    }
}

/// Granting one identity leaves every other identity's entry unchanged.
pub proof fn lemma_acl_insert_preserves_others(
    s: Seq<(Seq<u8>, bool)>,
    k: Seq<u8>,
    v: bool,
    other: Seq<u8>,
)
    requires
        acl_unique(s),
        other != k,
    ensures
        acl_lookup(acl_insert(s, k, v), other) == acl_lookup(s, other),
{
    lemma_acl_insert(s, k, v);
    let t = acl_insert(s, k, v);
    if acl_has(s, other) {
        let m = acl_idx(s, other);
        assert(0 <= m < s.len() && s[m].0 == other);
        lemma_acl_idx_unique(s, m);
        if acl_has(s, k) {
            let j = acl_idx(s, k);
            assert(0 <= j < s.len() && s[j].0 == k);
            assert(m != j);
            assert(t == s.update(j, (k, v)));
        } else {
            assert(t == s.push((k, v)));
        }
        assert(t[m] == s[m]);
        lemma_acl_idx_unique(t, m);
    } else {
        assert forall|i: int| 0 <= i < s.len() implies s[i].0 != other by {
            if s[i].0 == other {
                assert(acl_has(s, other)) by {
                    assert(0 <= i < s.len() && s[i].0 == other);
                }
            }
        }
        assert forall|i: int| 0 <= i < t.len() implies t[i].0 != other by {
            if acl_has(s, k) {
                assert(t == s.update(acl_idx(s, k), (k, v)));
                assert(t[i].0 == s[i].0 || t[i].0 == k);
            } else {
                assert(t == s.push((k, v)));
                if i < s.len() {
                    assert(t[i] == s[i]);
                } else {
                    assert(t[i] == (k, v));
                }
            }
        }
        lemma_acl_no_key(t, other);
    }
}

/// Revoking one identity leaves every other identity's entry unchanged.
pub proof fn lemma_acl_remove_preserves_others(s: Seq<(Seq<u8>, bool)>, k: Seq<u8>, other: Seq<u8>)
    requires
        acl_unique(s),
        other != k,
    ensures
        acl_lookup(acl_remove(s, k), other) == acl_lookup(s, other),
{
    if !acl_has(s, k) {
        return ;
    }
    lemma_acl_remove(s, k);
    let j = acl_idx(s, k);
    assert(0 <= j < s.len() && s[j].0 == k);
    let t = s.remove(j);
    s.remove_ensures(j);
    if acl_has(s, other) {
        let m = acl_idx(s, other);
        assert(0 <= m < s.len() && s[m].0 == other);
        lemma_acl_idx_unique(s, m);
        assert(m != j);
        let m2: int = if m < j {
            m
        } else {
            m - 1
        };
        assert(t[m2] == s[m]);
        lemma_acl_idx_unique(t, m2);
    } else {
        assert forall|i: int| 0 <= i < t.len() implies t[i].0 != other by {
            let i0: int = if i < j {
                i
            } else {
                i + 1
            };
            assert(t[i] == s[i0]);
            if s[i0].0 == other {
                assert(acl_has(s, other)) by {
                    assert(0 <= i0 < s.len() && s[i0].0 == other);
                }
            }
        }
        lemma_acl_no_key(t, other);
    }
}

/// Bootstrap idempotence: seeding the owner twice leaves the table exactly as
/// seeding it once, and a fresh table then records exactly one entry for the
/// configured identity, with the owner flag set.
pub proof fn lemma_bootstrap_idempotent(s: Seq<(Seq<u8>, bool)>, k: Seq<u8>)
    requires
        acl_unique(s),
    ensures
        acl_unique(bootstrap_spec(s, k)),
        bootstrap_spec(bootstrap_spec(s, k), k) == bootstrap_spec(s, k),
        acl_lookup(bootstrap_spec(s, k), k) is Some,
        !acl_has(s, k) ==> acl_lookup(bootstrap_spec(s, k), k) == Some(true),
        acl_has(s, k) ==> bootstrap_spec(s, k) == s,
{
    if !acl_has(s, k) {
        lemma_acl_insert(s, k, true);
    }
}

/// Compares two byte strings for equality.
#[verifier::loop_isolation(false)]
fn bytes_eq(a: &Vec<u8>, b: &Vec<u8>) -> (r: bool)
    ensures
        r == (a@ == b@),
{
    if a.len() != b.len() {
        return false;
    }
    let n = a.len();
    for i in 0..n
        invariant
            forall|j: int| 0 <= j < i ==> a@[j] == b@[j],
    {
        if a[i] != b[i] {
            return false;
        }
    }
    assert(a@ =~= b@);
    true
}

/// Decodes an externally supplied key: the base64 text is decoded to the
/// public key bytes, from which the self-authenticating principal is derived.
/// Malformed base64 is reported as `InvalidIdentity`, never as some default
/// identity.
pub fn string_to_principal(pub_key: String) -> (r: Result<Identity, BackendError>)
    ensures
        r is Ok <==> base64_decoded(pub_key@) is Some,
        r is Ok ==> r->Ok_0@ == self_authenticating_of(base64_decoded(pub_key@)->Some_0),
        r is Err ==> r->Err_0 == BackendError::InvalidIdentity,
{
    match base64_decode(pub_key.as_str()) {
        Ok(bytes) => {
            let principal_bytes = self_authenticating_bytes(&bytes);
            Ok(Identity::from_bytes(principal_bytes))
        },
        Err(_) => Err(BackendError::InvalidIdentity),
    }
}

/// The permission table: each entry maps a caller identity to an owner flag.
/// Absence of an entry means "unauthorized"; a flag of `true` means owner, of
/// `false` plain user.
pub struct AccessControl {
    entries: Vec<(Identity, bool)>,
}

impl View for AccessControl {
    type V = Seq<(Seq<u8>, bool)>;

    closed spec fn view(&self) -> Seq<(Seq<u8>, bool)> {
        self.entries.deep_view()
    }
}

impl AccessControl {
    /// The table's invariant: identities are unique.
    pub open spec fn wf(&self) -> bool {
        acl_unique(self@)
    }

    /// An empty table: nobody is authorized.
    pub fn new() -> (acl: AccessControl)
        ensures
            acl@ == Seq::<(Seq<u8>, bool)>::empty(),
            acl.wf(),
    {
        let acl = AccessControl { entries: Vec::new() };
        proof {
            assert(acl@ =~= Seq::<(Seq<u8>, bool)>::empty());
        }
        acl
    }

    /// Succeeds exactly when an entry exists for `caller`, whatever its flag.
    #[verifier::loop_isolation(false)]
    pub fn is_user(&self, caller: &Identity) -> (r: Result<(), BackendError>)
        ensures
            r is Ok <==> acl_has(self@, caller@),
            r is Err ==> r->Err_0 == BackendError::Unauthorized,
    {
        let n = self.entries.len();
        for i in 0..n
            invariant
                forall|j: int| 0 <= j < i ==> self@[j].0 != caller@,
        {
            if bytes_eq(&self.entries[i].0.bytes, &caller.bytes) {
                assert(self@[i as int].0 == caller@);
                return Ok(());
            }
            proof {
                assert(self@[i as int].0 != caller@);
            }
        }
        proof {
            lemma_acl_no_key(self@, caller@);
        }
        Err(BackendError::Unauthorized)
    }

    /// Succeeds exactly when an entry exists for `caller` and its flag marks
    /// an owner.
    #[verifier::loop_isolation(false)]
    pub fn is_owner(&self, caller: &Identity) -> (r: Result<(), BackendError>)
        requires
            self.wf(),
        ensures
            r is Ok <==> acl_lookup(self@, caller@) == Some(true),
            r is Err ==> r->Err_0 == BackendError::Unauthorized,
    {
        let n = self.entries.len();
        for i in 0..n
            invariant
                forall|j: int| 0 <= j < i ==> self@[j].0 != caller@,
        {
            if bytes_eq(&self.entries[i].0.bytes, &caller.bytes) {
                proof {
                    lemma_acl_idx_unique(self@, i as int);
                }
                if self.entries[i].1 {
                    return Ok(());
                } else {
                    return Err(BackendError::Unauthorized);
                }
            }
            proof {
                assert(self@[i as int].0 != caller@);
            }
        }
        proof {
            lemma_acl_no_key(self@, caller@);
        }
        Err(BackendError::Unauthorized)
    }

    /// Inserts or overwrites the entry for an already-decoded identity.
    #[verifier::loop_isolation(false)]
    pub fn set_permission(&mut self, id: Identity, perm: bool)
        requires
            old(self).wf(),
        ensures
            final(self).wf(),
            final(self)@ == acl_insert(old(self)@, id@, perm),
    {
        proof {
            lemma_acl_insert(old(self)@, id@, perm);
        }
        let n = self.entries.len();
        let mut i: usize = 0;
        while i < n
            invariant
                *self == *old(self),
                n == self.entries.len(),
                0 <= i <= n,
                forall|j: int| 0 <= j < i ==> self@[j].0 != id@,
            decreases n - i,
        {
            if bytes_eq(&self.entries[i].0.bytes, &id.bytes) {
                proof {
                    lemma_acl_idx_unique(self@, i as int);
                }
                let ghost old_view = self@;
                let ghost k = id@;
                self.entries.set(i, (id, perm));
                proof {
                    assert(self@ =~= old_view.update(i as int, (k, perm)));
                }
                return ;
            }
            proof {
                assert(self@[i as int].0 != id@);
            }
            i += 1;
        }
        proof {
            lemma_acl_no_key(self@, id@);
        }
        let ghost old_view = self@;
        let ghost k = id@;
        self.entries.push((id, perm));
        proof {
            assert(self@ =~= old_view.push((k, perm)));
        }
    }

    /// Deletes the entry for an already-decoded identity; an absent entry
    /// leaves the table unchanged.
    #[verifier::loop_isolation(false)]
    pub fn remove_permission(&mut self, id: &Identity)
        requires
            old(self).wf(),
        ensures
            final(self).wf(),
            final(self)@ == acl_remove(old(self)@, id@),
    {
        proof {
            lemma_acl_remove(old(self)@, id@);
        }
        let n = self.entries.len();
        let mut i: usize = 0;
        while i < n
            invariant
                *self == *old(self),
                n == self.entries.len(),
                0 <= i <= n,
                forall|j: int| 0 <= j < i ==> self@[j].0 != id@,
            decreases n - i,
        {
            if bytes_eq(&self.entries[i].0.bytes, &id.bytes) {
                proof {
                    lemma_acl_idx_unique(self@, i as int);
                }
                let ghost old_view = self@;
                let _removed = self.entries.remove(i);
                proof {
                    old_view.remove_ensures(i as int);
                    assert(self@ =~= old_view.remove(i as int));
                }
                return ;
            }
            proof {
                assert(self@[i as int].0 != id@);
            }
            i += 1;
        }
        proof {
            lemma_acl_no_key(self@, id@);
        }
    }

    /// Decodes `pub_key` and inserts or overwrites its permission entry with
    /// the flag `perm`. A malformed key is reported as `InvalidIdentity` and
    /// the table is left unchanged.
    pub fn add_user_acl(&mut self, pub_key: String, perm: bool) -> (r: Result<(), BackendError>)
        requires
            old(self).wf(),
        ensures
            final(self).wf(),
            r is Ok <==> base64_decoded(pub_key@) is Some,
            r is Ok ==> final(self)@ == acl_insert(
                old(self)@,
                self_authenticating_of(base64_decoded(pub_key@)->Some_0),
                perm,
            ),
            r is Err ==> final(self)@ == old(self)@ && r->Err_0 == BackendError::InvalidIdentity,
    {
        match string_to_principal(pub_key) {
            Ok(principal) => {
                self.set_permission(principal, perm);
                Ok(())
            },
            Err(e) => Err(e),
        }
    }

    /// Decodes `pub_key` and deletes its permission entry; a missing entry is
    /// not an error. A malformed key is reported as `InvalidIdentity` and the
    /// table is left unchanged.
    pub fn remove_user_acl(&mut self, pub_key: String) -> (r: Result<(), BackendError>)
        requires
            old(self).wf(),
        ensures
            final(self).wf(),
            r is Ok <==> base64_decoded(pub_key@) is Some,
            r is Ok ==> final(self)@ == acl_remove(
                old(self)@,
                self_authenticating_of(base64_decoded(pub_key@)->Some_0),
            ),
            r is Err ==> final(self)@ == old(self)@ && r->Err_0 == BackendError::InvalidIdentity,
    {
        match string_to_principal(pub_key) {
            Ok(principal) => {
                self.remove_permission(&principal);
                Ok(())
            },
            Err(e) => Err(e),
        }
    }

    /// The role recorded for `caller`: `Owner` or `User` when an entry
    /// exists, `Unauthorized` when none does.
    #[verifier::loop_isolation(false)]
    pub fn get_permission_acl(&self, caller: &Identity) -> (r: Role)
        requires
            self.wf(),
        ensures
            r == spec_role(self@, caller@),
    {
        let n = self.entries.len();
        for i in 0..n
            invariant
                forall|j: int| 0 <= j < i ==> self@[j].0 != caller@,
        {
            if bytes_eq(&self.entries[i].0.bytes, &caller.bytes) {
                proof {
                    lemma_acl_idx_unique(self@, i as int);
                }
                if self.entries[i].1 {
                    return Role::Owner;
                } else {
                    return Role::User;
                }
            }
            proof {
                assert(self@[i as int].0 != caller@);
            }
        }
        proof {
            lemma_acl_no_key(self@, caller@);
        }
        Role::Unauthorized
    }

    /// Seeds the configured owner once: decodes `owner_key` and, when no
    /// entry exists for the decoded identity, inserts an owner entry.
    /// Re-running after an entry exists is a no-op, not an error; a malformed
    /// key is reported as `InvalidIdentity` and the table is left unchanged.
    pub fn bootstrap(&mut self, owner_key: &str) -> (r: Result<(), BackendError>)
        requires
            old(self).wf(),
        ensures
            final(self).wf(),
            r is Ok <==> base64_decoded(owner_key@) is Some,
            r is Ok ==> final(self)@ == bootstrap_spec(
                old(self)@,
                self_authenticating_of(base64_decoded(owner_key@)->Some_0),
            ),
            r is Err ==> final(self)@ == old(self)@ && r->Err_0 == BackendError::InvalidIdentity,
    {
        match string_to_principal(owner_key.to_owned()) {
            Ok(principal) => {
                match self.is_user(&principal) {
                    Ok(()) => {},
                    Err(_) => {
                        self.set_permission(principal, true);
                    },
                }
                Ok(())
            },
            Err(e) => Err(e),
        }
    }
}

} // verus!
