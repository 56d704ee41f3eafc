//! The service locator: a process-wide registry of singleton business
//! services, looked up by a service key that stands for the service's type.
//!
//! The locator is populated once during gateway start-up, strictly before
//! any transport accepts connections, and is read-only afterwards; the read
//! path never mutates. Registering the same key twice is refused —
//! business logic, unlike sessions, must not be silently swapped — and the
//! first registration stays resolvable.

use vstd::prelude::*;

verus! {

/// Why a locator operation failed.
#[derive(Clone, Copy, PartialEq, Eq, Structural, Debug)]
pub enum ServiceError {
    /// `register` was called twice for one service key.
    DuplicateRegistration,
    /// `resolve` found nothing under the key.
    NotRegistered,
}

/// Singleton services of type `V`, keyed by service key.
pub struct ServiceContainer<V> {
    pub entries: Vec<(u64, V)>,
}

impl<V> ServiceContainer<V> {
    /// A service is registered under `key`.
    pub open spec fn spec_registered(self, key: u64) -> bool {
        exists|i: int| 0 <= i < self.entries@.len() && (#[trigger] self.entries@[i]).0 == key
    }

    /// The index of the record under `key` (meaningful under [`Self::wf`]
    /// when [`Self::spec_registered`] holds).
    pub open spec fn key_idx(self, key: u64) -> int {
        choose|i: int| 0 <= i < self.entries@.len() && (#[trigger] self.entries@[i]).0 == key
    }

    /// The service registered under `key`.
    pub open spec fn spec_service(self, key: u64) -> V {
        self.entries@[self.key_idx(key)].1
    }

    /// The locator invariant: each key is registered at most once.
    pub open spec fn wf(self) -> bool {
        forall|i: int, j: int|
            #![trigger self.entries@[i], self.entries@[j]]
            0 <= i < j < self.entries@.len() ==> self.entries@[i].0 != self.entries@[j].0
    }

    /// An empty locator.
    pub fn new() -> (r: Self)
        ensures
            r.wf(),
            forall|key: u64| !r.spec_registered(key),
    {
        ServiceContainer { entries: Vec::new() }
    }

    /// Registers the singleton for `key`. Registering a key twice fails
    /// with [`ServiceError::DuplicateRegistration`] and leaves the first
    /// registration in place; a fresh key is stored and every other key is
    /// untouched.
    #[verifier::loop_isolation(false)]
    pub fn register(&mut self, key: u64, service: V) -> (r: Result<(), ServiceError>)
        requires
            old(self).wf(),
        ensures
            final(self).wf(),
            old(self).spec_registered(key) ==> r == Err::<(), ServiceError>(
                ServiceError::DuplicateRegistration,
            ) && *final(self) == *old(self),
            !old(self).spec_registered(key) ==> {
                &&& r == Ok::<(), ServiceError>(())
                &&& final(self).spec_registered(key)
                &&& final(self).spec_service(key) == service
                &&& forall|k: u64|
                    k != key ==> #[trigger] final(self).spec_registered(k)
                        == old(self).spec_registered(k) && (old(self).spec_registered(k)
                        ==> final(self).spec_service(k) == old(self).spec_service(k))
            },
    {
        let ghost pre = *old(self);
        let ghost es0 = pre.entries@;
        let n = self.entries.len();
        let mut i: usize = 0;
        while i < n
            invariant
                *self == pre,
                i <= n,
                forall|j: int| 0 <= j < i ==> (#[trigger] es0[j]).0 != key,
            decreases n - i,
        {
            if self.entries[i].0 == key {
                return Err(ServiceError::DuplicateRegistration);
            }
            i += 1;
        }
        self.entries.push((key, service));
        proof {
            let es1 = self.entries@;
            assert(es1[es0.len() as int].0 == key);
            assert forall|a: int, b: int|
                #![trigger es1[a], es1[b]]
                0 <= a < b < es1.len() implies es1[a].0 != es1[b].0 by {
                if b == es0.len() {
                    assert(es1[a] == es0[a]);
                } else {
                    assert(es1[a] == es0[a]);
                    assert(es1[b] == es0[b]);
                }
            }
            lemma_key_idx(*self, key, es0.len() as int);
            assert forall|k: u64| k != key implies #[trigger] self.spec_registered(k)
                == pre.spec_registered(k) && (pre.spec_registered(k) ==> self.spec_service(k)
                == pre.spec_service(k)) by {
                if pre.spec_registered(k) {
                    let j = pre.key_idx(k);
                    assert(0 <= j < es0.len() && es0[j].0 == k);
                    assert(es1[j] == es0[j]);
                    lemma_key_idx(*self, k, j);
                    lemma_key_idx(pre, k, j);
                }
                if self.spec_registered(k) {
                    let j = self.key_idx(k);
                    assert(0 <= j < es1.len() && es1[j].0 == k);
                    assert(j != es0.len());
                    assert(es0[j] == es1[j]);
                    assert(pre.spec_registered(k));
                }
            }
        }
        Ok(())
    }

    /// Resolves the singleton for `key`: exactly the registered service
    /// when one is there, and [`ServiceError::NotRegistered`] if and only
    /// if no registration for `key` ever happened.
    #[verifier::loop_isolation(false)]
    pub fn resolve(&self, key: u64) -> (r: Result<&V, ServiceError>)
        requires
            self.wf(),
        ensures
            r is Ok <==> self.spec_registered(key),
            r matches Ok(v) ==> *v == self.spec_service(key),
            r is Err ==> r == Err::<&V, ServiceError>(ServiceError::NotRegistered),
    {
        let n = self.entries.len();
        let mut i: usize = 0;
        while i < n
            invariant
                i <= n,
                forall|j: int| 0 <= j < i ==> (#[trigger] self.entries@[j]).0 != key,
            decreases n - i,
        {
            if self.entries[i].0 == key {
                proof {
                    lemma_key_idx(*self, key, i as int);
                }
                return Ok(&self.entries[i].1);
            }
            i += 1;
        }
        assert(!self.spec_registered(key));
        Err(ServiceError::NotRegistered)
    }
}

/// Under the locator invariant, a record found at `i` under `key` is the
/// record [`ServiceContainer::key_idx`] denotes.
pub proof fn lemma_key_idx<V>(c: ServiceContainer<V>, key: u64, i: int)
    requires
        c.wf(),
        0 <= i < c.entries@.len(),
        c.entries@[i].0 == key,
    ensures
        c.spec_registered(key),
        c.key_idx(key) == i,
{
    assert(c.spec_registered(key));
    let k = c.key_idx(key);
    if k < i {
        assert(c.entries@[k].0 != c.entries@[i].0);
    } else if k > i {
        assert(c.entries@[i].0 != c.entries@[k].0);
    }
}

} // verus!
