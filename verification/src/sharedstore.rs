//! The concurrency-safe face of the certificate store: a reader/writer
//! lock whose invariant is the store's own well-formedness, so every
//! reader sees a well-formed certificate set and every writer must
//! leave one behind.
//!
//! Shared read access serves queries and snapshots; exclusive write
//! access serves `update`, deletion and the reload; lock poisoning does
//! not arise because the lock never holds a torn value: a writer can
//! only release it with the invariant re-established.

use vstd::prelude::*;
use vstd::rwlock::{RwLock, RwLockPredicate};

use crate::cert::Certificate;
use crate::store::MutStore;
use crate::InternalErr;

verus! {

/// What the lock protects: a well-formed store.
pub struct StorePred;

impl RwLockPredicate<MutStore> for StorePred {
    open spec fn inv(self, v: MutStore) -> bool {
        v.wf()
    }
}

/// A certificate store behind a reader/writer lock: many concurrent
/// readers, one exclusive writer, well-formedness as the lock
/// invariant.
pub struct SharedStore {
    pub lock: RwLock<MutStore, StorePred>,
}

impl SharedStore {
    /// Wrap a well-formed store.
    pub fn new(store: MutStore) -> (r: SharedStore)
        requires
            store.wf(),
    {
        SharedStore { lock: RwLock::new(store, Ghost(StorePred)) }
    }

    /// Take a shared read lock just long enough to copy the certificate
    /// set; the snapshot is well formed and path searches on it run
    /// without holding the lock.
    pub fn snapshot(&self) -> (r: Vec<Certificate>)
        ensures
            crate::store::store_wf(r.deep_view()),
            crate::store::store_public(r.deep_view()),
    {
        let handle = self.lock.acquire_read();
        let certs = crate::cert::clone_vec_certificate(&handle.borrow().certs);
        handle.release_read();
        certs
    }

    /// Merge a certificate in under the exclusive write lock.
    pub fn update(&self, cert: Certificate) {
        let (mut store, handle) = self.lock.acquire_write();
        store.update(cert);
        handle.release_write(store);
    }

    /// Replace the contents wholesale under the exclusive write lock,
    /// from freshly re-read durable contents.
    pub fn mega_flush(&self, fresh: Vec<Certificate>) {
        let (mut store, handle) = self.lock.acquire_write();
        store.mega_flush(fresh);
        handle.release_write(store);
    }

    /// Remove a certificate under the exclusive write lock.
    pub fn delete_fingerprint(&self, fpr: &String) -> (r: Result<(), InternalErr>) {
        let (mut store, handle) = self.lock.acquire_write();
        let r = store.delete_fingerprint(fpr);
        handle.release_write(store);
        r
    }

    /// Fetch one certificate under a shared read lock.
    pub fn lookup_by_cert_fpr(&self, fpr: &String) -> (r: Result<Certificate, InternalErr>) {
        let handle = self.lock.acquire_read();
        let r = handle.borrow().lookup_by_cert_fpr(fpr);
        handle.release_read();
        r
    }

    /// Build a trust network from a locked snapshot, scoped to the
    /// given roots; the search itself runs lock-free.
    pub fn network(&self, roots: Vec<String>) -> (r: crate::wot::StoreNetwork)
        ensures
            r.wf(),
            r.view_roots() == roots.deep_view(),
    {
        let certs = self.snapshot();
        crate::wot::StoreNetwork { certs, roots }
    }
}

} // verus!
