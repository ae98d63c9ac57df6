use vstd::prelude::*;
use vstd::rwlock::{RwLock, RwLockPredicate};
use crate::errors::StoreError;
use crate::links::{LinkStore, SHORT_CODE_LEN};
use crate::quotes::{Quote, QuoteStore};

verus! {

/// The invariant the quote store's lock maintains: whoever acquires the
/// lock receives a well-formed store and must hand one back.
pub struct QuotesInv {}

impl RwLockPredicate<QuoteStore> for QuotesInv {
    open spec fn inv(self, s: QuoteStore) -> bool {
        s.wf()
    }
}

/// The invariant the link store's lock maintains.
pub struct LinksInv {}

impl RwLockPredicate<LinkStore> for LinksInv {
    open spec fn inv(self, s: LinkStore) -> bool {
        s.wf()
    }
}

/// A quote store behind its own exclusive lock, shared by concurrent
/// request handlers. Every operation acquires the lock, works on the
/// well-formed store it guards, and releases it on every path, so
/// concurrent calls behave as some serial order of the sequential
/// operations of `QuoteStore`.
pub struct SharedQuoteStore {
    lock: RwLock<QuoteStore, QuotesInv>,
}

impl SharedQuoteStore {
    pub fn new() -> SharedQuoteStore {
        SharedQuoteStore { lock: RwLock::new(QuoteStore::new(), Ghost(QuotesInv {})) }
    }

    /// Appends a record built from `text` and `speaker` under a fresh
    /// identifier and returns it.
    pub fn add(&self, text: String, speaker: String) -> (q: Quote)
        ensures
            q.text == text,
            q.speaker == speaker,
    {
        let (mut store, handle) = self.lock.acquire_write();
        let q = store.add(text, speaker);
        handle.release_write(store);
        q
    }

    /// A snapshot of the collection in insertion order. Whatever
    /// interleaving of concurrent calls produced the state, the
    /// snapshot's identifiers are pairwise distinct: the lock admits
    /// only well-formed stores.
    pub fn list(&self) -> (r: Vec<Quote>)
        ensures
            forall|i: int, j: int|
                0 <= i < r@.len() && 0 <= j < r@.len() && i != j ==> r@[i].id@ != r@[j].id@,
    {
        let handle = self.lock.acquire_read();
        let r = handle.borrow().list();
        proof {
            let s = handle.view();
            s.lemma_ids_distinct();
        }
        handle.release_read();
        r
    }

    /// The record carrying `id`, or `NotFound`.
    pub fn get_by_id(&self, id: &str) -> (r: Result<Quote, StoreError>)
        ensures
            match r {
                Ok(q) => q.id@ == id@,
                Err(e) => e == StoreError::NotFound,
            },
    {
        let handle = self.lock.acquire_read();
        let r = handle.borrow().get_by_id(id);
        handle.release_read();
        r
    }

    /// A uniformly random record of the collection, or `EmptyCollection`
    /// when the store held nothing at the pick.
    pub fn get_random(&self) -> (r: Result<Quote, StoreError>)
        ensures
            match r {
                Ok(_) => true,
                Err(e) => e == StoreError::EmptyCollection,
            },
    {
        let handle = self.lock.acquire_read();
        let r = handle.borrow().get_random();
        handle.release_read();
        r
    }
}

/// The link store behind its own exclusive lock, shared the same way.
pub struct SharedLinkStore {
    lock: RwLock<LinkStore, LinksInv>,
}

impl SharedLinkStore {
    pub fn new() -> SharedLinkStore {
        SharedLinkStore { lock: RwLock::new(LinkStore::new(), Ghost(LinksInv {})) }
    }

    /// Binds a freshly generated code to `url` and returns the code
    /// together with the echoed url.
    pub fn shorten(&self, url: String) -> (r: (String, String))
        ensures
            r.0@.len() == SHORT_CODE_LEN as nat,
            r.1 == url,
    {
        let (mut store, handle) = self.lock.acquire_write();
        let r = store.shorten(url);
        handle.release_write(store);
        r
    }

    /// The URL `code` maps to, or `NotFound`.
    pub fn resolve(&self, code: &str) -> (r: Result<String, StoreError>)
        ensures
            match r {
                Ok(_) => true,
                Err(e) => e == StoreError::NotFound,
            },
    {
        let handle = self.lock.acquire_read();
        let r = handle.borrow().resolve(code);
        handle.release_read();
        r
    }

    /// Unbinds `code`; `NotFound` when it was not live.
    pub fn delete(&self, code: &str) -> (r: Result<(), StoreError>)
        ensures
            match r {
                Ok(_) => true,
                Err(e) => e == StoreError::NotFound,
            },
    {
        let (mut store, handle) = self.lock.acquire_write();
        let r = store.delete(code);
        handle.release_write(store);
        r
    }
}

} // verus!
