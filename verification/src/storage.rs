//! The storage capability interface and the error taxonomy.
//!
//! Every backend serves the same four operations — `put_item`, `get_item`,
//! `delete_item`, `queue_exists` — against a fixed allow-list of queue
//! names chosen at startup. The trait states what every backend promises:
//! the allow-list never changes, a name outside it is answered with
//! `QueueNotFound` and nothing else is, and each backend says through its
//! own postcondition functions what an operation did to its state.

use vstd::prelude::*;
use vstd::string::StringExecFns;
use crate::item::{ItemModel, QueueItem, valid_item};

verus! {

/// What can go wrong in a backend.
#[derive(Debug)]
pub enum StorageError {
    /// The storage engine failed; carries the engine's own error.
    Database(rusqlite::Error),
    /// The queue name is not in the allow-list; carries the name.
    QueueNotFound(String),
    /// The item is rejected: a client error, carrying the reason.
    ValidationError(String),
    /// The coordination primitive could not be acquired.
    LockError,
    /// A pooled connection could not be had; carries the pool's words.
    PoolError(String),
}

/// The outcome of a storage operation.
pub type StorageResult<T> = Result<T, StorageError>;

impl StorageError {
    /// A short description of the error, as the request layer logs and
    /// returns it.
    pub fn message(&self) -> (r: String)
        ensures
            self is Database ==> exists|detail: Seq<char>| r@ == "Database error: "@ + detail,
            self matches StorageError::QueueNotFound(n) ==> r@ == "Queue not found: "@ + n@,
            self matches StorageError::ValidationError(v) ==> r@ == "Validation error: "@ + v@,
            self is LockError ==> r@ == "Lock error"@,
            self matches StorageError::PoolError(p) ==> r@ == "Pool error: "@ + p@,
    {
        match self {
            StorageError::Database(e) => {
                let mut s = String::from_str("Database error: ");
                let text = crate::sqlite::rusqlite_error_text(e);
                s.append(text.as_str());
                proof {
                    assert(s@ == "Database error: "@ + text@);
                }
                s
            },
            StorageError::QueueNotFound(n) => {
                let mut s = String::from_str("Queue not found: ");
                s.append(n.as_str());
                s
            },
            StorageError::ValidationError(v) => {
                let mut s = String::from_str("Validation error: ");
                s.append(v.as_str());
                s
            },
            StorageError::LockError => String::from_str("Lock error"),
            StorageError::PoolError(p) => {
                let mut s = String::from_str("Pool error: ");
                s.append(p.as_str());
                s
            },
        }
    }
}

/// The four-operation storage capability every backend implements.
pub trait Storage: Sized {
    /// The backend's internal well-formedness, established at construction
    /// and preserved by every operation.
    spec fn inv(&self) -> bool;

    /// The fixed allow-list: the queue names this backend serves.
    spec fn allowed(&self) -> Set<Seq<char>>;

    /// Whether an operation on an allowed queue is guaranteed to succeed
    /// (a purely in-memory backend), or may still fail in the engine
    /// (a durable backend).
    spec fn ops_succeed(&self) -> bool;

    /// What a put did: how the state after relates to the state before
    /// and to the item, for the given outcome.
    spec fn put_post(pre: Self, post: Self, queue: Seq<char>, item: ItemModel, r: StorageResult<
        (),
    >) -> bool;

    /// What a get returned for the given queue.
    spec fn get_post(&self, queue: Seq<char>, r: StorageResult<Option<QueueItem>>) -> bool;

    /// What a delete did and returned.
    spec fn delete_post(pre: Self, post: Self, queue: Seq<char>, r: StorageResult<
        Option<QueueItem>,
    >) -> bool;

    /// Inserts or overwrites the item at its key in the named queue. An
    /// item whose secondary timestamp is the reserved minimum sentinel is
    /// rejected with `ValidationError` by every backend alike, so the
    /// sentinel stands for nothing but an absent secondary in storage.
    fn put_item(&mut self, queue: &str, item: QueueItem) -> (r: StorageResult<()>)
        requires
            old(self).inv(),
        ensures
            final(self).inv(),
            final(self).allowed() == old(self).allowed(),
            (r matches Err(StorageError::QueueNotFound(_))) <==> !old(self).allowed().contains(
                queue@,
            ),
            r matches Err(StorageError::QueueNotFound(n)) ==> n@ == queue@,
            (r matches Err(StorageError::ValidationError(_))) <==> (old(self).allowed().contains(
                queue@,
            ) && !valid_item(item@)),
            old(self).allowed().contains(queue@) && valid_item(item@) && old(self).ops_succeed()
                ==> r is Ok,
            Self::put_post(*old(self), *final(self), queue@, item@, r),
    ;

    /// Returns the minimum-key item of the named queue without mutating
    /// anything, or `None` when the queue is empty.
    fn get_item(&self, queue: &str) -> (r: StorageResult<Option<QueueItem>>)
        requires
            self.inv(),
        ensures
            (r matches Err(StorageError::QueueNotFound(_))) <==> !self.allowed().contains(queue@),
            r matches Err(StorageError::QueueNotFound(n)) ==> n@ == queue@,
            self.allowed().contains(queue@) && self.ops_succeed() ==> r is Ok,
            self.get_post(queue@, r),
    ;

    /// Removes and returns the minimum-key item of the named queue, or
    /// returns `None` and changes nothing when the queue is empty.
    fn delete_item(&mut self, queue: &str) -> (r: StorageResult<Option<QueueItem>>)
        requires
            old(self).inv(),
        ensures
            final(self).inv(),
            final(self).allowed() == old(self).allowed(),
            (r matches Err(StorageError::QueueNotFound(_))) <==> !old(self).allowed().contains(
                queue@,
            ),
            r matches Err(StorageError::QueueNotFound(n)) ==> n@ == queue@,
            old(self).allowed().contains(queue@) && old(self).ops_succeed() ==> r is Ok,
            Self::delete_post(*old(self), *final(self), queue@, r),
    ;

    /// Pure allow-list membership test; never fails.
    fn queue_exists(&self, queue: &str) -> (r: bool)
        requires
            self.inv(),
        ensures
            r == self.allowed().contains(queue@),
    ;
}

} // verus!
