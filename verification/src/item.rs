//! The queue item and its two-part ordering key.
//!
//! An item carries a required primary timestamp and an optional secondary
//! timestamp, both in milliseconds, plus a payload message. The pair
//! `(primary, secondary)` is the item's key; keys order ascending by the
//! primary timestamp, ties broken by the secondary, and an absent secondary
//! sorts strictly before any present value.

use vstd::prelude::*;

verus! {

/// The mathematical model of a queue item: the two-part key as integers
/// and the message as a sequence of characters.
#[verifier::ext_equal]
pub struct ItemModel {
    pub datetime: int,
    pub datetime_secondary: Option<int>,
    pub message: Seq<char>,
}

/// An item stored in a queue: a primary timestamp (milliseconds), an
/// optional secondary timestamp used as a tie-breaker, and the message.
#[derive(Debug, Clone)]
pub struct QueueItem {
    pub datetime: i64,
    pub datetime_secondary: Option<i64>,
    pub message: String,
}

impl View for QueueItem {
    type V = ItemModel;

    open spec fn view(&self) -> ItemModel {
        ItemModel {
            datetime: self.datetime as int,
            datetime_secondary: match self.datetime_secondary {
                None => None,
                Some(s) => Some(s as int),
            },
            message: self.message@,
        }
    }
}

/// A storable item: the minimum value is reserved to stand for an absent
/// secondary timestamp in durable storage, so no item may carry it as a
/// real secondary timestamp. Every backend rejects such an item alike.
pub open spec fn valid_item(m: ItemModel) -> bool {
    m.datetime_secondary != Some(i64::MIN as int)
}

impl QueueItem {
    /// Whether the item can be stored: its secondary timestamp, if any,
    /// is not the reserved minimum value.
    pub fn is_storable(&self) -> (r: bool)
        ensures
            r == valid_item(self@),
    {
        match self.datetime_secondary {
            None => true,
            Some(s) => s != i64::MIN,
        }
    }
}

/// The models of an optional item.
pub open spec fn opt_model(o: Option<QueueItem>) -> Option<ItemModel> {
    match o {
        None => None,
        Some(it) => Some(it@),
    }
}

/// The ordering key of a model: the primary timestamp and the optional
/// secondary timestamp.
pub open spec fn key_of(m: ItemModel) -> (int, Option<int>) {
    (m.datetime, m.datetime_secondary)
}

/// Strict order on secondary timestamps: an absent value sorts before any
/// present value; two present values order as integers.
pub open spec fn sec_lt(a: Option<int>, b: Option<int>) -> bool {
    match (a, b) {
        (None, None) => false,
        (None, Some(_)) => true,
        (Some(_), None) => false,
        (Some(x), Some(y)) => x < y,
    }
}

/// Strict total order on keys: ascending by primary timestamp, ties broken
/// by the secondary timestamp with absent sorting first.
pub open spec fn key_lt(a: (int, Option<int>), b: (int, Option<int>)) -> bool {
    a.0 < b.0 || (a.0 == b.0 && sec_lt(a.1, b.1))
}

/// Key equality written out over the two components.
pub open spec fn key_eq(a: (int, Option<int>), b: (int, Option<int>)) -> bool {
    a.0 == b.0 && a.1 == b.1
}

/// The key order is a strict total order: irreflexive, transitive, and any
/// two distinct keys are ordered one way or the other.
pub proof fn lemma_key_order_total(a: (int, Option<int>), b: (int, Option<int>), c: (int, Option<int>))
    ensures
        !key_lt(a, a),
        key_lt(a, b) && key_lt(b, c) ==> key_lt(a, c),
        key_eq(a, b) || key_lt(a, b) || key_lt(b, a),
        key_lt(a, b) ==> !key_lt(b, a),
{
}

/// Exec comparison of two keys, equivalent to the specification order.
pub fn key_before(a: (i64, Option<i64>), b: (i64, Option<i64>)) -> (r: bool)
    ensures
        r == key_lt(spec_key(a), spec_key(b)),
{
    if a.0 < b.0 {
        true
    } else if a.0 > b.0 {
        false
    } else {
        match (a.1, b.1) {
            (None, Some(_)) => true,
            (Some(x), Some(y)) => x < y,
            _ => false,
        }
    }
}

/// The model key of an exec-level key pair.
pub open spec fn spec_key(k: (i64, Option<i64>)) -> (int, Option<int>) {
    (
        k.0 as int,
        match k.1 {
            None => None,
            Some(s) => Some(s as int),
        },
    )
}

impl QueueItem {
    /// The item's exec-level ordering key.
    pub fn key(&self) -> (r: (i64, Option<i64>))
        ensures
            spec_key(r) == key_of(self@),
    {
        (self.datetime, self.datetime_secondary)
    }
}

} // verus!
