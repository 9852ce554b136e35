//! A single ordered queue: the storage and ordering engine for one queue
//! name.
//!
//! Items are held in ascending key order with no two active items sharing a
//! key. `put` inserts or overwrites at the item's key, `get` peeks at the
//! minimum-key item without mutating, and `delete` removes and returns the
//! minimum-key item. The specification-level transition functions
//! [`put_spec`], [`peek_spec`] and [`rest_spec`] say exactly what each
//! operation does to the queue's contents.

use vstd::prelude::*;
use crate::item::{ItemModel, QueueItem, key_lt, key_of, lemma_key_order_total, spec_key, key_before};

verus! {

/// The models of a sequence of stored items.
pub open spec fn models(s: Seq<QueueItem>) -> Seq<ItemModel> {
    s.map_values(|q: QueueItem| q@)
}

/// Strictly ascending key order: every earlier item's key is strictly
/// smaller than every later item's key, so no key occurs twice.
pub open spec fn sorted_strict(s: Seq<ItemModel>) -> bool {
    forall|i: int, j: int|
        0 <= i < j < s.len() ==> #[trigger] key_lt(key_of(s[i]), key_of(s[j]))
}

/// What `put` does to a queue's contents: insert the item at its sorted
/// position, or overwrite the item that already holds its key.
pub open spec fn put_spec(s: Seq<ItemModel>, m: ItemModel) -> Seq<ItemModel>
    decreases s.len(),
{
    if s.len() == 0 {
        seq![m]
    } else if key_lt(key_of(m), key_of(s[0])) {
        seq![m] + s
    } else if key_of(m) == key_of(s[0]) {
        seq![m] + s.drop_first()
    } else {
        seq![s[0]] + put_spec(s.drop_first(), m)
    }
}

/// What `get` returns: the minimum-key item, or `None` on an empty queue.
pub open spec fn peek_spec(s: Seq<ItemModel>) -> Option<ItemModel> {
    if s.len() == 0 {
        None
    } else {
        Some(s[0])
    }
}

/// What `delete` leaves behind: the queue without its minimum-key item,
/// or an empty queue unchanged.
pub open spec fn rest_spec(s: Seq<ItemModel>) -> Seq<ItemModel> {
    if s.len() == 0 {
        s
    } else {
        s.drop_first()
    }
}

/// Whether some item in the queue holds the given key.
pub open spec fn has_key(s: Seq<ItemModel>, k: (int, Option<int>)) -> bool {
    exists|i: int| 0 <= i < s.len() && key_of(#[trigger] s[i]) == k
}

/// A named, ordered collection of items, keyed by `(primary, secondary)`
/// timestamp with an absent secondary sorting first.
pub struct Queue {
    items: Vec<QueueItem>,
}

impl View for Queue {
    type V = Seq<ItemModel>;

    closed spec fn view(&self) -> Seq<ItemModel> {
        models(self.items@)
    }
}

impl Queue {
    /// The queue invariant: items stand in strictly ascending key order.
    pub open spec fn wf(&self) -> bool {
        sorted_strict(self@)
    }

    /// An empty queue.
    pub fn new() -> (r: Queue)
        ensures
            r.wf(),
            r@ == Seq::<ItemModel>::empty(),
    {
        let q = Queue { items: Vec::new() };
        proof {
            assert(q@ =~= Seq::<ItemModel>::empty());
        }
        q
    }

    /// How many items the queue holds.
    pub fn len(&self) -> (r: usize)
        ensures
            r == self@.len(),
    {
        self.items.len()
    }

    /// Inserts the item at its key, or overwrites the payload of the item
    /// already holding that key.
    pub fn put(&mut self, item: QueueItem)
        requires
            old(self).wf(),
        ensures
            final(self).wf(),
            final(self)@ == put_spec(old(self)@, item@),
    {
        let ghost s0 = self@;
        let k = item.key();
        let mut i: usize = 0;
        while i < self.items.len()
            invariant
                self@ == s0,
                self.items@.len() == s0.len(),
                0 <= i <= s0.len(),
                spec_key(k) == key_of(item@),
                forall|j: int| 0 <= j < i ==> key_lt(key_of(#[trigger] s0[j]), key_of(item@)),
            ensures
                self@ == s0,
                self.items@.len() == s0.len(),
                0 <= i <= s0.len(),
                spec_key(k) == key_of(item@),
                forall|j: int| 0 <= j < i ==> key_lt(key_of(#[trigger] s0[j]), key_of(item@)),
                i < s0.len() ==> !key_lt(key_of(s0[i as int]), key_of(item@)),
            decreases self.items.len() - i,
        {
            let cur = self.items[i].key();
            proof {
                assert(spec_key(cur) == key_of(s0[i as int]));
            }
            if !key_before(cur, k) {
                break;
            }
            i += 1;
        }
        proof {
            lemma_put_spec_at(s0, item@, i as int);
        }
        if i < self.items.len() {
            let cur = self.items[i].key();
            let same = cur.0 == k.0 && match (cur.1, k.1) {
                (None, None) => true,
                (Some(x), Some(y)) => x == y,
                _ => false,
            };
            proof {
                assert(spec_key(cur) == key_of(s0[i as int]));
                assert(same == (key_of(s0[i as int]) == key_of(item@)));
            }
            if same {
                self.items.set(i, item);
                proof {
                    assert(self@ =~= s0.update(i as int, item@));
                }
                proof {
                    lemma_put_preserves_sorted(s0, item@);
                }
                return ;
            }
        }
        self.items.insert(i, item);
        proof {
            assert(self@ =~= s0.insert(i as int, item@));
            lemma_put_preserves_sorted(s0, item@);
        }
    }

    /// Peeks at the minimum-key item without mutating the queue. Returns
    /// `None` exactly when the queue is empty.
    pub fn get(&self) -> (r: Option<QueueItem>)
        requires
            self.wf(),
        ensures
            match r {
                None => self@.len() == 0,
                Some(it) => self@.len() > 0 && it@ == self@[0],
            },
            peek_spec(self@) == match r {
                None => None::<ItemModel>,
                Some(it) => Some(it@),
            },
    {
        if self.items.len() == 0 {
            None
        } else {
            let first = &self.items[0];
            let copy = QueueItem {
                datetime: first.datetime,
                datetime_secondary: match first.datetime_secondary {
                    None => None,
                    Some(s) => Some(s),
                },
                message: first.message.clone(),
            };
            proof {
                assert(copy@ =~= self@[0]);
            }
            Some(copy)
        }
    }

    /// Removes and returns the minimum-key item, or returns `None` and
    /// leaves the queue unchanged when it is empty.
    pub fn delete(&mut self) -> (r: Option<QueueItem>)
        requires
            old(self).wf(),
        ensures
            final(self).wf(),
            final(self)@ == rest_spec(old(self)@),
            match r {
                None => old(self)@.len() == 0,
                Some(it) => old(self)@.len() > 0 && it@ == old(self)@[0],
            },
            peek_spec(old(self)@) == match r {
                None => None::<ItemModel>,
                Some(it) => Some(it@),
            },
    {
        let ghost s0 = self@;
        if self.items.len() == 0 {
            None
        } else {
            let it = self.items.remove(0);
            proof {
                assert(self@ =~= s0.drop_first());
            }
            Some(it)
        }
    }
}

/// Locates `put_spec`'s result once the insertion point is known: with
/// every key before position `i` smaller than the new key and the key at
/// `i` (if any) not smaller, `put_spec` either overwrites at `i` or
/// inserts before `i`.
pub proof fn lemma_put_spec_at(s: Seq<ItemModel>, m: ItemModel, i: int)
    requires
        sorted_strict(s),
        0 <= i <= s.len(),
        forall|j: int| 0 <= j < i ==> key_lt(key_of(#[trigger] s[j]), key_of(m)),
        i < s.len() ==> !key_lt(key_of(s[i]), key_of(m)),
    ensures
        i < s.len() && key_of(s[i]) == key_of(m) ==> put_spec(s, m) == s.update(i, m),
        !(i < s.len() && key_of(s[i]) == key_of(m)) ==> put_spec(s, m) == s.insert(i, m),
    decreases s.len(),
{
    if s.len() == 0 {
        assert(put_spec(s, m) =~= s.insert(0, m));
    } else if key_lt(key_of(m), key_of(s[0])) {
        assert(i == 0);
        assert(put_spec(s, m) =~= s.insert(0, m));
    } else if key_of(m) == key_of(s[0]) {
        assert(i == 0) by {
            if i > 0 {
                assert(key_lt(key_of(s[0]), key_of(m)));
            }
        }
        assert(put_spec(s, m) =~= s.update(0, m));
    } else {
        lemma_key_order_total(key_of(m), key_of(s[0]), key_of(m));
        assert(key_lt(key_of(s[0]), key_of(m)));
        assert(i > 0) by {
            if i == 0 {
                assert(!key_lt(key_of(s[0]), key_of(m)));
            }
        }
        let rest = s.drop_first();
        assert(sorted_strict(rest)) by {
            assert(forall|p: int, q: int|
                0 <= p < q < rest.len() ==> #[trigger] key_lt(key_of(rest[p]), key_of(rest[q])))
                by {
                assert(forall|p: int, q: int| 0 <= p < q < rest.len() ==> rest[p] == s[p + 1]
                    && rest[q] == s[q + 1] && key_lt(key_of(s[p + 1]), key_of(s[q + 1])));
            }
        }
        assert(forall|j: int| 0 <= j < i - 1 ==> key_lt(key_of(#[trigger] rest[j]), key_of(m)))
            by {
            assert(forall|j: int| 0 <= j < i - 1 ==> rest[j] == s[j + 1]);
        }
        lemma_put_spec_at(rest, m, i - 1);
        if i - 1 < rest.len() && key_of(rest[i - 1]) == key_of(m) {
            assert(put_spec(s, m) =~= s.update(i, m));
        } else {
            assert(put_spec(s, m) =~= s.insert(i, m));
        }
    }
}

/// Membership after a put: the queue holds the new item, and otherwise
/// exactly the old items whose key differs from the new item's key.
pub proof fn lemma_put_membership(s: Seq<ItemModel>, m: ItemModel)
    requires
        sorted_strict(s),
    ensures
        forall|i: int|
            0 <= i < put_spec(s, m).len() ==> (#[trigger] put_spec(s, m)[i] == m || (s.contains(
                put_spec(s, m)[i],
            ) && key_of(put_spec(s, m)[i]) != key_of(m))),
        forall|x: ItemModel|
            #[trigger] put_spec(s, m).contains(x) <==> (x == m || (s.contains(x) && key_of(x)
                != key_of(m))),
    decreases s.len(),
{
    let t = put_spec(s, m);
    if s.len() == 0 {
        assert(t =~= seq![m]);
        assert forall|i: int| 0 <= i < t.len() implies (#[trigger] t[i] == m || (s.contains(t[i])
            && key_of(t[i]) != key_of(m))) by {
            assert(i == 0);
        }
        assert forall|x: ItemModel| (x == m || (s.contains(x) && key_of(x) != key_of(m)))
            implies #[trigger] t.contains(x) by {
            assert(x == m);
            assert(t[0] == x);
        }
    } else if key_lt(key_of(m), key_of(s[0])) {
        assert(t =~= seq![m] + s);
        assert forall|i: int| 0 <= i < t.len() implies (#[trigger] t[i] == m || (s.contains(t[i])
            && key_of(t[i]) != key_of(m))) by {
            if i > 0 {
                assert(t[i] == s[i - 1]);
                assert(s.contains(t[i])) by {
                    assert(s[i - 1] == t[i]);
                }
                if i - 1 > 0 {
                    assert(key_lt(key_of(s[0]), key_of(s[i - 1])));
                }
                lemma_key_order_total(key_of(m), key_of(s[0]), key_of(s[i - 1]));
                lemma_key_lt_ne(key_of(m), key_of(s[i - 1]));
            }
        }
        assert forall|x: ItemModel| (x == m || (s.contains(x) && key_of(x) != key_of(m)))
            implies #[trigger] t.contains(x) by {
            if x == m {
                assert(t[0] == x);
            } else {
                let i = choose|i: int| 0 <= i < s.len() && s[i] == x;
                assert(t[i + 1] == x);
            }
        }
    } else if key_of(m) == key_of(s[0]) {
        assert(t =~= seq![m] + s.drop_first());
        assert forall|i: int| 0 <= i < t.len() implies (#[trigger] t[i] == m || (s.contains(t[i])
            && key_of(t[i]) != key_of(m))) by {
            if i > 0 {
                assert(t[i] == s[i]);
                assert(s.contains(t[i])) by {
                    assert(s[i] == t[i]);
                }
                assert(key_lt(key_of(s[0]), key_of(s[i])));
                lemma_key_lt_ne(key_of(s[0]), key_of(s[i]));
            }
        }
        assert forall|x: ItemModel| (x == m || (s.contains(x) && key_of(x) != key_of(m)))
            implies #[trigger] t.contains(x) by {
            if x == m {
                assert(t[0] == x);
            } else {
                let i = choose|i: int| 0 <= i < s.len() && s[i] == x;
                assert(i != 0);
                assert(t[i] == s[i]);
                assert(t[i] == x);
            }
        }
    } else {
        lemma_key_order_total(key_of(m), key_of(s[0]), key_of(m));
        assert(key_lt(key_of(s[0]), key_of(m)));
        let rest = s.drop_first();
        lemma_sorted_drop_first(s);
        lemma_put_membership(rest, m);
        let tr = put_spec(rest, m);
        assert(t =~= seq![s[0]] + tr);
        assert forall|i: int| 0 <= i < t.len() implies (#[trigger] t[i] == m || (s.contains(t[i])
            && key_of(t[i]) != key_of(m))) by {
            if i == 0 {
                assert(t[0] == s[0]);
                assert(s.contains(t[0])) by {
                    assert(s[0] == t[0]);
                }
                lemma_key_lt_ne(key_of(s[0]), key_of(m));
            } else {
                assert(t[i] == tr[i - 1]);
                if t[i] != m {
                    assert(rest.contains(tr[i - 1]) && key_of(tr[i - 1]) != key_of(m));
                    let j = choose|j: int| 0 <= j < rest.len() && rest[j] == t[i];
                    assert(s[j + 1] == t[i]);
                    assert(s.contains(t[i])) by {
                        assert(s[j + 1] == t[i]);
                    }
                }
            }
        }
        assert forall|x: ItemModel| (x == m || (s.contains(x) && key_of(x) != key_of(m)))
            implies #[trigger] t.contains(x) by {
            if x == m {
                assert(tr.contains(m));
                let j = choose|j: int| 0 <= j < tr.len() && tr[j] == x;
                assert(t[j + 1] == x);
            } else {
                let i = choose|i: int| 0 <= i < s.len() && s[i] == x;
                if i == 0 {
                    assert(t[0] == x);
                } else {
                    assert(rest[i - 1] == x);
                    assert(rest.contains(x)) by {
                        assert(rest[i - 1] == x);
                    }
                    assert(tr.contains(x));
                    let j = choose|j: int| 0 <= j < tr.len() && tr[j] == x;
                    assert(t[j + 1] == x);
                }
            }
        }
    }
    assert forall|x: ItemModel| #[trigger] t.contains(x) implies (x == m || (s.contains(x)
        && key_of(x) != key_of(m))) by {
        let i = choose|i: int| 0 <= i < t.len() && t[i] == x;
        assert(t[i] == m || (s.contains(t[i]) && key_of(t[i]) != key_of(m)));
    }
}

/// Two keys related by the strict order are distinct.
pub proof fn lemma_key_lt_ne(a: (int, Option<int>), b: (int, Option<int>))
    requires
        key_lt(a, b),
    ensures
        a != b,
{
}


/// In a sorted queue the first item's key is at or below every key.
pub proof fn lemma_min_key(s: Seq<ItemModel>, i: int)
    requires
        sorted_strict(s),
        0 <= i < s.len(),
    ensures
        i > 0 ==> key_lt(key_of(s[0]), key_of(s[i])),
{
}

/// Dropping the first item of a sorted queue leaves a sorted queue.
pub proof fn lemma_sorted_drop_first(s: Seq<ItemModel>)
    requires
        sorted_strict(s),
        s.len() > 0,
    ensures
        sorted_strict(s.drop_first()),
{
    let rest = s.drop_first();
    assert forall|p: int, q: int| 0 <= p < q < rest.len() implies #[trigger] key_lt(
        key_of(rest[p]),
        key_of(rest[q]),
    ) by {
        assert(rest[p] == s[p + 1]);
        assert(rest[q] == s[q + 1]);
        assert(key_lt(key_of(s[p + 1]), key_of(s[q + 1])));
    }
}

/// A put keeps the queue sorted (and therefore keeps keys unique).
pub proof fn lemma_put_preserves_sorted(s: Seq<ItemModel>, m: ItemModel)
    requires
        sorted_strict(s),
    ensures
        sorted_strict(put_spec(s, m)),
    decreases s.len(),
{
    let t = put_spec(s, m);
    if s.len() == 0 {
    } else if key_lt(key_of(m), key_of(s[0])) {
        assert forall|i: int, j: int| 0 <= i < j < t.len() implies #[trigger] key_lt(
            key_of(t[i]),
            key_of(t[j]),
        ) by {
            if i == 0 {
                assert(t[j] == s[j - 1]);
                if j - 1 > 0 {
                    lemma_min_key(s, j - 1);
                    lemma_key_order_total(key_of(m), key_of(s[0]), key_of(s[j - 1]));
                }
            } else {
                assert(t[i] == s[i - 1]);
                assert(t[j] == s[j - 1]);
            }
        }
    } else if key_of(m) == key_of(s[0]) {
        assert forall|i: int, j: int| 0 <= i < j < t.len() implies #[trigger] key_lt(
            key_of(t[i]),
            key_of(t[j]),
        ) by {
            if i == 0 {
                assert(t[j] == s[j]);
                lemma_min_key(s, j);
            } else {
                assert(t[i] == s[i]);
                assert(t[j] == s[j]);
            }
        }
    } else {
        let rest = s.drop_first();
        lemma_sorted_drop_first(s);
        lemma_put_preserves_sorted(rest, m);
        lemma_put_membership(rest, m);
        let tr = put_spec(rest, m);
        lemma_key_order_total(key_of(m), key_of(s[0]), key_of(m));
        assert(key_lt(key_of(s[0]), key_of(m)));
        assert forall|i: int, j: int| 0 <= i < j < t.len() implies #[trigger] key_lt(
            key_of(t[i]),
            key_of(t[j]),
        ) by {
            if i == 0 {
                assert(t[j] == tr[j - 1]);
                assert(tr[j - 1] == m || (rest.contains(tr[j - 1]) && key_of(tr[j - 1])
                    != key_of(m)));
                if tr[j - 1] == m {
                } else {
                    assert(rest.contains(tr[j - 1]));
                    let p = choose|p: int| 0 <= p < rest.len() && rest[p] == tr[j - 1];
                    assert(rest[p] == s[p + 1]);
                    lemma_min_key(s, p + 1);
                }
            } else {
                assert(t[i] == tr[i - 1]);
                assert(t[j] == tr[j - 1]);
            }
        }
    }
}

/// The number of items after a put: unchanged when the key was already
/// present, one more when it was not.
pub proof fn lemma_put_len(s: Seq<ItemModel>, m: ItemModel)
    requires
        sorted_strict(s),
    ensures
        put_spec(s, m).len() == if has_key(s, key_of(m)) {
            s.len() as int
        } else {
            s.len() + 1 as int
        },
    decreases s.len(),
{
    if s.len() == 0 {
        assert(!has_key(s, key_of(m)));
    } else if key_lt(key_of(m), key_of(s[0])) {
        assert(!has_key(s, key_of(m))) by {
            if has_key(s, key_of(m)) {
                let i = choose|i: int| 0 <= i < s.len() && key_of(#[trigger] s[i]) == key_of(m);
                assert(false) by {
                    lemma_key_order_total(key_of(m), key_of(s[0]), key_of(s[i]));
                    if i > 0 {
                        assert(key_lt(key_of(s[0]), key_of(s[i])));
                    }
                }
            }
        }
    } else if key_of(m) == key_of(s[0]) {
        assert(has_key(s, key_of(m))) by {
            assert(key_of(s[0]) == key_of(m));
        }
    } else {
        let rest = s.drop_first();
        lemma_sorted_drop_first(s);
        lemma_put_len(rest, m);
        assert(has_key(s, key_of(m)) == has_key(rest, key_of(m))) by {
            if has_key(s, key_of(m)) {
                let i = choose|i: int| 0 <= i < s.len() && key_of(#[trigger] s[i]) == key_of(m);
                assert(i != 0);
                assert(key_of(rest[i - 1]) == key_of(m));
            }
            if has_key(rest, key_of(m)) {
                let i = choose|i: int| 0 <= i < rest.len() && key_of(#[trigger] rest[i])
                    == key_of(m);
                assert(key_of(s[i + 1]) == key_of(m));
            }
        }
    }
}

/// For any two items with distinct keys put into an empty queue, a get
/// returns the one with the smaller key, where an absent secondary
/// timestamp sorts before any present value.
pub proof fn law_get_smallest_of_two(a: ItemModel, b: ItemModel)
    requires
        key_of(a) != key_of(b),
    ensures
        peek_spec(put_spec(put_spec(Seq::<ItemModel>::empty(), a), b)) == Some(
            if key_lt(key_of(a), key_of(b)) {
                a
            } else {
                b
            },
        ),
{
    let one = put_spec(Seq::<ItemModel>::empty(), a);
    assert(one =~= seq![a]);
    lemma_key_order_total(key_of(a), key_of(b), key_of(a));
    if key_lt(key_of(b), key_of(a)) {
        assert(put_spec(one, b) =~= seq![b, a]);
    } else {
        assert(key_lt(key_of(a), key_of(b)));
        assert(one.drop_first() =~= Seq::<ItemModel>::empty());
        assert(put_spec(one, b) =~= seq![a] + put_spec(Seq::<ItemModel>::empty(), b));
        assert(put_spec(one, b)[0] == a);
    }
}

/// A put on an existing key overwrites the payload: putting two items with
/// the same key one after the other leaves exactly the state of putting
/// the second alone, the queue then holds the second item's payload as the
/// only item at that key, and the queue does not grow.
pub proof fn law_put_overwrites(s: Seq<ItemModel>, first: ItemModel, second: ItemModel)
    requires
        sorted_strict(s),
        key_of(first) == key_of(second),
    ensures
        put_spec(put_spec(s, first), second) == put_spec(s, second),
        put_spec(s, second).contains(second),
        forall|x: ItemModel|
            put_spec(s, second).contains(x) && key_of(x) == key_of(second) ==> x == second,
        put_spec(put_spec(s, first), second).len() == put_spec(s, first).len(),
    decreases s.len(),
{
    lemma_put_membership(s, second);
    lemma_put_preserves_sorted(s, first);
    assert forall|x: ItemModel|
        put_spec(s, second).contains(x) && key_of(x) == key_of(second) implies x == second by {
    }
    lemma_put_membership(s, first);
    lemma_put_len(put_spec(s, first), second);
    assert(has_key(put_spec(s, first), key_of(second))) by {
        let t = put_spec(s, first);
        assert(t.contains(first));
        let i = choose|i: int| 0 <= i < t.len() && t[i] == first;
        assert(key_of(t[i]) == key_of(second));
    }
    if s.len() == 0 {
        assert(put_spec(put_spec(s, first), second) =~= put_spec(s, second));
    } else if key_lt(key_of(first), key_of(s[0]))
        || key_of(first) == key_of(s[0]) {
        assert(put_spec(put_spec(s, first), second) =~= put_spec(s, second));
    } else {
        lemma_sorted_drop_first(s);
        law_put_overwrites(s.drop_first(), first, second);
        assert(put_spec(s, first).drop_first() =~= put_spec(s.drop_first(), first));
        assert(put_spec(put_spec(s, first), second) =~= put_spec(s, second));
    }
}

/// A delete on an empty queue returns empty and leaves the queue empty,
/// and stays so under any number of repetitions: it never errs and never
/// fabricates an item.
pub proof fn law_delete_empty(n: nat)
    ensures
        peek_spec(Seq::<ItemModel>::empty()) is None,
        rest_spec(Seq::<ItemModel>::empty()) == Seq::<ItemModel>::empty(),
        after_deletes(Seq::<ItemModel>::empty(), n) == Seq::<ItemModel>::empty(),
    decreases n,
{
    if n > 0 {
        law_delete_empty((n - 1) as nat);
    }
}

/// The queue left after `n` deletes in a row.
pub open spec fn after_deletes(s: Seq<ItemModel>, n: nat) -> Seq<ItemModel>
    decreases n,
{
    if n == 0 {
        s
    } else {
        rest_spec(after_deletes(s, (n - 1) as nat))
    }
}

/// Depositing items and then issuing `n` deletes yields exactly
/// `min(n, len)` results: the `i`-th delete returns the `i`-th smallest
/// item, the results are pairwise distinct and ascending, they cover the
/// whole queue when `n` reaches its length, and the rest stays behind in
/// order.
pub proof fn law_deletes_distinct(s: Seq<ItemModel>, n: nat)
    requires
        sorted_strict(s),
    ensures
        after_deletes(s, n) == s.skip(vstd::math::min(n as int, s.len() as int)),
        forall|i: nat|
            i < vstd::math::min(n as int, s.len() as int) ==> peek_spec(
                #[trigger] after_deletes(s, i),
            ) == Some(s[i as int]),
        forall|i: int, j: int|
            0 <= i < j < vstd::math::min(n as int, s.len() as int) ==> #[trigger] key_lt(
                key_of(s[i]),
                key_of(s[j]),
            ),
        n >= s.len() ==> s.take(vstd::math::min(n as int, s.len() as int)) == s,
    decreases n,
{
    if n == 0 {
        assert(after_deletes(s, 0) =~= s.skip(0));
    } else {
        law_deletes_distinct(s, (n - 1) as nat);
        let m = vstd::math::min(n as int, s.len() as int);
        let prev = after_deletes(s, (n - 1) as nat);
        assert(prev =~= s.skip(vstd::math::min(n - 1, s.len() as int)));
        assert(after_deletes(s, n) == rest_spec(prev));
        assert(after_deletes(s, n) =~= s.skip(m));
        assert forall|i: nat| i < m implies peek_spec(#[trigger] after_deletes(s, i)) == Some(
            s[i as int],
        ) by {
            if i < vstd::math::min(n - 1, s.len() as int) {
            } else {
                assert(i == n - 1 && i < s.len());
                assert(after_deletes(s, i) =~= s.skip(i as int));
                assert(s.skip(i as int)[0] == s[i as int]);
            }
        }
        if n >= s.len() {
            assert(s.take(vstd::math::min(n as int, s.len() as int)) =~= s);
        }
    }
}

} // verus!
