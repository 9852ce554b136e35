//! The volatile backend: one ordered queue per allow-listed name, held in
//! memory.
//!
//! State is not persisted; a process restart loses all items. The backend
//! is exact: its postconditions state, over a map from queue name to
//! ordered contents, precisely what each operation did, and an operation
//! on an allowed queue with a storable item never fails. The one rejected
//! item is the same one every backend rejects: a secondary timestamp
//! holding the reserved minimum sentinel. Callers that share the backend between
//! workers guard it with a coordination primitive of their own; the
//! backend itself only ever does pure in-memory work.

use vstd::prelude::*;
use crate::config::AppConfig;
use crate::item::{ItemModel, QueueItem, opt_model, valid_item};
use crate::names::{str_eq, has_name, idx_of, lemma_idx_of, lemma_has_name_take, lemma_has_name_push};
use crate::queue::{Queue, peek_spec, put_spec, rest_spec, sorted_strict};
use crate::storage::{Storage, StorageError, StorageResult};
use vstd::string::StringExecFns;

verus! {

/// The in-memory backend: parallel lists of queue names and their queues.
pub struct InMemoryStorage {
    names: Vec<String>,
    stores: Vec<Queue>,
}

/// Finds the entry spelling the name, if any.
fn find_name(names: &Vec<String>, q: &str) -> (r: Option<usize>)
    ensures
        match r {
            Some(i) => i < names@.len() && names@[i as int]@ == q@,
            None => !has_name(names@, q@),
        },
{
    let mut i: usize = 0;
    while i < names.len()
        invariant
            0 <= i <= names@.len(),
            forall|j: int| 0 <= j < i ==> (#[trigger] names@[j])@ != q@,
        decreases names@.len() - i,
    {
        if str_eq(names[i].as_str(), q) {
            return Some(i);
        }
        i += 1;
    }
    None
}

impl InMemoryStorage {
    /// The backend's well-formedness: one queue per name, no name twice,
    /// every queue in ascending key order.
    pub closed spec fn wf(&self) -> bool {
        &&& self.names@.len() == self.stores@.len()
        &&& forall|i: int, j: int|
            0 <= i < j < self.names@.len() ==> (#[trigger] self.names@[i])@ != (
            #[trigger] self.names@[j])@
        &&& forall|i: int| 0 <= i < self.stores@.len() ==> (#[trigger] self.stores@[i]).wf()
    }

    /// The allow-list as a set of names.
    pub closed spec fn names_set(&self) -> Set<Seq<char>> {
        Set::new(|q: Seq<char>| has_name(self.names@, q))
    }

    /// The backend's whole state: each allowed queue name mapped to that
    /// queue's ordered contents.
    pub closed spec fn queues_map(&self) -> Map<Seq<char>, Seq<ItemModel>> {
        Map::new(
            |q: Seq<char>| has_name(self.names@, q),
            |q: Seq<char>| self.stores@[idx_of(self.names@, q)]@,
        )
    }

    /// Builds the backend from the configured allow-list, every queue
    /// empty. A name occurring twice counts once.
    pub fn new(config: &AppConfig) -> (r: InMemoryStorage)
        ensures
            r.wf(),
            forall|q: Seq<char>| r.names_set().contains(q) == has_name(config.queues@, q),
            forall|q: Seq<char>|
                r.names_set().contains(q) ==> r.queues_map()[q] == Seq::<ItemModel>::empty(),
    {
        let mut names: Vec<String> = Vec::new();
        let mut stores: Vec<Queue> = Vec::new();
        let mut k: usize = 0;
        while k < config.queues.len()
            invariant
                names@.len() == stores@.len(),
                0 <= k <= config.queues@.len(),
                forall|i: int, j: int|
                    0 <= i < j < names@.len() ==> (#[trigger] names@[i])@ != (
                    #[trigger] names@[j])@,
                forall|i: int| 0 <= i < stores@.len() ==> (#[trigger] stores@[i]).wf(),
                forall|i: int| 0 <= i < stores@.len() ==> (#[trigger] stores@[i])@ == Seq::<
                    ItemModel,
                >::empty(),
                forall|q: Seq<char>|
                    has_name(names@, q) == has_name(config.queues@.take(k as int), q),
            decreases config.queues@.len() - k,
        {
            let ghost names0 = names@;
            match find_name(&names, config.queues[k].as_str()) {
                Some(_) => {
                    proof {
                        assert(has_name(names0, config.queues@[k as int]@));
                        assert forall|q: Seq<char>|
                            has_name(names@, q) == has_name(
                                config.queues@.take(k as int + 1),
                                q,
                            ) by {
                            lemma_has_name_take(config.queues@, k as int, q);
                        }
                    }
                },
                None => {
                    proof {
                        assert(!has_name(names0, config.queues@[k as int]@));
                    }
                    names.push(config.queues[k].clone());
                    stores.push(Queue::new());
                    proof {
                        assert(names@ =~= names0.push(names@.last()));
                        assert(names@.last()@ == config.queues@[k as int]@);
                        assert forall|i: int, j: int| 0 <= i < j < names@.len() implies (
                        #[trigger] names@[i])@ != (#[trigger] names@[j])@ by {
                            if j == names0.len() {
                                if names@[i]@ == names@[j]@ {
                                    assert(names0[i]@ == config.queues@[k as int]@);
                                    assert(has_name(names0, config.queues@[k as int]@));
                                }
                            }
                        }
                        assert forall|q: Seq<char>|
                            has_name(names@, q) == has_name(
                                config.queues@.take(k as int + 1),
                                q,
                            ) by {
                            lemma_has_name_take(config.queues@, k as int, q);
                            lemma_has_name_push(names0, names@.last(), q);
                        }
                    }
                },
            }
            k += 1;
        }
        let r = InMemoryStorage { names, stores };
        proof {
            assert(config.queues@.take(config.queues@.len() as int) =~= config.queues@);
            assert forall|q: Seq<char>| r.names_set().contains(q) implies r.queues_map()[q]
                == Seq::<ItemModel>::empty() by {
                let i = idx_of(r.names@, q);
                assert(has_name(r.names@, q));
            }
        }
        r
    }
}

/// Under the backend invariant, every allowed queue's contents stand in
/// strictly ascending key order: the first item carries the minimum key
/// and no key occurs twice. Callers may combine this with the operation
/// postconditions to prove minimum-key facts about what a get or delete
/// returns.
pub proof fn lemma_allowed_queue_sorted(s: &InMemoryStorage, q: Seq<char>)
    requires
        s.wf(),
        s.names_set().contains(q),
    ensures
        sorted_strict(s.queues_map()[q]),
{
    let i = idx_of(s.names@, q);
    assert(has_name(s.names@, q));
    assert(0 <= i < s.names@.len() && s.names@[i]@ == q);
    assert(s.stores@[i].wf());
}

impl Storage for InMemoryStorage {
    open spec fn inv(&self) -> bool {
        self.wf()
    }

    open spec fn allowed(&self) -> Set<Seq<char>> {
        self.names_set()
    }

    open spec fn ops_succeed(&self) -> bool {
        true
    }

    open spec fn put_post(
        pre: Self,
        post: Self,
        queue: Seq<char>,
        item: ItemModel,
        r: StorageResult<()>,
    ) -> bool {
        match r {
            Ok(_) => pre.names_set().contains(queue) && valid_item(item) && post.queues_map()
                == pre.queues_map().insert(queue, put_spec(pre.queues_map()[queue], item)),
            Err(e) => (e is QueueNotFound || e is ValidationError) && post.queues_map()
                == pre.queues_map(),
        }
    }

    open spec fn get_post(&self, queue: Seq<char>, r: StorageResult<Option<QueueItem>>) -> bool {
        match r {
            Ok(o) => self.names_set().contains(queue) && opt_model(o) == peek_spec(
                self.queues_map()[queue],
            ),
            Err(e) => e is QueueNotFound,
        }
    }

    open spec fn delete_post(
        pre: Self,
        post: Self,
        queue: Seq<char>,
        r: StorageResult<Option<QueueItem>>,
    ) -> bool {
        match r {
            Ok(o) => pre.names_set().contains(queue) && opt_model(o) == peek_spec(
                pre.queues_map()[queue],
            ) && post.queues_map() == pre.queues_map().insert(
                queue,
                rest_spec(pre.queues_map()[queue]),
            ),
            Err(e) => e is QueueNotFound && post.queues_map() == pre.queues_map(),
        }
    }

    fn put_item(&mut self, queue: &str, item: QueueItem) -> (r: StorageResult<()>) {
        let ghost pre = *self;
        match find_name(&self.names, queue) {
            None => {
                proof {
                    assert(!has_name(self.names@, queue@));
                }
                Err(StorageError::QueueNotFound(String::from_str(queue)))
            },
            Some(i) => {
                proof {
                    lemma_idx_of(self.names@, queue@, i as int);
                }
                if !item.is_storable() {
                    return Err(
                        StorageError::ValidationError(
                            String::from_str(
                                "the secondary timestamp holds the reserved minimum value",
                            ),
                        ),
                    );
                }
                let st = &mut self.stores[i];
                proof {
                    assert(st.wf());
                }
                st.put(item);
                proof {
                    lemma_store_update(pre, *self, i as int, queue@);
                }
                Ok(())
            },
        }
    }

    fn get_item(&self, queue: &str) -> (r: StorageResult<Option<QueueItem>>) {
        match find_name(&self.names, queue) {
            None => {
                proof {
                    assert(!has_name(self.names@, queue@));
                }
                Err(StorageError::QueueNotFound(String::from_str(queue)))
            },
            Some(i) => {
                proof {
                    lemma_idx_of(self.names@, queue@, i as int);
                }
                let r = self.stores[i].get();
                proof {
                    assert(self.queues_map()[queue@] == self.stores@[i as int]@);
                }
                Ok(r)
            },
        }
    }

    fn delete_item(&mut self, queue: &str) -> (r: StorageResult<Option<QueueItem>>) {
        let ghost pre = *self;
        match find_name(&self.names, queue) {
            None => {
                proof {
                    assert(!has_name(self.names@, queue@));
                }
                Err(StorageError::QueueNotFound(String::from_str(queue)))
            },
            Some(i) => {
                proof {
                    lemma_idx_of(self.names@, queue@, i as int);
                }
                let st = &mut self.stores[i];
                let r = st.delete();
                proof {
                    lemma_store_update(pre, *self, i as int, queue@);
                }
                Ok(r)
            },
        }
    }

    fn queue_exists(&self, queue: &str) -> (r: bool) {
        match find_name(&self.names, queue) {
            None => {
                proof {
                    assert(!has_name(self.names@, queue@));
                }
                false
            },
            Some(i) => {
                proof {
                    assert(has_name(self.names@, queue@));
                }
                true
            },
        }
    }
}

/// Replacing one queue in place updates the backend's map at exactly that
/// queue's name and nothing else.
proof fn lemma_store_update(pre: InMemoryStorage, post: InMemoryStorage, i: int, q: Seq<char>)
    requires
        pre.wf(),
        post.names@ == pre.names@,
        pre.stores@.len() == post.stores@.len(),
        0 <= i < pre.names@.len(),
        pre.names@[i]@ == q,
        post.stores@ == pre.stores@.update(i, post.stores@[i]),
        post.stores@[i].wf(),
    ensures
        post.wf(),
        post.names_set() == pre.names_set(),
        pre.queues_map()[q] == pre.stores@[i]@,
        post.queues_map() == pre.queues_map().insert(q, post.stores@[i]@),
{
    assert(post.names_set() =~= pre.names_set());
    assert forall|j: int| 0 <= j < post.stores@.len() implies (#[trigger] post.stores@[j]).wf() by {
        if j != i {
            assert(post.stores@[j] == pre.stores@[j]);
        }
    }
    lemma_idx_of(pre.names@, q, i);
    assert(pre.queues_map()[q] == pre.stores@[i]@);
    assert(post.queues_map() =~= pre.queues_map().insert(q, post.stores@[i]@)) by {
        assert forall|k: Seq<char>| has_name(pre.names@, k) && k != q implies post.queues_map()[k]
            == pre.queues_map()[k] by {
            let j = idx_of(pre.names@, k);
            assert(has_name(pre.names@, k));
            assert(0 <= j < pre.names@.len() && pre.names@[j]@ == k);
            assert(j != i);
            assert(post.stores@[j] == pre.stores@[j]);
        }
        assert(post.queues_map()[q] == post.stores@[i]@) by {
            lemma_idx_of(post.names@, q, i);
        }
    }
}

} // verus!
