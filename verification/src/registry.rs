//! The observer registry: for each watched entity and event type, the
//! observers currently registered for it, in registration order.
//!
//! The registry is an index. It answers lookups in time proportional to the
//! number of matches and says nothing about whether a listed observer still
//! exists: that is for the entity store to say.

use crate::ids::{position_of, EntityId, EventType, ObserverId, ObserverKey};
use std::collections::HashMap;
use vstd::prelude::*;

verus! {

broadcast use vstd::std_specs::hash::group_hash_axioms;

/// What is left of `ids`, in order, when the members of `gone` are taken
/// out.
pub open spec fn kept(ids: Seq<ObserverId>, gone: Set<ObserverId>) -> Seq<ObserverId>
    decreases ids.len(),
{
    if ids.len() == 0 {
        ids
    } else if gone.contains(ids.last()) {
        kept(ids.drop_last(), gone)
    } else {
        kept(ids.drop_last(), gone).push(ids.last())
    }
}

/// What is kept are the members of the list that are not gone, and what is
/// kept of a list without duplicates has none.
pub proof fn lemma_kept_members(ids: Seq<ObserverId>, gone: Set<ObserverId>)
    ensures
        forall|id: ObserverId| #[trigger]
            kept(ids, gone).contains(id) <==> ids.contains(id) && !gone.contains(id),
        ids.no_duplicates() ==> kept(ids, gone).no_duplicates(),
    decreases ids.len(),
{
    if ids.len() > 0 {
        let shorter = ids.drop_last();
        let last = ids.last();
        lemma_kept_members(shorter, gone);
        let left = kept(shorter, gone);
        let whole = kept(ids, gone);
        assert(whole == if gone.contains(last) {
            left
        } else {
            left.push(last)
        });
        assert forall|id: ObserverId| #[trigger] whole.contains(id) <==> ids.contains(id)
            && !gone.contains(id) by {
            if whole.contains(id) {
                let i = choose|i: int| 0 <= i < whole.len() && whole[i] == id;
                if i < left.len() {
                    assert(left[i] == id);
                    assert(left.contains(id));
                    assert(shorter.contains(id) && !gone.contains(id));
                    let j = choose|j: int| 0 <= j < shorter.len() && shorter[j] == id;
                    assert(ids[j] == id);
                } else {
                    assert(!gone.contains(last));
                    assert(id == last);
                    assert(ids[ids.len() - 1] == id);
                }
            }
            if ids.contains(id) && !gone.contains(id) {
                let j = choose|j: int| 0 <= j < ids.len() && ids[j] == id;
                if j < shorter.len() {
                    assert(shorter[j] == id);
                    assert(shorter.contains(id));
                    assert(left.contains(id));
                    let i = choose|i: int| 0 <= i < left.len() && left[i] == id;
                    assert(whole[i] == id);
                } else {
                    assert(id == last);
                    assert(whole[left.len() as int] == id);
                }
            }
        }
        if ids.no_duplicates() {
            assert(shorter.no_duplicates());
            if !gone.contains(last) {
                assert(!left.contains(last)) by {
                    if left.contains(last) {
                        assert(shorter.contains(last));
                        let j = choose|j: int| 0 <= j < shorter.len() && shorter[j] == last;
                        assert(ids[j] == ids[ids.len() - 1]);
                    }
                }
                assert forall|i: int, j: int|
                    0 <= i < left.len() + 1 && 0 <= j < left.len() + 1 && i != j implies left.push(
                    last,
                )[i] != left.push(last)[j] by {
                    if i < left.len() {
                        assert(left.contains(left[i]));
                    }
                    if j < left.len() {
                        assert(left.contains(left[j]));
                    }
                }
            }
        }
    } else {
        assert forall|id: ObserverId| !ids.contains(id) by {}
    }
}

/// A list of which nothing is gone is kept whole.
pub proof fn lemma_kept_all(ids: Seq<ObserverId>, gone: Set<ObserverId>)
    requires
        forall|i: int| 0 <= i < ids.len() ==> !gone.contains(ids[i]),
    ensures
        kept(ids, gone) == ids,
    decreases ids.len(),
{
    if ids.len() > 0 {
        let shorter = ids.drop_last();
        assert forall|i: int| 0 <= i < shorter.len() implies !gone.contains(shorter[i]) by {
            assert(shorter[i] == ids[i]);
        }
        lemma_kept_all(shorter, gone);
        assert(shorter.push(ids.last()) =~= ids);
    }
}

/// Taking out one set and then another is taking out both at once.
pub proof fn lemma_kept_twice(ids: Seq<ObserverId>, first: Set<ObserverId>, second: Set<ObserverId>)
    ensures
        kept(kept(ids, first), second) == kept(ids, first.union(second)),
    decreases ids.len(),
{
    if ids.len() > 0 {
        let shorter = ids.drop_last();
        let last = ids.last();
        lemma_kept_twice(shorter, first, second);
        if !first.contains(last) {
            let left = kept(shorter, first);
            assert(left.push(last).drop_last() =~= left);
            assert(left.push(last).last() == last);
        }
    }
}

/// From a list without duplicates, taking out the set that holds one member
/// alone removes that member from its place.
pub proof fn lemma_kept_one(ids: Seq<ObserverId>, id: ObserverId, at: int)
    requires
        ids.no_duplicates(),
        0 <= at < ids.len(),
        ids[at] == id,
    ensures
        kept(ids, set![id]) == ids.remove(at),
    decreases ids.len(),
{
    let gone = set![id];
    let shorter = ids.drop_last();
    if at == ids.len() - 1 {
        assert forall|i: int| 0 <= i < shorter.len() implies !gone.contains(shorter[i]) by {
            assert(shorter[i] == ids[i]);
        }
        lemma_kept_all(shorter, gone);
        assert(ids.remove(at) =~= shorter);
    } else {
        assert(ids[ids.len() - 1] != ids[at]);
        assert(shorter.no_duplicates());
        assert(shorter[at] == id);
        lemma_kept_one(shorter, id, at);
        assert(shorter.remove(at).push(ids.last()) =~= ids.remove(at));
    }
}

/// The registry as a mathematical value.
pub struct RegistryView {
    /// The non-empty buckets: for each key the observers registered under
    /// it, oldest first.
    pub buckets: Map<ObserverKey, Seq<ObserverId>>,
    /// For each registered observer, the key it is registered under.
    pub keys: Map<ObserverId, ObserverKey>,
}

impl RegistryView {
    /// The registry that lists nothing.
    pub open spec fn empty() -> RegistryView {
        RegistryView { buckets: Map::empty(), keys: Map::empty() }
    }

    /// The observers registered under `key`, oldest first.
    pub open spec fn bucket(self, key: ObserverKey) -> Seq<ObserverId> {
        if self.buckets.contains_key(key) {
            self.buckets[key]
        } else {
            Seq::empty()
        }
    }

    /// Buckets and keys describe the same registrations; no bucket is empty
    /// or lists an observer twice, and no key carries the null event type.
    pub open spec fn wf(self) -> bool {
        &&& forall|key: ObserverKey| #[trigger]
            self.buckets.contains_key(key) ==> {
                &&& key.event_type.valid()
                &&& self.buckets[key].len() > 0
                &&& self.buckets[key].no_duplicates()
            }
        &&& forall|key: ObserverKey, i: int|
            self.buckets.contains_key(key) && 0 <= i < self.buckets[key].len() ==> {
                &&& self.keys.contains_key(#[trigger] self.buckets[key][i])
                &&& self.keys[self.buckets[key][i]] == key
            }
        &&& forall|id: ObserverId| #[trigger]
            self.keys.contains_key(id) ==> {
                &&& self.buckets.contains_key(self.keys[id])
                &&& self.buckets[self.keys[id]].contains(id)
            }
    }

    /// The registry after `id` has been registered under `key`. An observer
    /// that is already registered stays where it is.
    pub open spec fn register(self, id: ObserverId, key: ObserverKey) -> RegistryView {
        if self.keys.contains_key(id) {
            self
        } else {
            RegistryView {
                buckets: self.buckets.insert(key, self.bucket(key).push(id)),
                keys: self.keys.insert(id, key),
            }
        }
    }

    /// The registry after every entry of `id` has been removed. An observer
    /// that is not registered leaves the registry as it is.
    pub open spec fn unregister(self, id: ObserverId) -> RegistryView {
        if !self.keys.contains_key(id) {
            self
        } else {
            let key = self.keys[id];
            let rest = self.bucket(key).remove(self.bucket(key).index_of(id));
            RegistryView {
                buckets: if rest.len() == 0 {
                    self.buckets.remove(key)
                } else {
                    self.buckets.insert(key, rest)
                },
                keys: self.keys.remove(id),
            }
        }
    }

    /// The registry after every observer in `gone` has been unregistered:
    /// each bucket keeps the others in their order, and a bucket that runs
    /// empty goes.
    pub open spec fn without(self, gone: Set<ObserverId>) -> RegistryView {
        RegistryView {
            buckets: Map::new(
                |key: ObserverKey|
                    self.buckets.contains_key(key) && kept(self.buckets[key], gone).len() > 0,
                |key: ObserverKey| kept(self.buckets[key], gone),
            ),
            keys: Map::new(
                |id: ObserverId| self.keys.contains_key(id) && !gone.contains(id),
                |id: ObserverId| self.keys[id],
            ),
        }
    }

    /// Unregistering a set of observers keeps the registry well formed.
    pub proof fn lemma_without_wf(self, gone: Set<ObserverId>)
        requires
            self.wf(),
        ensures
            self.without(gone).wf(),
    {
        let after = self.without(gone);
        assert forall|key: ObserverKey| #[trigger] after.buckets.contains_key(key) implies {
            &&& key.event_type.valid()
            &&& after.buckets[key].len() > 0
            &&& after.buckets[key].no_duplicates()
        } by {
            lemma_kept_members(self.buckets[key], gone);
        }
        assert forall|key: ObserverKey, i: int|
            after.buckets.contains_key(key) && 0 <= i < after.buckets[key].len() implies {
            &&& after.keys.contains_key(#[trigger] after.buckets[key][i])
            &&& after.keys[after.buckets[key][i]] == key
        } by {
            let bucket = self.buckets[key];
            lemma_kept_members(bucket, gone);
            let id = after.buckets[key][i];
            assert(after.buckets[key] == kept(bucket, gone));
            assert(kept(bucket, gone).contains(id));
            assert(bucket.contains(id) && !gone.contains(id));
            let at = choose|at: int| 0 <= at < bucket.len() && bucket[at] == id;
            assert(self.keys.contains_key(self.buckets[key][at]));
        }
        assert forall|id: ObserverId| #[trigger] after.keys.contains_key(id) implies {
            &&& after.buckets.contains_key(after.keys[id])
            &&& after.buckets[after.keys[id]].contains(id)
        } by {
            let key = self.keys[id];
            lemma_kept_members(self.buckets[key], gone);
            assert(kept(self.buckets[key], gone).contains(id));
        }
    }

    /// Unregistering nobody changes nothing.
    pub proof fn lemma_without_nobody(self)
        requires
            self.wf(),
        ensures
            self.without(Set::empty()) == self,
    {
        let gone = Set::<ObserverId>::empty();
        assert forall|key: ObserverKey| #[trigger] self.buckets.contains_key(key) implies kept(
            self.buckets[key],
            gone,
        ) == self.buckets[key] by {
            lemma_kept_all(self.buckets[key], gone);
        }
        assert(self.without(gone).buckets =~= self.buckets);
        assert(self.without(gone).keys =~= self.keys);
    }

    /// Unregistering one observer is unregistering the set that holds it
    /// alone.
    pub proof fn lemma_unregister_is_without(self, id: ObserverId)
        requires
            self.wf(),
        ensures
            self.unregister(id) == self.without(set![id]),
    {
        let gone = set![id];
        let one = self.unregister(id);
        let all = self.without(gone);
        assert forall|key: ObserverKey| #[trigger]
            self.buckets.contains_key(key) && !(self.keys.contains_key(id) && self.keys[id]
                == key) implies kept(self.buckets[key], gone) == self.buckets[key] by {
            let bucket = self.buckets[key];
            assert forall|i: int| 0 <= i < bucket.len() implies !gone.contains(bucket[i]) by {
                assert(self.keys.contains_key(self.buckets[key][i]));
            }
            lemma_kept_all(bucket, gone);
        }
        if self.keys.contains_key(id) {
            let key = self.keys[id];
            let bucket = self.buckets[key];
            assert(bucket.contains(id));
            lemma_kept_one(bucket, id, bucket.index_of(id));
        }
        assert(one.buckets =~= all.buckets);
        assert(one.keys =~= all.keys);
    }

    /// Unregistering one set of observers and then another is unregistering
    /// both at once.
    pub proof fn lemma_without_twice(self, first: Set<ObserverId>, second: Set<ObserverId>)
        ensures
            self.without(first).without(second) == self.without(first.union(second)),
    {
        let twice = self.without(first).without(second);
        let once = self.without(first.union(second));
        assert forall|key: ObserverKey| #[trigger] self.buckets.contains_key(key) implies kept(
            kept(self.buckets[key], first),
            second,
        ) == kept(self.buckets[key], first.union(second)) by {
            lemma_kept_twice(self.buckets[key], first, second);
        }
        assert forall|key: ObserverKey|
            twice.buckets.contains_key(key) <==> once.buckets.contains_key(key) by {
            if self.buckets.contains_key(key) {
                lemma_kept_members(kept(self.buckets[key], first), second);
            }
        }
        assert(twice.buckets =~= once.buckets);
        assert(twice.keys =~= once.keys);
    }

    /// Unregistering keeps the registry well formed.
    pub proof fn lemma_unregister_wf(self, id: ObserverId)
        requires
            self.wf(),
        ensures
            self.unregister(id).wf(),
            !self.unregister(id).keys.contains_key(id),
    {
        self.lemma_unregister_is_without(id);
        self.lemma_without_wf(set![id]);
    }

    /// Registering keeps the registry well formed.
    pub proof fn lemma_register_wf(self, id: ObserverId, key: ObserverKey)
        requires
            self.wf(),
            key.event_type.valid(),
        ensures
            self.register(id, key).wf(),
    {
        let after = self.register(id, key);
        if !self.keys.contains_key(id) {
            let old_bucket = self.bucket(key);
            let new_bucket = old_bucket.push(id);
            assert(!old_bucket.contains(id)) by {
                if old_bucket.contains(id) {
                    let i = old_bucket.index_of(id);
                    assert(self.keys.contains_key(self.buckets[key][i]));
                }
            }
            assert(new_bucket.no_duplicates()) by {
                assert forall|i: int, j: int|
                    0 <= i < new_bucket.len() && 0 <= j < new_bucket.len() && i != j implies new_bucket[i]
                    != new_bucket[j] by {
                    if i < old_bucket.len() {
                        assert(old_bucket.contains(old_bucket[i]));
                    }
                    if j < old_bucket.len() {
                        assert(old_bucket.contains(old_bucket[j]));
                    }
                }
            }
            assert forall|k: ObserverKey, i: int|
                after.buckets.contains_key(k) && 0 <= i < after.buckets[k].len() implies {
                &&& after.keys.contains_key(#[trigger] after.buckets[k][i])
                &&& after.keys[after.buckets[k][i]] == k
            } by {
                if k == key {
                    if i < old_bucket.len() {
                        assert(self.buckets.contains_key(key));
                        assert(self.keys.contains_key(self.buckets[key][i]));
                    }
                } else {
                    assert(self.keys.contains_key(self.buckets[k][i]));
                }
            }
            assert forall|other: ObserverId| #[trigger]
                after.keys.contains_key(other) implies {
                &&& after.buckets.contains_key(after.keys[other])
                &&& after.buckets[after.keys[other]].contains(other)
            } by {
                if other == id {
                    assert(new_bucket[new_bucket.len() - 1] == id);
                } else {
                    assert(self.keys.contains_key(other));
                    let k = self.keys[other];
                    if k == key {
                        let i = old_bucket.index_of(other);
                        assert(new_bucket[i] == other);
                    }
                }
            }
        }
    }
}

/// The index itself. Buckets are keyed by the watched entity and the event
/// type together, so a lookup touches one bucket only.
pub struct ObserverRegistry {
    buckets: HashMap<u128, Vec<ObserverId>>,
    keys: HashMap<u64, ObserverKey>,
}

/// The number under which the bucket of `key` is filed.
pub open spec fn bucket_slot(key: ObserverKey) -> u128 {
    (key.watched.0 * 0x1_0000_0000 + key.event_type.0) as u128
}

/// Different keys are filed under different numbers.
pub proof fn lemma_bucket_slot_injective(a: ObserverKey, b: ObserverKey)
    ensures
        bucket_slot(a) == bucket_slot(b) <==> a == b,
{
}

fn slot_of(key: ObserverKey) -> (slot: u128)
    ensures
        slot == bucket_slot(key),
{
    (key.watched.0 as u128) * 0x1_0000_0000u128 + (key.event_type.0 as u128)
}

impl View for ObserverRegistry {
    type V = RegistryView;

    closed spec fn view(&self) -> RegistryView {
        RegistryView {
            buckets: Map::new(
                |key: ObserverKey| self.buckets@.contains_key(bucket_slot(key)),
                |key: ObserverKey| self.buckets@[bucket_slot(key)]@,
            ),
            keys: Map::new(
                |id: ObserverId| self.keys@.contains_key(id.0),
                |id: ObserverId| self.keys@[id.0],
            ),
        }
    }
}

impl ObserverRegistry {
    /// The invariant of the registry: its view is well formed.
    pub open spec fn wf(&self) -> bool {
        self@.wf()
    }

    /// A registry that lists nothing.
    pub fn new() -> (registry: ObserverRegistry)
        ensures
            registry@ == RegistryView::empty(),
            registry.wf(),
    {
        let registry = ObserverRegistry { buckets: HashMap::new(), keys: HashMap::new() };
        assert(registry@.buckets =~= Map::empty());
        assert(registry@.keys =~= Map::empty());
        registry
    }

    /// Lists `id` under the given entity and event type.
    ///
    /// The null event type is turned down. An observer that is already
    /// registered stays where it is, and the answer is `Ok(false)`.
    pub fn register(&mut self, id: ObserverId, watched: EntityId, event_type: EventType) -> (done:
        Result<bool, crate::ids::Error>)
        requires
            old(self).wf(),
        ensures
            final(self).wf(),
            !event_type.valid() ==> done == Err::<bool, crate::ids::Error>(
                crate::ids::Error::InvalidEventType,
            ) && final(self)@ == old(self)@,
            event_type.valid() ==> done == Ok::<bool, crate::ids::Error>(
                !old(self)@.keys.contains_key(id),
            ) && final(self)@ == old(self)@.register(id, ObserverKey { watched, event_type }),
    {
        if !event_type.is_valid() {
            return Err(crate::ids::Error::InvalidEventType);
        }
        let key = ObserverKey { watched, event_type };
        if self.keys.contains_key(&id.0) {
            return Ok(false);
        }
        let slot = slot_of(key);
        let mut ids = match self.buckets.remove(&slot) {
            Some(ids) => ids,
            None => Vec::new(),
        };
        ids.push(id);
        self.buckets.insert(slot, ids);
        self.keys.insert(id.0, key);
        proof {
            let before = old(self)@;
            let after = before.register(id, key);
            assert(ids@ == before.bucket(key).push(id));
            assert forall|k: ObserverKey| bucket_slot(k) == slot <==> k == key by {
                lemma_bucket_slot_injective(k, key);
            }
            assert(self@.buckets =~= after.buckets);
            assert(self@.keys =~= after.keys);
            before.lemma_register_wf(id, key);
        }
        Ok(true)
    }

    /// Removes every entry of `id`. Says whether there was one; an observer
    /// that is not registered leaves the registry untouched.
    pub fn unregister(&mut self, id: ObserverId) -> (removed: bool)
        requires
            old(self).wf(),
        ensures
            final(self).wf(),
            removed == old(self)@.keys.contains_key(id),
            final(self)@ == old(self)@.unregister(id),
            !final(self)@.keys.contains_key(id),
    {
        let key = match self.keys.remove(&id.0) {
            Some(key) => key,
            None => {
                assert(self.keys@ =~= old(self).keys@);
                return false;
            },
        };
        let slot = slot_of(key);
        let ghost before = old(self)@;
        proof {
            assert(before.keys.contains_key(id));
            assert(before.buckets.contains_key(key));
            assert(before.buckets[key].contains(id));
        }
        match self.buckets.remove(&slot) {
            Some(mut ids) => {
                let at = position_of(&ids, id);
                if at < ids.len() {
                    proof {
                        let chosen = before.bucket(key).index_of(id);
                        assert(before.bucket(key)[chosen] == id);
                        assert(chosen == at);
                    }
                    ids.remove(at);
                }
                if ids.len() > 0 {
                    self.buckets.insert(slot, ids);
                }
            },
            None => {},
        }
        proof {
            let after = before.unregister(id);
            assert forall|k: ObserverKey| bucket_slot(k) == slot <==> k == key by {
                lemma_bucket_slot_injective(k, key);
            }
            assert(self@.buckets =~= after.buckets);
            assert(self@.keys =~= after.keys);
            before.lemma_unregister_wf(id);
        }
        true
    }

    /// The observers registered for `watched` and `event_type` right now,
    /// oldest first. The answer is a copy: later changes do not reach it.
    pub fn lookup(&self, watched: EntityId, event_type: EventType) -> (found: Vec<ObserverId>)
        ensures
            found@ == self@.bucket(ObserverKey { watched, event_type }),
    {
        let key = ObserverKey { watched, event_type };
        let slot = slot_of(key);
        let mut found: Vec<ObserverId> = Vec::new();
        match self.buckets.get(&slot) {
            Some(ids) => {
                let mut i: usize = 0;
                while i < ids.len()
                    invariant
                        i <= ids.len(),
                        found@ == ids@.take(i as int),
                    decreases ids.len() - i,
                {
                    found.push(ids[i]);
                    assert(ids@.take(i + 1) =~= ids@.take(i as int).push(ids[i as int]));
                    i += 1;
                }
                assert(ids@.take(ids.len() as int) =~= ids@);
            },
            None => {},
        }
        found
    }

    /// The key under which `id` is registered, if it is.
    pub fn key_of(&self, id: ObserverId) -> (key: Option<ObserverKey>)
        ensures
            key == if self@.keys.contains_key(id) {
                Some(self@.keys[id])
            } else {
                None
            },
    {
        match self.keys.get(&id.0) {
            Some(key) => Some(*key),
            None => None,
        }
    }

    /// Whether any entry names `id`.
    pub fn is_registered(&self, id: ObserverId) -> (yes: bool)
        ensures
            yes == self@.keys.contains_key(id),
    {
        self.keys.contains_key(&id.0)
    }
}

} // verus!
