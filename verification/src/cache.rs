//! The uniqueness cache: which keys have been seen, under one of three
//! policies fixed when the cache is made.
//!
//! A key is a byte string and two keys are the same when their bytes are.
//! Each policy is described by a pair of spec functions, one for the answer
//! to a key and one for the state afterwards; the executable types are
//! proved to follow them.

use crate::keyset::{keys_of, set_contains, set_insert, set_len, set_new, set_remove};
use fxhash::FxHashSet;
use std::collections::VecDeque;
use vstd::prelude::*;

verus! {

/// The error of the bounded cache that does not evict: a key that was not
/// held arrived while the cache was full.
#[derive(Debug, Clone, Copy, PartialEq, Eq, Structural)]
pub struct CapacityExceeded;

impl CapacityExceeded {
    /// The error in words.
    pub fn message(&self) -> (text: String)
        ensures
            text@ == "Cache capacity exceeded!"@,
    {
        "Cache capacity exceeded!".to_owned()
    }
}

/// What a cache of at most `cap` keys that does not evict answers to `key`
/// when it holds `members`: `Ok(false)` for a key it holds, `Ok(true)` for
/// a new key that still fits, and the error for a new key that does not.
pub open spec fn fail_verdict(members: Set<Seq<u8>>, cap: nat, key: Seq<u8>) -> Result<
    bool,
    CapacityExceeded,
> {
    if members.contains(key) {
        Ok(false)
    } else if members.len() < cap {
        Ok(true)
    } else {
        Err(CapacityExceeded)
    }
}

/// The keys that such a cache holds afterwards: the new key is added exactly
/// when the answer is `Ok(true)`, and nothing else changes.
pub open spec fn fail_next(members: Set<Seq<u8>>, cap: nat, key: Seq<u8>) -> Set<Seq<u8>> {
    if fail_verdict(members, cap, key) == Ok::<bool, CapacityExceeded>(true) {
        members.insert(key)
    } else {
        members
    }
}

/// A cache that holds at most `cap` keys and fails rather than hold more.
pub struct UniqueWithCap {
    lines: FxHashSet<Vec<u8>>,
    cap: usize,
}

impl View for UniqueWithCap {
    type V = Set<Seq<u8>>;

    /// The keys held.
    closed spec fn view(&self) -> Set<Seq<u8>> {
        keys_of(self.lines)
    }
}

impl UniqueWithCap {
    /// The largest number of keys that the cache may hold.
    pub closed spec fn capacity(&self) -> nat {
        self.cap as nat
    }

    /// The cache holds finitely many keys, and no more than its capacity.
    pub open spec fn wf(&self) -> bool {
        &&& self@.finite()
        &&& self@.len() <= self.capacity()
    }

    /// An empty cache for at most `cap` keys.
    pub fn new(cap: usize) -> (cache: Self)
        ensures
            cache.wf(),
            cache@ == Set::<Seq<u8>>::empty(),
            cache.capacity() == cap,
    {
        UniqueWithCap { lines: set_new(), cap }
    }

    /// Records `value` and tells whether it is new. A new key that would
    /// take the cache over its capacity is refused with the error, and the
    /// cache is left as it was.
    pub fn insert(&mut self, value: Vec<u8>) -> (fresh: Result<bool, CapacityExceeded>)
        requires
            old(self).wf(),
        ensures
            final(self).wf(),
            final(self).capacity() == old(self).capacity(),
            fresh == fail_verdict(old(self)@, old(self).capacity(), value@),
            final(self)@ == fail_next(old(self)@, old(self).capacity(), value@),
    {
        if set_len(&self.lines) < self.cap {
            let added = set_insert(&mut self.lines, value);
            assert(!added ==> self@ =~= old(self)@);
            Ok(added)
        } else if set_contains(&self.lines, value.as_slice()) {
            Ok(false)
        } else {
            Err(CapacityExceeded)
        }
    }
}

/// What a cache that evicts answers to `key` when it holds the keys of
/// `order`: whether the key is new. It never fails.
pub open spec fn evict_verdict(order: Seq<Seq<u8>>, key: Seq<u8>) -> bool {
    !order.contains(key)
}

/// The keys that a cache of at most `cap` keys that evicts holds after
/// `key`, oldest first. A key it holds changes nothing. A new key goes to
/// the back, and if that makes more than `cap` keys the oldest one leaves.
pub open spec fn evict_next(order: Seq<Seq<u8>>, cap: nat, key: Seq<u8>) -> Seq<Seq<u8>> {
    if order.contains(key) {
        order
    } else if order.len() + 1 > cap {
        order.push(key).skip(1)
    } else {
        order.push(key)
    }
}

/// The contents of each queued key, in queue order.
pub open spec fn queued_keys(queue: Seq<Vec<u8>>) -> Seq<Seq<u8>> {
    Seq::new(queue.len(), |i: int| queue[i]@)
}

/// A cache that holds the last `cap` distinct keys: once full, each new key
/// takes the place of the one that has been held longest.
pub struct UniqueWithOverride {
    set: FxHashSet<Vec<u8>>,
    queue: VecDeque<Vec<u8>>,
    cap: usize,
}

impl View for UniqueWithOverride {
    type V = Seq<Seq<u8>>;

    /// The keys held, in the order in which they were admitted.
    closed spec fn view(&self) -> Seq<Seq<u8>> {
        queued_keys(self.queue@)
    }
}

impl UniqueWithOverride {
    /// The largest number of keys that the cache may hold.
    pub closed spec fn capacity(&self) -> nat {
        self.cap as nat
    }

    /// The keys held, without their order.
    pub closed spec fn members(&self) -> Set<Seq<u8>> {
        keys_of(self.set)
    }

    /// No key is queued twice, the set holds exactly the queued keys, and
    /// there are no more of them than the capacity.
    pub open spec fn wf(&self) -> bool {
        &&& self@.no_duplicates()
        &&& self.members() == self@.to_set()
        &&& self@.len() <= self.capacity()
    }

    /// An empty cache for the last `cap` distinct keys.
    pub fn new(cap: usize) -> (cache: Self)
        ensures
            cache.wf(),
            cache@ == Seq::<Seq<u8>>::empty(),
            cache.capacity() == cap,
    {
        let cache = UniqueWithOverride { set: set_new(), queue: VecDeque::new(), cap };
        assert(cache@ =~= Seq::<Seq<u8>>::empty());
        assert(cache@.to_set() =~= Set::<Seq<u8>>::empty());
        cache
    }

    /// Records `value` and tells whether it is new. When a new key makes
    /// more keys than the capacity, the oldest key is evicted before the
    /// call returns.
    pub fn insert(&mut self, value: Vec<u8>) -> (fresh: bool)
        requires
            old(self).wf(),
        ensures
            final(self).wf(),
            final(self).capacity() == old(self).capacity(),
            fresh == evict_verdict(old(self)@, value@),
            final(self)@ == evict_next(old(self)@, old(self).capacity(), value@),
    {
        let ghost before = self@;
        let ghost key = value@;
        let copy = value.clone();
        assert(copy@ =~= value@);
        if set_insert(&mut self.set, copy) {
            self.queue.push_back(value);
            let ghost grown = self@;
            proof {
                assert(grown =~= before.push(key));
                lemma_push_fresh(before, key);
                grown.unique_seq_to_set();
            }
            if set_len(&self.set) > self.cap {
                match self.queue.pop_front() {
                    Some(oldest) => {
                        set_remove(&mut self.set, &oldest);
                        proof {
                            assert(oldest@ == grown[0]);
                            assert(self@ =~= grown.skip(1));
                            lemma_skip_oldest(grown);
                        }
                    },
                    None => {},
                }
            }
            true
        } else {
            assert(self.members() =~= old(self).members());
            false
        }
    }
}

/// What a cache of any policy holds and is bound by, as far as its answers
/// depend on it.
pub enum CacheState {
    /// Every key seen so far is held.
    Unbounded { members: Set<Seq<u8>> },
    /// At most `cap` keys are held, and a key beyond them is an error.
    BoundedFail { members: Set<Seq<u8>>, cap: nat },
    /// The last `cap` distinct keys are held, `order` giving them oldest
    /// first.
    BoundedEvict { order: Seq<Seq<u8>>, cap: nat },
}

impl CacheState {
    /// The state of a new cache: bounded by `capacity` if there is one, and
    /// evicting if `evict` is set beside a capacity.
    pub open spec fn empty(capacity: Option<nat>, evict: bool) -> CacheState {
        match capacity {
            None => CacheState::Unbounded { members: Set::empty() },
            Some(cap) => if evict {
                CacheState::BoundedEvict { order: Seq::empty(), cap }
            } else {
                CacheState::BoundedFail { members: Set::empty(), cap }
            },
        }
    }

    /// The keys held.
    pub open spec fn members(self) -> Set<Seq<u8>> {
        match self {
            CacheState::Unbounded { members } => members,
            CacheState::BoundedFail { members, .. } => members,
            CacheState::BoundedEvict { order, .. } => order.to_set(),
        }
    }

    /// The bound on the number of keys held, if there is one.
    pub open spec fn capacity(self) -> Option<nat> {
        match self {
            CacheState::Unbounded { .. } => None,
            CacheState::BoundedFail { cap, .. } => Some(cap),
            CacheState::BoundedEvict { cap, .. } => Some(cap),
        }
    }

    /// Finitely many keys are held, within the capacity if there is one,
    /// and an eviction order names no key twice.
    pub open spec fn wf(self) -> bool {
        match self {
            CacheState::Unbounded { members } => members.finite(),
            CacheState::BoundedFail { members, cap } => members.finite() && members.len() <= cap,
            CacheState::BoundedEvict { order, cap } => order.no_duplicates() && order.len() <= cap,
        }
    }

    /// The answer to `key` in this state.
    pub open spec fn verdict(self, key: Seq<u8>) -> Result<bool, CapacityExceeded> {
        match self {
            CacheState::Unbounded { members } => Ok(!members.contains(key)),
            CacheState::BoundedFail { members, cap } => fail_verdict(members, cap, key),
            CacheState::BoundedEvict { order, .. } => Ok(evict_verdict(order, key)),
        }
    }

    /// The state after `key` has been answered.
    pub open spec fn next(self, key: Seq<u8>) -> CacheState {
        match self {
            CacheState::Unbounded { members } => CacheState::Unbounded {
                members: members.insert(key),
            },
            CacheState::BoundedFail { members, cap } => CacheState::BoundedFail {
                members: fail_next(members, cap, key),
                cap,
            },
            CacheState::BoundedEvict { order, cap } => CacheState::BoundedEvict {
                order: evict_next(order, cap, key),
                cap,
            },
        }
    }

    /// The state after the keys of `keys` have been answered in turn.
    pub open spec fn after(self, keys: Seq<Seq<u8>>) -> CacheState
        decreases keys.len(),
    {
        if keys.len() == 0 {
            self
        } else {
            self.after(keys.drop_last()).next(keys.last())
        }
    }
}

/// The cache under the policy chosen for it: unbounded, bounded and
/// failing, or bounded and evicting.
pub enum UniquenessCache {
    /// Every key is held for good.
    Unbounded(FxHashSet<Vec<u8>>),
    /// A key beyond the capacity is an error.
    BoundedFail(UniqueWithCap),
    /// A key beyond the capacity evicts the oldest key.
    BoundedEvict(UniqueWithOverride),
}

impl View for UniquenessCache {
    type V = CacheState;

    open spec fn view(&self) -> CacheState {
        match self {
            UniquenessCache::Unbounded(lines) => CacheState::Unbounded { members: keys_of(*lines) },
            UniquenessCache::BoundedFail(cache) => CacheState::BoundedFail {
                members: cache@,
                cap: cache.capacity(),
            },
            UniquenessCache::BoundedEvict(cache) => CacheState::BoundedEvict {
                order: cache@,
                cap: cache.capacity(),
            },
        }
    }
}

impl UniquenessCache {
    /// The state is well formed, and under eviction the set and the queue
    /// agree.
    pub open spec fn wf(&self) -> bool {
        &&& self@.wf()
        &&& self matches UniquenessCache::BoundedEvict(cache) ==> cache.wf()
    }

    /// An empty cache. Without a capacity it is unbounded, whatever `evict`
    /// says; with one it evicts if `evict` is set and fails otherwise.
    pub fn new(capacity: Option<usize>, evict: bool) -> (cache: Self)
        ensures
            cache.wf(),
            cache@ == CacheState::empty(
                match capacity {
                    Some(cap) => Some(cap as nat),
                    None => None,
                },
                evict,
            ),
    {
        match capacity {
            Some(cap) => if evict {
                UniquenessCache::BoundedEvict(UniqueWithOverride::new(cap))
            } else {
                UniquenessCache::BoundedFail(UniqueWithCap::new(cap))
            },
            None => UniquenessCache::Unbounded(set_new()),
        }
    }

    /// Records `key` and tells whether it is new: `Ok(true)` if the cache
    /// did not hold it, `Ok(false)` if it did. Only the bounded cache that
    /// does not evict can fail, and it is then left as it was.
    pub fn observe(&mut self, key: Vec<u8>) -> (fresh: Result<bool, CapacityExceeded>)
        requires
            old(self).wf(),
        ensures
            final(self).wf(),
            fresh == old(self)@.verdict(key@),
            final(self)@ == old(self)@.next(key@),
    {
        match self {
            UniquenessCache::Unbounded(lines) => Ok(set_insert(lines, key)),
            UniquenessCache::BoundedFail(cache) => cache.insert(key),
            UniquenessCache::BoundedEvict(cache) => Ok(cache.insert(key)),
        }
    }
}

/// Appending a key that a duplicate-free sequence lacks keeps it
/// duplicate-free and adds the key to its set.
pub proof fn lemma_push_fresh(order: Seq<Seq<u8>>, key: Seq<u8>)
    requires
        order.no_duplicates(),
        !order.contains(key),
    ensures
        order.push(key).no_duplicates(),
        order.push(key).to_set() == order.to_set().insert(key),
{
    let grown = order.push(key);
    assert forall|i: int, j: int|
        0 <= i < grown.len() && 0 <= j < grown.len() && i != j implies grown[i] != grown[j] by {
        if i < order.len() {
            assert(order.contains(order[i]));
        }
        if j < order.len() {
            assert(order.contains(order[j]));
        }
    }
    order.lemma_push_to_set_commute(key);
}

/// Dropping the first key of a non-empty duplicate-free sequence keeps it
/// duplicate-free and removes that key from its set.
pub proof fn lemma_skip_oldest(order: Seq<Seq<u8>>)
    requires
        order.no_duplicates(),
        order.len() > 0,
    ensures
        order.skip(1).no_duplicates(),
        order.skip(1).to_set() == order.to_set().remove(order[0]),
{
    let rest = order.skip(1);
    assert forall|k: Seq<u8>| #[trigger] rest.to_set().contains(k) <==> order.to_set().remove(order[0]).contains(k) by {
        if rest.contains(k) {
            let i = choose|i: int| 0 <= i < rest.len() && rest[i] == k;
            assert(order[i + 1] == k);
            assert(order.contains(k));
        }
        if order.contains(k) && k != order[0] {
            let i = choose|i: int| 0 <= i < order.len() && order[i] == k;
            assert(rest[i - 1] == k);
        }
    }
    assert(rest.to_set() =~= order.to_set().remove(order[0]));
}

} // verus!
