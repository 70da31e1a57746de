//! What holds of the cache and of the filter whatever input they are given.
//!
//! Each law is a proof over the spec functions by which the executable
//! cache and filter are described, so it holds of them too.

use crate::cache::{evict_next, CacheState, CapacityExceeded};
use crate::filter::KeyExtractor;
use crate::pipeline::{outcome, record_next, record_verdict};
use vstd::prelude::*;
use vstd::seq_lib::seq_to_set_is_finite;
use vstd::set_lib::lemma_len_subset;

verus! {

/// A step keeps a well-formed state well formed and its policy and
/// capacity as they were. In particular a bounded cache never holds more
/// keys than its capacity.
pub proof fn law_step_keeps_invariant(state: CacheState, key: Seq<u8>)
    requires
        state.wf(),
    ensures
        state.next(key).wf(),
        state.next(key).capacity() == state.capacity(),
        state.next(key).members().finite(),
        state.capacity() matches Some(cap) ==> state.next(key).members().len() <= cap,
        state is Unbounded <==> state.next(key) is Unbounded,
        state is BoundedFail <==> state.next(key) is BoundedFail,
        state is BoundedEvict <==> state.next(key) is BoundedEvict,
{
    match state {
        CacheState::BoundedEvict { order, cap } => {
            let after = evict_next(order, cap, key);
            if !order.contains(key) {
                crate::cache::lemma_push_fresh(order, key);
                if order.len() + 1 > cap {
                    crate::cache::lemma_skip_oldest(order.push(key));
                }
            }
            after.unique_seq_to_set();
            seq_to_set_is_finite(after);
        },
        _ => {},
    }
}

/// Only a bounded cache that does not evict can refuse a key, and an
/// answer of "new" or "seen" says exactly whether the key was held.
pub proof fn law_verdict_tells_membership(state: CacheState, key: Seq<u8>)
    ensures
        !(state is BoundedFail) ==> state.verdict(key) is Ok,
        state.verdict(key) matches Ok(fresh) ==> fresh == !state.members().contains(key),
        state.verdict(key) is Err ==> state.next(key) == state,
        state.verdict(key) == Ok::<bool, CapacityExceeded>(false) ==> state.next(key) == state,
{
    if let CacheState::Unbounded { members } = state {
        if members.contains(key) {
            assert(members.insert(key) =~= members);
        }
    }
}

/// In an unbounded cache a key is held from the moment it has been given:
/// given again at once, it is answered "seen" and changes nothing. The
/// first answer is "new" exactly when the key was not held before.
pub proof fn law_same_key_twice(members: Set<Seq<u8>>, key: Seq<u8>)
    ensures
        ({
            let state = CacheState::Unbounded { members };
            &&& state.verdict(key) == Ok::<bool, CapacityExceeded>(!members.contains(key))
            &&& state.next(key).verdict(key) == Ok::<bool, CapacityExceeded>(false)
            &&& state.next(key).next(key) == state.next(key)
        }),
{
    assert(members.insert(key).insert(key) =~= members.insert(key));
}

/// An unbounded cache that starts empty holds exactly the keys it has been
/// given.
pub proof fn law_unbounded_holds_all(keys: Seq<Seq<u8>>, evict: bool)
    ensures
        CacheState::empty(None, evict).after(keys) == (CacheState::Unbounded {
            members: keys.to_set(),
        }),
    decreases keys.len(),
{
    if keys.len() == 0 {
        assert(keys.to_set() =~= Set::<Seq<u8>>::empty());
    } else {
        law_unbounded_holds_all(keys.drop_last(), evict);
        assert(keys.drop_last().push(keys.last()) =~= keys);
        keys.drop_last().lemma_push_to_set_commute(keys.last());
    }
}

/// Whatever keys came before, a key that was not among them is answered
/// "new" by an unbounded cache and, given again at once, "seen".
pub proof fn law_first_occurrence_twice(keys: Seq<Seq<u8>>, key: Seq<u8>)
    requires
        !keys.contains(key),
    ensures
        ({
            let state = CacheState::empty(None, false).after(keys);
            &&& state.verdict(key) == Ok::<bool, CapacityExceeded>(true)
            &&& state.next(key).verdict(key) == Ok::<bool, CapacityExceeded>(false)
        }),
{
    law_unbounded_holds_all(keys, false);
}

/// A bounded cache that does not evict and starts empty behaves as an
/// unbounded one as long as the keys given are of no more than `cap`
/// kinds: it holds exactly those keys, however often each was repeated.
pub proof fn law_bounded_fail_within_capacity(keys: Seq<Seq<u8>>, cap: nat)
    requires
        keys.to_set().len() <= cap,
    ensures
        CacheState::empty(Some(cap), false).after(keys) == (CacheState::BoundedFail {
            members: keys.to_set(),
            cap,
        }),
    decreases keys.len(),
{
    if keys.len() == 0 {
        assert(keys.to_set() =~= Set::<Seq<u8>>::empty());
    } else {
        let front = keys.drop_last();
        let last = keys.last();
        assert(front.push(last) =~= keys);
        front.lemma_push_to_set_commute(last);
        seq_to_set_is_finite(keys);
        seq_to_set_is_finite(front);
        lemma_len_subset(front.to_set(), keys.to_set());
        law_bounded_fail_within_capacity(front, cap);
        if front.to_set().contains(last) {
            assert(front.to_set().insert(last) =~= front.to_set());
        }
    }
}

/// The boundary of a bounded cache that does not evict. After keys of no
/// more than `cap` kinds, a key seen before is answered "seen"; a new key
/// is answered "new" while fewer than `cap` keys are held, and refused
/// once `cap` keys are held.
pub proof fn law_bounded_fail_boundary(keys: Seq<Seq<u8>>, cap: nat, key: Seq<u8>)
    requires
        keys.to_set().len() <= cap,
    ensures
        ({
            let state = CacheState::empty(Some(cap), false).after(keys);
            &&& keys.contains(key) ==> state.verdict(key) == Ok::<bool, CapacityExceeded>(false)
            &&& !keys.contains(key) && keys.to_set().len() < cap ==> state.verdict(key) == Ok::<
                bool,
                CapacityExceeded,
            >(true)
            &&& !keys.contains(key) && keys.to_set().len() == cap ==> state.verdict(key) == Err::<
                bool,
                CapacityExceeded,
            >(CapacityExceeded)
        }),
{
    law_bounded_fail_within_capacity(keys, cap);
}

/// The window of a cache that evicts. After distinct keys, given to a
/// cache that starts empty, it holds the last `cap` of them in the order
/// given, or all of them if they are fewer.
pub proof fn law_evict_window(keys: Seq<Seq<u8>>, cap: nat)
    requires
        keys.no_duplicates(),
    ensures
        CacheState::empty(Some(cap), true).after(keys) == (CacheState::BoundedEvict {
            order: if keys.len() > cap {
                keys.skip(keys.len() - cap)
            } else {
                keys
            },
            cap,
        }),
    decreases keys.len(),
{
    if keys.len() > 0 {
        let front = keys.drop_last();
        let last = keys.last();
        law_evict_window(front, cap);
        let held = if front.len() > cap {
            front.skip(front.len() - cap)
        } else {
            front
        };
        assert(!held.contains(last)) by {
            if held.contains(last) {
                let i = choose|i: int| 0 <= i < held.len() && held[i] == last;
                let j = if front.len() > cap {
                    i + front.len() - cap
                } else {
                    i
                };
                assert(keys[j] == keys[keys.len() - 1]);
            }
        }
        let window = if keys.len() > cap {
            keys.skip(keys.len() - cap)
        } else {
            keys
        };
        assert(evict_next(held, cap, last) =~= window);
    } else {
        assert(keys =~= Seq::<Seq<u8>>::empty());
    }
}

/// Once more distinct keys have been given than the cache holds, the first
/// of them has been evicted and is answered "new" when it comes again.
pub proof fn law_evicted_key_is_new_again(keys: Seq<Seq<u8>>, cap: nat)
    requires
        keys.no_duplicates(),
        keys.len() > cap,
    ensures
        CacheState::empty(Some(cap), true).after(keys).members() == keys.skip(
            keys.len() - cap,
        ).to_set(),
        CacheState::empty(Some(cap), true).after(keys).verdict(keys[0]) == Ok::<
            bool,
            CapacityExceeded,
        >(true),
{
    law_evict_window(keys, cap);
    let window = keys.skip(keys.len() - cap);
    if window.contains(keys[0]) {
        let i = choose|i: int| 0 <= i < window.len() && window[i] == keys[0];
        assert(keys[i + keys.len() - cap] == keys[0]);
    }
}

/// A cache that evicts and has capacity 0 holds nothing, whatever keys it
/// has been given, and so answers "new" to every key.
pub proof fn law_capacity_zero_passes_all(keys: Seq<Seq<u8>>, key: Seq<u8>)
    ensures
        ({
            let state = CacheState::empty(Some(0), true).after(keys);
            &&& state == CacheState::empty(Some(0), true)
            &&& state.members() == Set::<Seq<u8>>::empty()
            &&& state.verdict(key) == Ok::<bool, CapacityExceeded>(true)
        }),
    decreases keys.len(),
{
    let none = Seq::<Seq<u8>>::empty();
    assert(none.to_set() =~= Set::<Seq<u8>>::empty());
    if keys.len() > 0 {
        law_capacity_zero_passes_all(keys.drop_last(), keys.last());
        assert(none.push(keys.last()).skip(1) =~= none);
    }
}

/// The key of each record, in the order of the records.
pub open spec fn record_keys(extractor: KeyExtractor, records: Seq<Seq<u8>>) -> Seq<
    Option<Seq<u8>>,
> {
    Seq::new(records.len(), |i: int| extractor.key_of(records[i]))
}

/// Whether the record at `i` has a key that is not held at the start and
/// that no earlier record has.
pub open spec fn first_occurrence(held: Set<Seq<u8>>, keys: Seq<Option<Seq<u8>>>, i: int) -> bool {
    &&& keys[i] matches Some(key)
    &&& !held.contains(key)
    &&& forall|j: int| 0 <= j < i ==> #[trigger] keys[j] != keys[i]
}

/// For each record, whether it is the first occurrence of its key.
pub open spec fn first_occurrences(held: Set<Seq<u8>>, keys: Seq<Option<Seq<u8>>>) -> Seq<bool> {
    Seq::new(keys.len(), |i: int| first_occurrence(held, keys, i))
}

/// The records whose position is marked in `keep`, in their order.
pub open spec fn selected(records: Seq<Seq<u8>>, keep: Seq<bool>) -> Seq<Seq<u8>>
    decreases records.len(),
{
    if records.len() == 0 || keep.len() == 0 {
        Seq::empty()
    } else {
        let rest = selected(records.drop_first(), keep.drop_first());
        if keep[0] {
            seq![records[0]] + rest
        } else {
            rest
        }
    }
}

/// Whether `part` can be had from `whole` by leaving records out.
pub open spec fn is_subsequence(part: Seq<Seq<u8>>, whole: Seq<Seq<u8>>) -> bool
    decreases whole.len(),
{
    if part.len() == 0 {
        true
    } else if whole.len() == 0 {
        false
    } else if part[0] == whole[0] && is_subsequence(part.drop_first(), whole.drop_first()) {
        true
    } else {
        is_subsequence(part, whole.drop_first())
    }
}

/// Under every policy the records forwarded are records of the input, as
/// they came and in the order in which they came.
pub proof fn law_forwarded_is_subsequence(
    extractor: KeyExtractor,
    state: CacheState,
    records: Seq<Seq<u8>>,
)
    ensures
        is_subsequence(outcome(extractor, state, records).forwarded, records),
        outcome(extractor, state, records).read <= records.len(),
        !outcome(extractor, state, records).failed ==> outcome(extractor, state, records).read
            == records.len(),
    decreases records.len(),
{
    if records.len() > 0 {
        let key = extractor.key_of(records[0]);
        if let Ok(fresh) = record_verdict(state, key) {
            let rest = outcome(extractor, record_next(state, key), records.drop_first());
            law_forwarded_is_subsequence(extractor, record_next(state, key), records.drop_first());
            if fresh {
                assert((seq![records[0]] + rest.forwarded).drop_first() =~= rest.forwarded);
            }
        }
    }
}

/// An unbounded cache never fails, and forwards exactly the records that
/// are the first occurrence of their key, in the order of the input. A
/// record without a key is never forwarded.
pub proof fn law_unbounded_forwards_first_occurrences(
    extractor: KeyExtractor,
    held: Set<Seq<u8>>,
    records: Seq<Seq<u8>>,
)
    ensures
        ({
            let o = outcome(extractor, CacheState::Unbounded { members: held }, records);
            let keys = record_keys(extractor, records);
            &&& !o.failed
            &&& o.read == records.len()
            &&& o.forwarded == selected(records, first_occurrences(held, keys))
            &&& o.state is Unbounded
            &&& forall|key: Seq<u8>|
                o.state.members().contains(key) <==> held.contains(key) || keys.contains(
                    Some(key),
                )
        }),
    decreases records.len(),
{
    let state = CacheState::Unbounded { members: held };
    let keys = record_keys(extractor, records);
    let o = outcome(extractor, state, records);
    if records.len() > 0 {
        let tail = records.drop_first();
        let next = record_next(state, keys[0]);
        let held_next = next.members();
        let keys_tail = record_keys(extractor, tail);
        law_unbounded_forwards_first_occurrences(extractor, held_next, tail);
        assert(keys_tail =~= keys.drop_first());
        assert(first_occurrences(held, keys).drop_first() =~= first_occurrences(
            held_next,
            keys_tail,
        )) by {
            assert forall|i: int| 0 <= i < keys_tail.len() implies first_occurrence(
                held,
                keys,
                i + 1,
            ) == first_occurrence(held_next, keys_tail, i) by {
                if first_occurrence(held, keys, i + 1) {
                    assert(keys[0] != keys[i + 1]);
                    assert forall|j: int| 0 <= j < i implies #[trigger] keys_tail[j]
                        != keys_tail[i] by {
                        assert(keys[j + 1] != keys[i + 1]);
                    }
                }
                if first_occurrence(held_next, keys_tail, i) {
                    assert forall|j: int| 0 <= j < i + 1 implies #[trigger] keys[j] != keys[i + 1] by {
                        if j > 0 {
                            assert(keys_tail[j - 1] != keys_tail[i]);
                        }
                    }
                }
            }
        }
        let rest = outcome(extractor, next, tail);
        assert(o.state == rest.state);
        assert forall|key: Seq<u8>|
            o.state.members().contains(key) <==> held.contains(key) || keys.contains(
                Some(key),
            ) by {
            assert(rest.state.members().contains(key) <==> held_next.contains(key)
                || keys_tail.contains(Some(key)));
            assert(held_next.contains(key) <==> held.contains(key) || keys[0] == Some(key));
            if keys.contains(Some(key)) {
                let i = choose|i: int| 0 <= i < keys.len() && keys[i] == Some(key);
                if i > 0 {
                    assert(keys_tail[i - 1] == Some(key));
                }
            }
            if keys_tail.contains(Some(key)) {
                let i = choose|i: int| 0 <= i < keys_tail.len() && keys_tail[i] == Some(key);
                assert(keys[i + 1] == Some(key));
            }
            if keys[0] == Some(key) {
                assert(keys.contains(Some(key)));
            }
        }
    }
}

} // verus!
