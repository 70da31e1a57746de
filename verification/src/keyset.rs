//! The hash set of byte strings that backs every cache policy.
//!
//! The set itself is `fxhash::FxHashSet<Vec<u8>>`. Its behaviour is not
//! proved here: each function of this module states, as a contract that the
//! verifier takes on trust, what the corresponding method of the set does to
//! the byte strings it holds.

use fxhash::FxHashSet;
use fxhash::FxHasher;
use std::hash::BuildHasherDefault;
use vstd::prelude::*;

verus! {

/// `fxhash::FxHasher`, the hasher of the set. Nothing is known of its inside.
#[verifier::external_type_specification]
#[verifier::external_body]
pub struct ExFxHasher(FxHasher);

/// `std::hash::BuildHasherDefault`, which makes a hasher by `Default`.
#[verifier::external_type_specification]
#[verifier::external_body]
#[verifier::reject_recursive_types(H)]
pub struct ExBuildHasherDefault<H>(BuildHasherDefault<H>);

/// The byte strings that `set` holds, each taken by its contents.
pub uninterp spec fn keys_of(set: FxHashSet<Vec<u8>>) -> Set<Seq<u8>>;

/// `FxHashSet::default`: a set that holds nothing.
#[verifier::external_body]
pub(crate) fn set_new() -> (set: FxHashSet<Vec<u8>>)
    ensures
        keys_of(set) == Set::<Seq<u8>>::empty(),
{
    FxHashSet::default()
}

/// `HashSet::len`: the number of byte strings held.
#[verifier::external_body]
pub(crate) fn set_len(set: &FxHashSet<Vec<u8>>) -> (n: usize)
    ensures
        n == keys_of(*set).len(),
{
    set.len()
}

/// `HashSet::contains`: whether a byte string with the contents of `key` is
/// held.
#[verifier::external_body]
pub(crate) fn set_contains(set: &FxHashSet<Vec<u8>>, key: &[u8]) -> (held: bool)
    ensures
        held == keys_of(*set).contains(key@),
{
    set.contains(key)
}

/// `HashSet::insert`: adds `key` unless a byte string with the same contents
/// is already held, and returns whether it was added.
#[verifier::external_body]
pub(crate) fn set_insert(set: &mut FxHashSet<Vec<u8>>, key: Vec<u8>) -> (added: bool)
    ensures
        added == !keys_of(*old(set)).contains(key@),
        keys_of(*final(set)) == keys_of(*old(set)).insert(key@),
{
    set.insert(key)
}

/// `HashSet::remove`: drops the byte string with the contents of `key`, and
/// returns whether one was held.
#[verifier::external_body]
pub(crate) fn set_remove(set: &mut FxHashSet<Vec<u8>>, key: &Vec<u8>) -> (removed: bool)
    ensures
        removed == keys_of(*old(set)).contains(key@),
        keys_of(*final(set)) == keys_of(*old(set)).remove(key@),
{
    set.remove(key)
}

} // verus!
