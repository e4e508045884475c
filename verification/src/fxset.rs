//! The Fx-hashed sets that plan validation uses to spot repeated positions
//! and repeated property keys.

use std::collections::HashSet;

use rustc_hash::{FxBuildHasher, FxHashSet};
use vstd::prelude::*;

verus! {

/// `rustc_hash::FxBuildHasher`, the hasher builder behind `FxHashSet`.
#[verifier::external_type_specification]
#[verifier::external_body]
pub struct ExFxBuildHasher(FxBuildHasher);

/// The positions, as coordinate triples, that a position set holds.
pub uninterp spec fn position_set_contents(set: HashSet<(i32, i32, i32), FxBuildHasher>) -> Set<(i32, i32, i32)>;

/// The keys, as character sequences, that a key set holds.
pub uninterp spec fn key_set_contents(set: HashSet<&str, FxBuildHasher>) -> Set<Seq<char>>;

/// Calls `FxHashSet::default()`; trusted to hand back a set that holds no position.
#[verifier::external_body]
pub(crate) fn new_position_set() -> (set: FxHashSet<(i32, i32, i32)>)
    ensures
        position_set_contents(set) == Set::<(i32, i32, i32)>::empty(),
{
    FxHashSet::default()
}

/// Calls `HashSet::insert` on an `FxHashSet`; trusted to add `key` to the
/// contents and to answer `true` exactly when `key` was not there before.
#[verifier::external_body]
pub(crate) fn insert_position(set: &mut FxHashSet<(i32, i32, i32)>, key: (i32, i32, i32)) -> (fresh: bool)
    ensures
        position_set_contents(*final(set)) == position_set_contents(*old(set)).insert(key),
        fresh == !position_set_contents(*old(set)).contains(key),
{
    set.insert(key)
}

/// Calls `FxHashSet::default()`; trusted to hand back a set that holds no key.
#[verifier::external_body]
pub(crate) fn new_key_set<'a>() -> (set: FxHashSet<&'a str>)
    ensures
        key_set_contents(set) == Set::<Seq<char>>::empty(),
{
    FxHashSet::default()
}

/// Calls `HashSet::insert` on an `FxHashSet` of string slices; trusted to add
/// the characters of `key` to the contents and to answer `true` exactly when
/// no equal key was there before.
#[verifier::external_body]
pub(crate) fn insert_key<'a>(set: &mut FxHashSet<&'a str>, key: &'a str) -> (fresh: bool)
    ensures
        key_set_contents(*final(set)) == key_set_contents(*old(set)).insert(key@),
        fresh == !key_set_contents(*old(set)).contains(key@),
{
    set.insert(key)
}

} // verus!
