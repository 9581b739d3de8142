//! The bidirectional map that holds the table, and what is taken on trust
//! about it.
//!
//! Nothing in this file is proved. The map is `BiHashMap` of the crate
//! `bimap`; each function below makes one call into that crate, and its
//! contract says what the call does to the pairs that the map holds.

use bimap::BiHashMap;
use vstd::prelude::*;

verus! {

/// `bimap::BiHashMap`, a map that can be searched from either side. Its
/// fields stay hidden; verified code knows it through [`held_pairs`] only.
#[verifier::external_type_specification]
#[verifier::external_body]
#[verifier::reject_recursive_types(L)]
#[verifier::reject_recursive_types(R)]
#[verifier::reject_recursive_types(LS)]
#[verifier::reject_recursive_types(RS)]
pub struct ExBiHashMap<L, R, LS, RS>(BiHashMap<L, R, LS, RS>);

/// The left-right pairs that a bimap of characters holds. The name has no
/// definition: the contracts below say how each call reads or changes it.
pub uninterp spec fn held_pairs(map: BiHashMap<char, char>) -> Set<(char, char)>;

/// The pairs after an insertion into `pairs`: those that share neither side
/// with the new pair, and the new pair.
pub open spec fn with_pair(pairs: Set<(char, char)>, left: char, right: char) -> Set<(char, char)> {
    pairs.filter(|p: (char, char)| p.0 != left && p.1 != right).insert((left, right))
}

/// `BiHashMap::new`: a bimap that holds no pair.
#[verifier::external_body]
pub(crate) fn empty_bimap() -> (map: BiHashMap<char, char>)
    ensures
        held_pairs(map) == Set::<(char, char)>::empty(),
{
    BiHashMap::new()
}

/// `BiHashMap::insert`: the map drops every pair whose left side is `left`
/// or whose right side is `right`, and then holds the new pair. What the
/// call returns, the pairs that it dropped, is not handed on.
#[verifier::external_body]
pub(crate) fn insert_pair(map: &mut BiHashMap<char, char>, left: char, right: char)
    ensures
        held_pairs(*final(map)) == with_pair(held_pairs(*old(map)), left, right),
{
    map.insert(left, right);
}

/// `BiHashMap::get_by_left`: the right side of a pair whose left side is
/// `left`, or `None` where the map holds no such pair.
#[verifier::external_body]
pub(crate) fn right_of(map: &BiHashMap<char, char>, left: char) -> (right: Option<char>)
    ensures
        match right {
            Some(r) => held_pairs(*map).contains((left, r)),
            None => forall|r: char| !held_pairs(*map).contains((left, r)),
        },
{
    map.get_by_left(&left).copied()
}

/// `BiHashMap::get_by_right`: the left side of a pair whose right side is
/// `right`, or `None` where the map holds no such pair.
#[verifier::external_body]
pub(crate) fn left_of(map: &BiHashMap<char, char>, right: char) -> (left: Option<char>)
    ensures
        match left {
            Some(l) => held_pairs(*map).contains((l, right)),
            None => forall|l: char| !held_pairs(*map).contains((l, right)),
        },
{
    map.get_by_right(&right).copied()
}

} // verus!
