use crate::bout::Bout;
use indexmap::IndexMap;
use vstd::prelude::*;

verus! {

#[verifier::external_type_specification]
#[verifier::external_body]
#[verifier::reject_recursive_types(K)]
#[verifier::reject_recursive_types(V)]
#[verifier::reject_recursive_types(S)]
pub struct ExIndexMap<K, V, S>(IndexMap<K, V, S>);

/// The bout map of a pool: a key is a pair of fencer positions, lower first.
pub type BoutMap = IndexMap<(usize, usize), Bout>;

/// What a bout map holds, in its order of insertion.
pub uninterp spec fn bout_entries(m: BoutMap) -> Seq<((usize, usize), Bout)>;

/// No two entries share a key.
pub open spec fn unique_keys(e: Seq<((usize, usize), Bout)>) -> bool {
    forall|i: int, j: int| 0 <= i < e.len() && 0 <= j < e.len() && i != j ==> #[trigger] e[i].0 != #[trigger] e[j].0
}

/// Relies on `IndexMap::new`: a new map is empty.
#[verifier::external_body]
pub(crate) fn new_bout_map() -> (r: BoutMap)
    ensures
        bout_entries(r) == Seq::<((usize, usize), Bout)>::empty(),
{
    IndexMap::new()
}

/// Relies on `IndexMap::insert`: a key already present keeps its place and
/// takes the new value, whose predecessor is returned; a new key goes last.
/// Keys stay unique.
#[verifier::external_body]
pub(crate) fn insert_bout(m: &mut BoutMap, key: (usize, usize), bout: Bout) -> (r: Option<Bout>)
    ensures
        unique_keys(bout_entries(*old(m))) ==> unique_keys(bout_entries(*final(m))),
        forall|i: int|
            0 <= i < bout_entries(*old(m)).len() && (#[trigger] bout_entries(*old(m))[i]).0 == key
                ==> r == Some(bout_entries(*old(m))[i].1) && bout_entries(*final(m)) == bout_entries(
                *old(m),
            ).update(i, (key, bout)),
        (forall|i: int| 0 <= i < bout_entries(*old(m)).len() ==> (#[trigger] bout_entries(*old(m))[i]).0 != key)
            ==> r is None && bout_entries(*final(m)) == bout_entries(*old(m)).push((key, bout)),
{
    m.insert(key, bout)
}

/// Relies on `IndexMap::get_index_of`: the place of the entry with `key`.
#[verifier::external_body]
pub(crate) fn bout_index_of(m: &BoutMap, key: (usize, usize)) -> (r: Option<usize>)
    ensures
        r matches Some(i) ==> i < bout_entries(*m).len() && bout_entries(*m)[i as int].0 == key,
        r is None ==> forall|i: int| 0 <= i < bout_entries(*m).len() ==> (#[trigger] bout_entries(*m)[i]).0 != key,
{
    m.get_index_of(&key)
}

/// Relies on `IndexMap::get_index`: the entry at place `index`.
#[verifier::external_body]
pub(crate) fn bout_at(m: &BoutMap, index: usize) -> (r: Option<((usize, usize), Bout)>)
    ensures
        index < bout_entries(*m).len() ==> r == Some(bout_entries(*m)[index as int]),
        index >= bout_entries(*m).len() ==> r is None,
{
    m.get_index(index).map(|(k, b)| (*k, *b))
}

/// Relies on `IndexMap::len`: the number of entries.
#[verifier::external_body]
pub(crate) fn bout_count(m: &BoutMap) -> (r: usize)
    ensures
        r == bout_entries(*m).len(),
{
    m.len()
}

} // verus!
