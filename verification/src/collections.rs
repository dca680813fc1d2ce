//! The persistent collections of the `im` crate that the remapping logic keeps
//! its indices in, with the contracts that the logic relies on.
use crate::axis::{LogIdx, VisIdx};
use crate::data::SortSpec;
use vstd::prelude::*;

verus! {

#[verifier::external_type_specification]
#[verifier::external_body]
#[verifier::reject_recursive_types(A)]
pub struct ExImVector<A>(im::Vector<A>);

#[verifier::external_type_specification]
#[verifier::external_body]
#[verifier::reject_recursive_types(K)]
#[verifier::reject_recursive_types(V)]
#[verifier::reject_recursive_types(S)]
pub struct ExImHashMap<K, V, S>(im::HashMap<K, V, S>);

/// `im::Vector::clone`: a copy sharing structure with the one copied; derived
/// `Clone` impls call it. What the copy holds is not stated here (the names
/// for the items are per item type).
pub assume_specification<A: Clone>[<im::Vector<A> as Clone>::clone](v: &im::Vector<A>) -> (r: im::Vector<A>);

/// `im::HashMap::clone`: a copy sharing structure with the one copied; derived
/// `Clone` impls call it. What the copy holds is not stated here (the names
/// for the entries are per entry type).
pub assume_specification<K: Clone, V: Clone, S>[<im::HashMap<K, V, S> as Clone>::clone](m: &im::HashMap<K, V, S>) -> (r: im::HashMap<K, V, S>);

/// The items of an `im::Vector` of data positions, front to back.
pub uninterp spec fn log_vector_items(v: im::Vector<LogIdx>) -> Seq<LogIdx>;

/// The items of an `im::Vector` of sort specifications, front to back.
pub uninterp spec fn sort_vector_items(v: im::Vector<SortSpec>) -> Seq<SortSpec>;

/// The entries of an `im::HashMap` from data positions to display positions.
pub uninterp spec fn log_map_entries(m: im::HashMap<LogIdx, VisIdx>) -> Map<LogIdx, VisIdx>;

/// `im::Vector::new`: an empty vector.
#[verifier::external_body]
pub(crate) fn log_vector_new() -> (r: im::Vector<LogIdx>)
    ensures
        log_vector_items(r) == Seq::<LogIdx>::empty(),
{
    im::Vector::new()
}

/// `im::Vector::push_back`: appends `value` at the back.
#[verifier::external_body]
pub(crate) fn log_vector_push_back(v: &mut im::Vector<LogIdx>, value: LogIdx)
    ensures
        log_vector_items(*final(v)) == log_vector_items(*old(v)).push(value),
{
    v.push_back(value)
}

/// `im::Vector::get`: the item at `index`, `None` past the end.
#[verifier::external_body]
pub(crate) fn log_vector_get(v: &im::Vector<LogIdx>, index: usize) -> (r: Option<LogIdx>)
    ensures
        r == (if index < log_vector_items(*v).len() {
            Some(log_vector_items(*v)[index as int])
        } else {
            None
        }),
{
    v.get(index).cloned()
}

/// `im::Vector::len`: the number of items.
#[verifier::external_body]
pub(crate) fn log_vector_len(v: &im::Vector<LogIdx>) -> (r: usize)
    ensures
        r == log_vector_items(*v).len(),
{
    v.len()
}

/// `im::Vector::new`: an empty vector.
#[verifier::external_body]
pub(crate) fn sort_vector_new() -> (r: im::Vector<SortSpec>)
    ensures
        sort_vector_items(r) == Seq::<SortSpec>::empty(),
{
    im::Vector::new()
}

/// `im::Vector::push_back`: appends `value` at the back.
#[verifier::external_body]
pub(crate) fn sort_vector_push_back(v: &mut im::Vector<SortSpec>, value: SortSpec)
    ensures
        sort_vector_items(*final(v)) == sort_vector_items(*old(v)).push(value),
{
    v.push_back(value)
}

/// `im::Vector::pop_back`: removes and returns the back item, `None` when empty.
#[verifier::external_body]
pub(crate) fn sort_vector_pop_back(v: &mut im::Vector<SortSpec>) -> (r: Option<SortSpec>)
    ensures
        sort_vector_items(*old(v)).len() == 0 ==> r.is_none() && sort_vector_items(*final(v)) == sort_vector_items(*old(v)),
        sort_vector_items(*old(v)).len() > 0 ==> r == Some(sort_vector_items(*old(v)).last())
            && sort_vector_items(*final(v)) == sort_vector_items(*old(v)).drop_last(),
{
    v.pop_back()
}

/// `im::Vector::last`: the back item, `None` when empty.
#[verifier::external_body]
pub(crate) fn sort_vector_last(v: &im::Vector<SortSpec>) -> (r: Option<SortSpec>)
    ensures
        r == (if sort_vector_items(*v).len() > 0 {
            Some(sort_vector_items(*v).last())
        } else {
            None
        }),
{
    v.last().cloned()
}

/// `im::Vector::clear`: removes every item.
#[verifier::external_body]
pub(crate) fn sort_vector_clear(v: &mut im::Vector<SortSpec>)
    ensures
        sort_vector_items(*final(v)) == Seq::<SortSpec>::empty(),
{
    v.clear()
}

/// `im::Vector::len`: the number of items.
#[verifier::external_body]
pub(crate) fn sort_vector_len(v: &im::Vector<SortSpec>) -> (r: usize)
    ensures
        r == sort_vector_items(*v).len(),
{
    v.len()
}

/// `im::Vector::get`: the item at `index`, `None` past the end.
#[verifier::external_body]
pub(crate) fn sort_vector_get(v: &im::Vector<SortSpec>, index: usize) -> (r: Option<SortSpec>)
    ensures
        r == (if index < sort_vector_items(*v).len() {
            Some(sort_vector_items(*v)[index as int])
        } else {
            None
        }),
{
    v.get(index).cloned()
}

/// `im::HashMap::new`: an empty map.
#[verifier::external_body]
pub(crate) fn log_map_new() -> (r: im::HashMap<LogIdx, VisIdx>)
    ensures
        log_map_entries(r) =~= Map::empty(),
{
    im::HashMap::new()
}

/// `im::HashMap::insert`: maps `key` to `value`, replacing an earlier value.
#[verifier::external_body]
pub(crate) fn log_map_insert(m: &mut im::HashMap<LogIdx, VisIdx>, key: LogIdx, value: VisIdx)
    ensures
        log_map_entries(*final(m)) == log_map_entries(*old(m)).insert(key, value),
{
    m.insert(key, value);
}

/// `im::HashMap::get`: the value mapped to `key`, if any.
#[verifier::external_body]
pub(crate) fn log_map_get(m: &im::HashMap<LogIdx, VisIdx>, key: &LogIdx) -> (r: Option<VisIdx>)
    ensures
        r == (if log_map_entries(*m).dom().contains(*key) {
            Some(log_map_entries(*m)[*key])
        } else {
            None
        }),
{
    m.get(key).cloned()
}

} // verus!
