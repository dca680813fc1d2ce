use crate::axis::LogIdx;
use std::collections::HashMap;
use std::hash::Hash;
use vstd::prelude::*;
use vstd::std_specs::convert::FromSpec;
use vstd::std_specs::hash::obeys_key_model;

verus! {

/// A data series.
#[derive(Debug, Copy, Clone, Eq, PartialEq, Structural, Hash, Ord, PartialOrd)]
pub struct SeriesId(pub usize);

/// One datum: its series and its position in the data.
#[derive(Debug, Copy, Clone, Eq, PartialEq, Structural, Hash, Ord, PartialOrd)]
pub struct DatumId {
    pub series: SeriesId,
    pub idx: LogIdx,
}

impl DatumId {
    pub fn new(series: SeriesId, idx: LogIdx) -> (r: Self)
        ensures
            r.series == series,
            r.idx == idx,
    {
        DatumId { series, idx }
    }
}

/// The name of an axis of a visualisation.
#[derive(Debug, Copy, Clone, Eq, PartialEq, Hash, Ord, PartialOrd)]
pub struct AxisName(pub &'static str);

/// Where a tick stands on an axis.
#[derive(Debug, Copy, Clone, Eq, PartialEq, Structural, Hash, Ord, PartialOrd)]
pub enum TickLocator {
    Ordinal(usize),
    Persistent(usize),
    U64Bits(u64),
}

/// The name of a state that marks can be drawn for.
#[derive(Copy, Clone, Debug, Eq, PartialEq, Hash, Ord, PartialOrd)]
pub struct StateName(pub &'static str);

/// What a mark of a visualisation stands for.
#[derive(Debug, Copy, Clone, Eq, PartialEq, Hash, Ord, PartialOrd)]
pub enum MarkId {
    Datum(DatumId),
    AxisDomain(AxisName),
    Tick(AxisName, TickLocator),
    TickText(AxisName, TickLocator),
    StateMark(StateName, u32),
}

/// Gives each value seen an id that stays with it: the number of values
/// seen before it.
pub struct OffsetSource<T, Id> {
    val_to_id: HashMap<T, Id>,
}

impl<T, Id> OffsetSource<T, Id> {
    /// The id given to each value seen.
    pub closed spec fn ids(self) -> Map<T, Id> {
        self.val_to_id@
    }
}

impl<T: Hash + Eq, Id> Default for OffsetSource<T, Id> {
    fn default() -> (r: Self)
        ensures
            r.ids() == Map::<T, Id>::empty(),
    {
        OffsetSource { val_to_id: HashMap::new() }
    }
}

impl<T: Clone + Hash + Eq, Id: From<usize> + Into<usize> + Clone> OffsetSource<T, Id> {
    /// The keys and ids whose hashing, equality and cloning behave as their
    /// specifications say: keys hash and compare by value, and a clone of a
    /// key or an id equals it.
    pub open spec fn values_behave() -> bool {
        &&& obeys_key_model::<T>()
        &&& forall|a: T, b: T| vstd::pervasive::cloned(a, b) ==> a == b
        &&& forall|a: Id, b: Id| vstd::pervasive::cloned(a, b) ==> a == b
    }

    /// The id of `item`: the one it was given before, or, for a value not
    /// seen before, a new one made from the number of values seen so far.
    /// Stated for keys and ids that behave (see `values_behave`); that the
    /// new id is `from_spec` of that number is stated where the id type
    /// specifies its `from`.
    pub fn offset(&mut self, item: &T) -> (r: Id)
        ensures
            Self::values_behave() ==> {
                &&& old(self).ids().contains_key(*item) ==> r == old(self).ids()[*item] && final(self).ids() == old(
                    self,
                ).ids()
                &&& !old(self).ids().contains_key(*item) ==> final(self).ids() == old(self).ids().insert(*item, r)
            },
            Self::values_behave() && Id::obeys_from_spec() && !old(self).ids().contains_key(*item) ==> r
                == Id::from_spec(old(self).ids().len() as usize),
    {
        broadcast use vstd::std_specs::hash::axiom_random_state_builds_valid_hashers;
        broadcast use vstd::std_specs::hash::axiom_spec_hash_map_len;

        let ghost before = self.val_to_id@;
        let len = self.val_to_id.len();
        let next: Id = Id::from(len);
        let key = item.clone();
        assert(vstd::pervasive::cloned(*item, key));
        let slot = self.val_to_id.entry(key).or_insert(next);
        let r = slot.clone();
        assert(vstd::pervasive::cloned(*slot, r));
        proof {
            if before.contains_key(*item) {
                assert(before.insert(*item, before[*item]) =~= before);
            }
        }
        r
    }
}

/// Each value seen has an id below the number of values seen, and no two
/// values share an id.
pub open spec fn dense_ids<T>(ids: Map<T, usize>) -> bool {
    &&& ids.dom().finite()
    &&& forall|k: T| #[trigger] ids.contains_key(k) ==> (ids[k] as int) < ids.len()
    &&& forall|a: T, b: T| #[trigger] ids.contains_key(a) && #[trigger] ids.contains_key(b) && a != b ==> ids[a] != ids[b]
}

/// `offset` keeps the ids dense: after a value is given its id (as the
/// contract of `offset` states, with ids made by a specified `from`), the value keeps that id,
/// the ids are still distinct and below the number of values seen.
pub proof fn law_offsets_stay_dense<T>(before: Map<T, usize>, after: Map<T, usize>, item: T, id: usize)
    requires
        dense_ids(before),
        before.contains_key(item) ==> id == before[item] && after == before,
        !before.contains_key(item) ==> id == before.len() && after == before.insert(item, id),
    ensures
        dense_ids(after),
        after.contains_key(item),
        after[item] == id,
{
    if !before.contains_key(item) {
        assert(after.dom() =~= before.dom().insert(item));
        assert(after.len() == before.len() + 1);
        assert forall|k: T| #[trigger] after.contains_key(k) implies (after[k] as int) < after.len() by {
            if k != item {
                assert(before.contains_key(k));
            }
        }
        assert forall|a: T, b: T| #[trigger] after.contains_key(a) && #[trigger] after.contains_key(b) && a != b implies after[a] != after[b] by {
            if a != item && b != item {
                assert(before.contains_key(a) && before.contains_key(b));
            } else if a == item {
                assert(before.contains_key(b));
            } else {
                assert(before.contains_key(a));
            }
        }
    }
}

/// Makes band scales for one axis, keeping the ids of the bands from one
/// scale to the next.
pub struct BandScaleFactory<T> {
    pub name: AxisName,
    pub offset_source: OffsetSource<T, usize>,
}

impl<T: Clone + Ord + Hash> BandScaleFactory<T> {
    pub fn new(name: AxisName) -> (r: Self)
        ensures
            r.name == name,
            r.offset_source.ids() == Map::<T, usize>::empty(),
    {
        BandScaleFactory { name, offset_source: OffsetSource::default() }
    }
}

} // verus!
