use std::fmt::Debug;
use vstd::prelude::*;

verus! {

/// The two axes of a table. `Rows` is the vertical axis (rows stack downwards),
/// `Columns` the horizontal one (columns go along horizontally).
#[derive(Debug, Clone, Copy, PartialEq, Eq, Structural, Ord, PartialOrd, Hash)]
pub enum TableAxis {
    Rows,
    Columns,
}

impl TableAxis {
    /// The other axis.
    pub open spec fn cross_spec(self) -> TableAxis {
        match self {
            TableAxis::Rows => TableAxis::Columns,
            TableAxis::Columns => TableAxis::Rows,
        }
    }

    pub fn cross_axis(&self) -> (r: TableAxis)
        ensures
            r == self.cross_spec(),
            r != *self,
            r.cross_spec() == *self,
    {
        match self {
            TableAxis::Rows => TableAxis::Columns,
            TableAxis::Columns => TableAxis::Rows,
        }
    }
}

/// A value for each axis; it acts as a map from `TableAxis`.
#[derive(Eq, PartialEq, Structural, Debug, Clone, Copy, Hash, Default)]
pub struct AxisPair<T> {
    pub row: T,
    pub col: T,
}

impl<T> AxisPair<T> {
    /// The value held for `axis`.
    pub open spec fn at(self, axis: TableAxis) -> T {
        match axis {
            TableAxis::Rows => self.row,
            TableAxis::Columns => self.col,
        }
    }

    /// The value held for `axis`.
    pub fn get(&self, axis: &TableAxis) -> (r: &T)
        ensures
            *r == self.at(*axis),
    {
        match axis {
            TableAxis::Rows => &self.row,
            TableAxis::Columns => &self.col,
        }
    }

    /// Replaces the value held for `axis`, leaving the other one as it was.
    pub fn set(&mut self, axis: &TableAxis, value: T)
        ensures
            final(self).at(*axis) == value,
            final(self).at(axis.cross_spec()) == old(self).at(axis.cross_spec()),
    {
        match axis {
            TableAxis::Rows => self.row = value,
            TableAxis::Columns => self.col = value,
        }
    }
}

impl<T: Copy + Debug + Default> AxisPair<T> {
    pub fn new(row: T, col: T) -> (r: AxisPair<T>)
        ensures
            r.row == row,
            r.col == col,
    {
        AxisPair { row, col }
    }

    /// A pair holding `main` for `axis` and `cross` for the other axis.
    pub fn new_for_axis(axis: &TableAxis, main: T, cross: T) -> (r: AxisPair<T>)
        ensures
            r.at(*axis) == main,
            r.at(axis.cross_spec()) == cross,
    {
        match axis {
            TableAxis::Rows => AxisPair { row: main, col: cross },
            TableAxis::Columns => AxisPair { row: cross, col: main },
        }
    }
}

impl<'a, T: Copy + Debug + Default> core::ops::Index<&'a TableAxis> for AxisPair<T> {
    type Output = T;

    fn index(&self, axis: &'a TableAxis) -> (r: &T)
        ensures
            *r == self.at(*axis),
    {
        match axis {
            TableAxis::Rows => &self.row,
            TableAxis::Columns => &self.col,
        }
    }
}

impl<'a, T: Copy + Debug + Default> core::ops::IndexMut<&'a TableAxis> for AxisPair<T> {
    fn index_mut(&mut self, axis: &'a TableAxis) -> (r: &mut T)
        ensures
            *r == old(self).at(*axis),
            final(self).at(*axis) == *final(r),
            final(self).at(axis.cross_spec()) == old(self).at(axis.cross_spec()),
    {
        match axis {
            TableAxis::Rows => &mut self.row,
            TableAxis::Columns => &mut self.col,
        }
    }
}

/// A position in display order along an axis.
#[derive(Clone, Copy, Debug, Ord, PartialOrd, Eq, PartialEq, Structural, Default, Hash)]
pub struct VisIdx(pub usize);

/// A signed distance between two positions in display order.
#[derive(Clone, Copy, Debug, Ord, PartialOrd, Eq, PartialEq, Structural, Default)]
pub struct VisOffset(pub isize);

/// A position in the underlying data along an axis.
#[derive(Clone, Copy, Debug, Ord, PartialOrd, Eq, PartialEq, Structural, Default, Hash)]
pub struct LogIdx(pub usize);

impl From<usize> for LogIdx {
    fn from(a: usize) -> (r: Self) {
        LogIdx(a)
    }
}

impl vstd::std_specs::convert::FromSpecImpl<usize> for LogIdx {
    open spec fn obeys_from_spec() -> bool {
        true
    }

    open spec fn from_spec(v: usize) -> LogIdx {
        LogIdx(v)
    }
}

impl From<LogIdx> for usize {
    fn from(a: LogIdx) -> (r: Self) {
        a.0
    }
}

impl vstd::std_specs::convert::FromSpecImpl<LogIdx> for usize {
    open spec fn obeys_from_spec() -> bool {
        true
    }

    open spec fn from_spec(v: LogIdx) -> usize {
        v.0
    }
}

/// Moving `idx` by `delta` positions stops at the first position.
pub open spec fn shifted(idx: int, delta: int) -> int {
    if idx + delta < 0 {
        0
    } else {
        idx + delta
    }
}

/// The offset can be applied without leaving the machine's signed range.
pub open spec fn offset_fits(idx: VisIdx, delta: int) -> bool {
    &&& idx.0 <= isize::MAX
    &&& isize::MIN <= idx.0 + delta <= isize::MAX
}

impl VisIdx {
    /// The positions `from_inc ..= to_inc`, in order.
    pub fn range_inc_iter(from_inc: VisIdx, to_inc: VisIdx) -> (r: Vec<VisIdx>)
        requires
            to_inc.0 - from_inc.0 < usize::MAX,
        ensures
            r@.len() == (if from_inc.0 <= to_inc.0 { to_inc.0 - from_inc.0 + 1 } else { 0 }),
            forall|i: int| 0 <= i < r@.len() ==> #[trigger] r@[i] == VisIdx((from_inc.0 + i) as usize),
    {
        let mut r: Vec<VisIdx> = Vec::new();
        if from_inc.0 > to_inc.0 {
            return r;
        }
        let mut i: usize = from_inc.0;
        loop
            invariant_except_break
                from_inc.0 <= i <= to_inc.0,
                r@.len() == i - from_inc.0,
            invariant
                forall|k: int| 0 <= k < r@.len() ==> #[trigger] r@[k] == VisIdx((from_inc.0 + k) as usize),
            ensures
                r@.len() == to_inc.0 - from_inc.0 + 1,
                forall|k: int| 0 <= k < r@.len() ==> #[trigger] r@[k] == VisIdx((from_inc.0 + k) as usize),
            decreases to_inc.0 - i,
        {
            r.push(VisIdx(i));
            if i == to_inc.0 {
                break;
            }
            i = i + 1;
        }
        r
    }

    /// The two positions, smaller first.
    pub fn ascending(a: VisIdx, b: VisIdx) -> (r: (VisIdx, VisIdx))
        ensures
            r.0.0 <= r.1.0,
            (r == (a, b)) || (r == (b, a)),
            a.0 < b.0 ==> r == (a, b),
    {
        if a.0 < b.0 {
            (a, b)
        } else {
            (b, a)
        }
    }

    /// The position `delta` further along, stopping at the first position.
    pub fn offset_by(self, delta: VisOffset) -> (r: VisIdx)
        requires
            offset_fits(self, delta.0 as int),
        ensures
            r.0 == shifted(self.0 as int, delta.0 as int),
    {
        let s = self.0 as isize;
        let sum = s + delta.0;
        if sum < 0 {
            VisIdx(0)
        } else {
            VisIdx(sum as usize)
        }
    }

    /// The position `delta` further back, stopping at the first position.
    pub fn offset_back_by(self, delta: VisOffset) -> (r: VisIdx)
        requires
            offset_fits(self, -(delta.0 as int)),
        ensures
            r.0 == shifted(self.0 as int, -(delta.0 as int)),
    {
        let s = self.0 as isize;
        let diff = s - delta.0;
        if diff < 0 {
            VisIdx(0)
        } else {
            VisIdx(diff as usize)
        }
    }

    /// The signed distance from `other` to `self`.
    pub fn offset_from(self, other: VisIdx) -> (r: VisOffset)
        requires
            self.0 <= isize::MAX,
            other.0 <= isize::MAX,
        ensures
            r.0 == self.0 - other.0,
    {
        VisOffset((self.0 as isize) - (other.0 as isize))
    }
}

impl core::ops::Add<VisOffset> for VisIdx {
    type Output = VisIdx;

    fn add(self, rhs: VisOffset) -> (r: VisIdx) {
        self.offset_by(rhs)
    }
}

impl vstd::std_specs::ops::AddSpecImpl<VisOffset> for VisIdx {
    open spec fn obeys_add_spec() -> bool {
        true
    }

    open spec fn add_req(self, rhs: VisOffset) -> bool {
        offset_fits(self, rhs.0 as int)
    }

    open spec fn add_spec(self, rhs: VisOffset) -> VisIdx {
        VisIdx(shifted(self.0 as int, rhs.0 as int) as usize)
    }
}

impl core::ops::Sub<VisOffset> for VisIdx {
    type Output = VisIdx;

    fn sub(self, rhs: VisOffset) -> (r: VisIdx) {
        self.offset_back_by(rhs)
    }
}

impl vstd::std_specs::ops::SubSpecImpl<VisOffset> for VisIdx {
    open spec fn obeys_sub_spec() -> bool {
        true
    }

    open spec fn sub_req(self, rhs: VisOffset) -> bool {
        offset_fits(self, -(rhs.0 as int))
    }

    open spec fn sub_spec(self, rhs: VisOffset) -> VisIdx {
        VisIdx(shifted(self.0 as int, -(rhs.0 as int)) as usize)
    }
}

impl core::ops::Sub<VisIdx> for VisIdx {
    type Output = VisOffset;

    fn sub(self, rhs: VisIdx) -> (r: VisOffset) {
        self.offset_from(rhs)
    }
}

impl vstd::std_specs::ops::SubSpecImpl<VisIdx> for VisIdx {
    open spec fn obeys_sub_spec() -> bool {
        true
    }

    open spec fn sub_req(self, rhs: VisIdx) -> bool {
        self.0 <= isize::MAX && rhs.0 <= isize::MAX
    }

    open spec fn sub_spec(self, rhs: VisIdx) -> VisOffset {
        VisOffset((self.0 - rhs.0) as isize)
    }
}

/// Moving a position forward and then back by the same distance returns to
/// it, when the first move does not stop at the first position.
pub proof fn law_offset_round_trip(idx: int, delta: int)
    requires
        idx >= 0,
        idx + delta >= 0,
    ensures
        shifted(shifted(idx, delta), -delta) == idx,
{
}

impl AxisPair<VisIdx> {
    /// The same cell address moved by `amount` along `axis`.
    pub fn move_by(&self, axis: &TableAxis, amount: VisOffset) -> (r: AxisPair<VisIdx>)
        requires
            offset_fits(self.at(*axis), amount.0 as int),
        ensures
            r.at(*axis).0 == shifted(self.at(*axis).0 as int, amount.0 as int),
            r.at(axis.cross_spec()) == self.at(axis.cross_spec()),
    {
        let mut moved = *self;
        let cur = *self.get(axis);
        moved.set(axis, cur.offset_by(amount));
        moved
    }
}

} // verus!
