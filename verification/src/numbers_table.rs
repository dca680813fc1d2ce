use crate::axis::LogIdx;
use crate::diff::IndexedData;
use vstd::prelude::*;

verus! {

/// A table whose rows are just their own data positions.
#[derive(Debug, Clone)]
pub struct LogIdxTable {
    rows: usize,
}

impl LogIdxTable {
    pub fn new(rows: usize) -> (r: Self)
        ensures
            r.row_count() == rows,
    {
        LogIdxTable { rows }
    }

    /// The number of rows.
    pub closed spec fn row_count(self) -> nat {
        self.rows as nat
    }
}

impl IndexedData for LogIdxTable {
    type Item = LogIdx;

    open spec fn known_len(&self) -> Option<nat> {
        Some(self.row_count())
    }

    fn with<V, F: FnOnce(&LogIdx) -> V>(&self, idx: LogIdx, f: F) -> (r: Option<V>)
        ensures
            r.is_some() == (idx.0 < self.row_count()),
            r matches Some(v) ==> f.ensures((&idx,), v),
    {
        if idx.0 < self.rows {
            Some(f(&idx))
        } else {
            None
        }
    }

    fn with_mut<V, F: FnOnce(&mut LogIdx) -> V>(&mut self, _idx: LogIdx, _f: F) -> (r: Option<V>)
        ensures
            r.is_none(),
            *final(self) == *old(self),
    {
        None
    }

    fn data_len(&self) -> (r: usize)
        ensures
            r == self.row_count(),
    {
        self.rows
    }
}

} // verus!
