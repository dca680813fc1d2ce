use crate::axis::TableAxis;
use vstd::prelude::*;

verus! {

/// How the lengths along an axis are kept.
#[derive(Copy, Clone, Debug, Hash, Ord, PartialOrd, Eq, PartialEq, Structural)]
pub enum AxisMeasurementType {
    /// One length for every position.
    Uniform,
    /// A length for each position: memory grows with the number of positions.
    Individual,
}

impl Default for AxisMeasurementType {
    fn default() -> (r: Self)
        ensures
            r == AxisMeasurementType::Individual,
    {
        AxisMeasurementType::Individual
    }
}

/// Which headings a table shows.
#[derive(Debug, Copy, Clone, Ord, PartialOrd, Eq, PartialEq, Structural)]
pub enum ShowHeadings {
    Both,
    One(TableAxis),
    JustCells,
}

impl ShowHeadings {
    /// Whether the headings along `a` are shown.
    pub open spec fn shows(self, a: TableAxis) -> bool {
        match self {
            ShowHeadings::Both => true,
            ShowHeadings::JustCells => false,
            ShowHeadings::One(ta) => ta == a,
        }
    }

    pub fn should_show(&self, a: &TableAxis) -> (r: bool)
        ensures
            r == self.shows(*a),
    {
        match self {
            ShowHeadings::Both => true,
            ShowHeadings::JustCells => false,
            ShowHeadings::One(ta) => *ta == *a,
        }
    }
}

} // verus!
