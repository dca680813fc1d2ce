use crate::axis::{offset_fits, shifted, AxisPair, LogIdx, TableAxis, VisIdx, VisOffset};
use vstd::prelude::*;

verus! {

/// One cell, addressed both in display order and in the underlying data.
#[derive(Debug, Clone, Copy, Eq, PartialEq, Structural)]
pub struct SingleCell {
    pub vis: AxisPair<VisIdx>,
    pub log: AxisPair<LogIdx>,
}

impl SingleCell {
    pub fn new(vis: AxisPair<VisIdx>, log: AxisPair<LogIdx>) -> (r: Self)
        ensures
            r.vis == vis,
            r.log == log,
    {
        SingleCell { vis, log }
    }
}

/// A whole row or column: the slice along `axis` through the focused cell.
#[derive(Debug, Clone, Copy, Eq, PartialEq, Structural)]
pub struct SingleSlice {
    pub axis: TableAxis,
    pub focus: SingleCell,
}

impl SingleSlice {
    pub fn new(axis: TableAxis, focus: SingleCell) -> (r: Self)
        ensures
            r.axis == axis,
            r.focus == focus,
    {
        SingleSlice { axis, focus }
    }
}

/// What is selected along one axis.
#[derive(Debug, Clone, Copy)]
pub enum IndicesSelection {
    NoSelection,
    Single(VisIdx, LogIdx),
}

impl IndicesSelection {
    pub open spec fn selects(self, vis_idx: VisIdx) -> bool {
        match self {
            IndicesSelection::Single(sel_vis, _) => sel_vis == vis_idx,
            IndicesSelection::NoSelection => false,
        }
    }

    pub fn vis_index_selected(&self, vis_idx: VisIdx) -> (r: bool)
        ensures
            r == self.selects(vis_idx),
    {
        match self {
            IndicesSelection::Single(sel_vis, _) => sel_vis.0 == vis_idx.0,
            IndicesSelection::NoSelection => false,
        }
    }
}

/// What is selected in the table.
#[derive(Debug, Clone, Copy)]
pub enum TableSelection {
    NoSelection,
    SingleCell(SingleCell),
    SingleSlice(SingleSlice),
}

/// Maps display positions to positions in the data, per axis.
pub trait CellDemap {
    /// The data position shown at `vis` along `axis`, if any.
    spec fn log_idx_of(&self, axis: TableAxis, vis: VisIdx) -> Option<LogIdx>;

    fn get_log_idx(&self, axis: TableAxis, vis: &VisIdx) -> (r: Option<LogIdx>)
        ensures
            r == self.log_idx_of(axis, *vis),
    ;

    /// The data address of the cell shown at `vis`, when both axes map it.
    fn get_log_cell(&self, vis: &AxisPair<VisIdx>) -> (r: Option<AxisPair<LogIdx>>)
        ensures
            r == (match (self.log_idx_of(TableAxis::Rows, vis.row), self.log_idx_of(TableAxis::Columns, vis.col)) {
                (Some(row), Some(col)) => Some(AxisPair { row, col }),
                _ => None,
            }),
    {
        match self.get_log_idx(TableAxis::Rows, &vis.row) {
            Some(row) => match self.get_log_idx(TableAxis::Columns, &vis.col) {
                Some(col) => Some(AxisPair { row, col }),
                None => None,
            },
            None => None,
        }
    }
}

/// The data address of the cell shown at `vis`, when both axes map it.
pub open spec fn log_cell_of<D: CellDemap + ?Sized>(d: &D, vis: AxisPair<VisIdx>) -> Option<AxisPair<LogIdx>> {
    match (d.log_idx_of(TableAxis::Rows, vis.row), d.log_idx_of(TableAxis::Columns, vis.col)) {
        (Some(row), Some(col)) => Some(AxisPair { row, col }),
        _ => None,
    }
}

/// A rule that derives a new selection from the current one.
pub trait TableSelectionMod {
    fn new_selection(&self, sel: &TableSelection) -> Option<TableSelection>;
}

/// How a cell relates to the current selection.
#[derive(Debug, PartialEq, Eq, Structural, Clone, Copy)]
pub enum SelectionStatus {
    NotSelected,
    Primary,
    AlsoSelected,
}

impl From<SelectionStatus> for bool {
    fn from(ss: SelectionStatus) -> (r: Self) {
        ss != SelectionStatus::NotSelected
    }
}

impl vstd::std_specs::convert::FromSpecImpl<SelectionStatus> for bool {
    open spec fn obeys_from_spec() -> bool {
        true
    }

    open spec fn from_spec(v: SelectionStatus) -> bool {
        v != SelectionStatus::NotSelected
    }
}

impl From<SingleCell> for TableSelection {
    fn from(sc: SingleCell) -> (r: Self) {
        TableSelection::SingleCell(sc)
    }
}

impl vstd::std_specs::convert::FromSpecImpl<SingleCell> for TableSelection {
    open spec fn obeys_from_spec() -> bool {
        true
    }

    open spec fn from_spec(v: SingleCell) -> TableSelection {
        TableSelection::SingleCell(v)
    }
}

/// The selection of the single cell shown at `vis`, when it maps to data.
pub open spec fn cell_selection_at<D: CellDemap>(d: &D, vis: AxisPair<VisIdx>) -> Option<TableSelection> {
    match log_cell_of(d, vis) {
        Some(log) => Some(TableSelection::SingleCell(SingleCell { vis, log })),
        None => None,
    }
}

/// `vis` moved by `amount` along `axis`, stopping at the first position.
pub open spec fn moved_cell(vis: AxisPair<VisIdx>, axis: TableAxis, amount: VisOffset) -> AxisPair<VisIdx> {
    match axis {
        TableAxis::Rows => AxisPair { row: VisIdx(shifted(vis.row.0 as int, amount.0 as int) as usize), col: vis.col },
        TableAxis::Columns => AxisPair { row: vis.row, col: VisIdx(shifted(vis.col.0 as int, amount.0 as int) as usize) },
    }
}

impl TableSelection {
    /// The focused cell of the selection, in display order.
    pub open spec fn focus_spec(self) -> Option<AxisPair<VisIdx>> {
        match self {
            TableSelection::NoSelection => None,
            TableSelection::SingleCell(sc) => Some(sc.vis),
            TableSelection::SingleSlice(sl) => Some(sl.focus.vis),
        }
    }

    /// The moves that keep the focus inside the machine's signed range.
    pub open spec fn can_move(self, axis: TableAxis, amount: VisOffset) -> bool {
        match self {
            TableSelection::SingleCell(sc) => offset_fits(sc.vis.at(axis), amount.0 as int),
            _ => true,
        }
    }

    /// The selection that a focus move by `amount` along `axis` gives.
    pub open spec fn moved_focus<D: CellDemap>(self, axis: TableAxis, amount: VisOffset, d: &D) -> Option<TableSelection> {
        match self {
            TableSelection::NoSelection => cell_selection_at(d, AxisPair { row: VisIdx(0), col: VisIdx(0) }),
            TableSelection::SingleCell(sc) => cell_selection_at(d, moved_cell(sc.vis, axis, amount)),
            TableSelection::SingleSlice(_) => Some(self),
        }
    }

    /// The slice along `axis` through the focus, when the focus maps to data.
    pub open spec fn extended<D: CellDemap>(self, axis: TableAxis, d: &D) -> Option<TableSelection> {
        match self.focus_spec() {
            Some(vis) => match log_cell_of(d, vis) {
                Some(log) => Some(TableSelection::SingleSlice(SingleSlice { axis, focus: SingleCell { vis, log } })),
                None => None,
            },
            None => None,
        }
    }

    /// The selection whose far end moved to `cell`; `None` when nothing changes.
    pub open spec fn with_extent(self, cell: SingleCell) -> Option<TableSelection> {
        if self.focus_spec() == Some(cell.vis) {
            None
        } else {
            Some(TableSelection::SingleCell(cell))
        }
    }

    /// Moves the focus: no selection focuses the origin cell, a single cell
    /// moves by `amount` along `axis`, a slice stays as it is. `None` when the
    /// new cell does not map to data.
    pub fn move_focus<D: CellDemap>(&self, axis: &TableAxis, amount: VisOffset, cell_demap: &D) -> (r: Option<TableSelection>)
        requires
            self.can_move(*axis, amount),
        ensures
            r == self.moved_focus(*axis, amount, cell_demap),
    {
        match self {
            TableSelection::NoSelection => {
                let vis_origin = AxisPair::new(VisIdx(0), VisIdx(0));
                match cell_demap.get_log_cell(&vis_origin) {
                    Some(log) => Some(TableSelection::SingleCell(SingleCell::new(vis_origin, log))),
                    None => None,
                }
            },
            TableSelection::SingleCell(sc) => {
                let new_vis = sc.vis.move_by(axis, amount);
                assert(new_vis == moved_cell(sc.vis, *axis, amount));
                match cell_demap.get_log_cell(&new_vis) {
                    Some(log) => Some(TableSelection::SingleCell(SingleCell::new(new_vis, log))),
                    None => None,
                }
            },
            TableSelection::SingleSlice(_) => Some(*self),
        }
    }

    /// Widens the selection to the whole slice along `axis` through the focus.
    pub fn extend_in_axis<D: CellDemap>(&self, axis: TableAxis, cell_demap: &D) -> (r: Option<TableSelection>)
        ensures
            r == self.extended(axis, cell_demap),
    {
        match self.focus() {
            Some(vis_focus) => match cell_demap.get_log_cell(vis_focus) {
                Some(log_focus) => Some(
                    TableSelection::SingleSlice(SingleSlice::new(axis, SingleCell::new(*vis_focus, log_focus))),
                ),
                None => None,
            },
            None => None,
        }
    }

    /// The focused cell of the selection, in display order.
    pub fn focus(&self) -> (r: Option<&AxisPair<VisIdx>>)
        ensures
            match r {
                Some(v) => self.focus_spec() == Some(*v),
                None => self.focus_spec().is_none(),
            },
    {
        match self {
            TableSelection::NoSelection => None,
            TableSelection::SingleCell(sc) => Some(&sc.vis),
            TableSelection::SingleSlice(sl) => Some(&sl.focus.vis),
        }
    }

    /// Whether the selection has a focused cell.
    pub fn has_focus(&self) -> (r: bool)
        ensures
            r == self.focus_spec().is_some(),
    {
        match self {
            TableSelection::NoSelection => false,
            _ => true,
        }
    }

    /// The selection after `cell` is added to it. A selection here is one
    /// region, so the added cell becomes the whole selection.
    pub fn add_selection(&self, cell: SingleCell) -> (r: Option<TableSelection>)
        ensures
            r == Some(TableSelection::SingleCell(cell)),
    {
        Some(TableSelection::SingleCell(cell))
    }

    /// The selection after its far end is moved to `cell`, its focus staying
    /// where it is. A selection here is one region that starts at its focus,
    /// so the far end can only be the focus itself: a `cell` elsewhere
    /// becomes the new selection, and the focus's own cell changes nothing.
    pub fn move_extent(&self, cell: SingleCell) -> (r: Option<TableSelection>)
        ensures
            r == self.with_extent(cell),
    {
        match self.focus() {
            Some(vis) => {
                if vis.row.0 == cell.vis.row.0 && vis.col.0 == cell.vis.col.0 {
                    None
                } else {
                    Some(TableSelection::SingleCell(cell))
                }
            },
            None => Some(TableSelection::SingleCell(cell)),
        }
    }

    /// Whether the whole heading at `idx` along `axis` is selected: the
    /// selection is the slice along `axis` through that position.
    pub open spec fn selects_heading(self, axis: TableAxis, idx: VisIdx) -> bool {
        match self {
            TableSelection::SingleSlice(sl) => sl.axis == axis && sl.focus.vis.at(axis) == idx,
            _ => false,
        }
    }

    pub fn fully_selects_heading(&self, axis: TableAxis, idx: VisIdx) -> (r: bool)
        ensures
            r == self.selects_heading(axis, idx),
    {
        match self {
            TableSelection::SingleSlice(sl) => sl.axis == axis && sl.focus.vis.get(&axis).0 == idx.0,
            _ => false,
        }
    }

    /// The cell that a slice through heading `idx` along `axis` focuses: it
    /// keeps the cross position of the current focus, or the first one.
    pub open spec fn heading_focus(self, axis: TableAxis, idx: VisIdx) -> AxisPair<VisIdx> {
        let cross = match self.focus_spec() {
            Some(vis) => vis.at(axis.cross_spec()),
            None => VisIdx(0),
        };
        match axis {
            TableAxis::Rows => AxisPair { row: idx, col: cross },
            TableAxis::Columns => AxisPair { row: cross, col: idx },
        }
    }

    /// Selects the whole heading at `idx` along `axis`. `None` when the
    /// focused cell of that slice does not map to data.
    pub fn select_in_axis<D: CellDemap>(&self, axis: TableAxis, idx: VisIdx, cell_demap: &D) -> (r: Option<TableSelection>)
        ensures
            r == (match log_cell_of(cell_demap, self.heading_focus(axis, idx)) {
                Some(log) => Some(TableSelection::SingleSlice(
                    SingleSlice { axis, focus: SingleCell { vis: self.heading_focus(axis, idx), log } },
                )),
                None => None,
            }),
            r matches Some(s) ==> s.selects_heading(axis, idx),
    {
        let cross_axis = axis.cross_axis();
        let cross = match self.focus() {
            Some(vis) => *vis.get(&cross_axis),
            None => VisIdx(0),
        };
        let vis = AxisPair::new_for_axis(&axis, idx, cross);
        assert(vis == self.heading_focus(axis, idx));
        match cell_demap.get_log_cell(&vis) {
            Some(log) => Some(TableSelection::SingleSlice(SingleSlice::new(axis, SingleCell::new(vis, log)))),
            None => None,
        }
    }

    /// What the selection selects along `for_axis`.
    pub open spec fn axis_selection_spec(self, for_axis: TableAxis) -> IndicesSelection {
        match self {
            TableSelection::NoSelection => IndicesSelection::NoSelection,
            TableSelection::SingleCell(sc) => IndicesSelection::Single(sc.vis.at(for_axis), sc.log.at(for_axis)),
            TableSelection::SingleSlice(sl) => if sl.axis == for_axis {
                IndicesSelection::Single(sl.focus.vis.at(for_axis), sl.focus.log.at(for_axis))
            } else {
                IndicesSelection::NoSelection
            },
        }
    }

    pub fn to_axis_selection(&self, for_axis: &TableAxis) -> (r: IndicesSelection)
        ensures
            r == self.axis_selection_spec(*for_axis),
    {
        match self {
            TableSelection::NoSelection => IndicesSelection::NoSelection,
            TableSelection::SingleCell(sc) => IndicesSelection::Single(*sc.vis.get(for_axis), *sc.log.get(for_axis)),
            TableSelection::SingleSlice(sl) => {
                if *for_axis == sl.axis {
                    IndicesSelection::Single(*sl.focus.vis.get(&sl.axis), *sl.focus.log.get(&sl.axis))
                } else {
                    IndicesSelection::NoSelection
                }
            },
        }
    }

    /// How the cell at `address` relates to the selection.
    pub open spec fn cell_status_spec(self, address: AxisPair<VisIdx>) -> SelectionStatus {
        match self {
            TableSelection::SingleCell(sc) => if address == sc.vis {
                SelectionStatus::Primary
            } else {
                SelectionStatus::NotSelected
            },
            TableSelection::SingleSlice(sl) => if sl.focus.vis == address {
                SelectionStatus::Primary
            } else if sl.focus.vis.at(sl.axis) == address.at(sl.axis) {
                SelectionStatus::AlsoSelected
            } else {
                SelectionStatus::NotSelected
            },
            TableSelection::NoSelection => SelectionStatus::NotSelected,
        }
    }

    pub fn get_cell_status(&self, address: &AxisPair<VisIdx>) -> (r: SelectionStatus)
        ensures
            r == self.cell_status_spec(*address),
            (r == SelectionStatus::Primary) <==> (self.focus_spec() == Some(*address)),
    {
        match self {
            TableSelection::SingleCell(sc) => {
                if *address == sc.vis {
                    SelectionStatus::Primary
                } else {
                    SelectionStatus::NotSelected
                }
            },
            TableSelection::SingleSlice(sl) => {
                if sl.focus.vis == *address {
                    SelectionStatus::Primary
                } else if sl.focus.vis.get(&sl.axis).0 == address.get(&sl.axis).0 {
                    SelectionStatus::AlsoSelected
                } else {
                    SelectionStatus::NotSelected
                }
            },
            TableSelection::NoSelection => SelectionStatus::NotSelected,
        }
    }
}

/// Moving the focused cell along an axis and back by the same amount
/// selects the cell it started from again, when the first move does not
/// stop at the first position.
pub proof fn law_move_focus_back<D: CellDemap>(d: &D, vis: AxisPair<VisIdx>, axis: TableAxis, amount: VisOffset)
    requires
        vis.at(axis).0 + amount.0 >= 0,
        offset_fits(vis.at(axis), amount.0 as int),
        amount.0 > isize::MIN,
    ensures
        moved_cell(moved_cell(vis, axis, amount), axis, VisOffset(-amount.0 as isize)) == vis,
        cell_selection_at(d, moved_cell(moved_cell(vis, axis, amount), axis, VisOffset(-amount.0 as isize)))
            == cell_selection_at(d, vis),
{
    let there = moved_cell(vis, axis, amount);
    let back = moved_cell(there, axis, VisOffset(-amount.0 as isize));
    assert(there.at(axis).0 == vis.at(axis).0 + amount.0);
    assert(back.at(axis).0 == vis.at(axis).0);
}

/// Widening a selection to a slice along an axis selects exactly the cells
/// in the focus's line along that axis: the focus itself as the primary
/// cell, the others as also selected.
pub proof fn law_slice_selects_line(sel: TableSelection, axis: TableAxis, log: AxisPair<LogIdx>, address: AxisPair<VisIdx>)
    requires
        sel.focus_spec() is Some,
    ensures
        ({
            let vis = sel.focus_spec().unwrap();
            let slice = TableSelection::SingleSlice(SingleSlice { axis, focus: SingleCell { vis, log } });
            &&& (slice.cell_status_spec(address) == SelectionStatus::Primary) <==> address == vis
            &&& (slice.cell_status_spec(address) != SelectionStatus::NotSelected) <==> address.at(axis) == vis.at(axis)
        }),
{
    let vis = sel.focus_spec().unwrap();
    if address.at(axis) != vis.at(axis) {
        assert(address != vis);
    }
}


/// With a single cell selected, exactly that cell shows as selected, and as
/// the primary one; every other cell, in its row, its column or elsewhere,
/// is not selected.
pub proof fn law_single_cell_status(sc: SingleCell, address: AxisPair<VisIdx>)
    ensures
        (TableSelection::SingleCell(sc).cell_status_spec(address) != SelectionStatus::NotSelected) <==> address
            == sc.vis,
        TableSelection::SingleCell(sc).cell_status_spec(address) != SelectionStatus::AlsoSelected,
        address == sc.vis ==> TableSelection::SingleCell(sc).cell_status_spec(address) == SelectionStatus::Primary,
{
}

/// The heading selected along an axis is the selected cell's own position
/// on that axis, in display order and in the data: along the rows, its row;
/// along the columns, its column. Nothing is selected with no selection.
pub proof fn law_axis_selection_is_focus_position(sel: TableSelection, axis: TableAxis, vis_idx: VisIdx)
    ensures
        sel matches TableSelection::SingleCell(sc) ==> {
            &&& sel.axis_selection_spec(axis) matches IndicesSelection::Single(v, l)
            &&& v == sc.vis.at(axis)
            &&& l == sc.log.at(axis)
            &&& sel.axis_selection_spec(axis).selects(vis_idx) <==> vis_idx == sc.vis.at(axis)
        },
        sel matches TableSelection::SingleCell(sc) ==> (sel.axis_selection_spec(TableAxis::Rows) matches IndicesSelection::Single(v, l) && v == sc.vis.row && l == sc.log.row),
        sel matches TableSelection::SingleCell(sc) ==> (sel.axis_selection_spec(TableAxis::Columns) matches IndicesSelection::Single(v, l) && v == sc.vis.col && l == sc.log.col),
        sel matches TableSelection::SingleSlice(sl) ==> (sel.axis_selection_spec(axis).selects(vis_idx) <==> (sl.axis == axis && vis_idx == sl.focus.vis.at(axis))),
        sel is NoSelection ==> !sel.axis_selection_spec(axis).selects(vis_idx),
{
}

} // verus!
