use druid_table::{
    AxisPair, CellDemap, IndicesSelection, LogIdx, Remap, RemapDetails, SelectionStatus, SingleCell, SingleSlice,
    TableAxis, TableSelection, VisIdx, VisOffset,
};

#[test]
fn cross_axis_swaps() {
    assert_eq!(TableAxis::Rows.cross_axis(), TableAxis::Columns);
    assert_eq!(TableAxis::Columns.cross_axis(), TableAxis::Rows);
}

#[test]
fn axis_pair_by_axis() {
    let p = AxisPair::new_for_axis(&TableAxis::Columns, 5usize, 9usize);
    assert_eq!(p, AxisPair::new(9, 5));
    assert_eq!(*p.get(&TableAxis::Rows), 9);
    let mut q = p;
    q.set(&TableAxis::Rows, 1);
    assert_eq!(q, AxisPair::new(1, 5));
    assert_eq!(q[&TableAxis::Columns], 5);
    q[&TableAxis::Columns] = 8;
    assert_eq!(q, AxisPair::new(1, 8));
}

#[test]
fn range_inc_iter_is_inclusive() {
    assert_eq!(VisIdx::range_inc_iter(VisIdx(2), VisIdx(4)), vec![VisIdx(2), VisIdx(3), VisIdx(4)]);
    assert_eq!(VisIdx::range_inc_iter(VisIdx(4), VisIdx(4)), vec![VisIdx(4)]);
    assert_eq!(VisIdx::range_inc_iter(VisIdx(5), VisIdx(4)), vec![]);
}

#[test]
fn ascending_orders_pair() {
    assert_eq!(VisIdx::ascending(VisIdx(7), VisIdx(3)), (VisIdx(3), VisIdx(7)));
    assert_eq!(VisIdx::ascending(VisIdx(1), VisIdx(3)), (VisIdx(1), VisIdx(3)));
}

#[test]
fn vis_offsets_stop_at_zero() {
    assert_eq!(VisIdx(3) + VisOffset(2), VisIdx(5));
    assert_eq!(VisIdx(3) + VisOffset(-5), VisIdx(0));
    assert_eq!(VisIdx(3) - VisOffset(1), VisIdx(2));
    assert_eq!(VisIdx(3) - VisOffset(4), VisIdx(0));
    assert_eq!(VisIdx(3) - VisIdx(5), VisOffset(-2));
    assert_eq!(usize::from(LogIdx::from(6usize)), 6);
}

#[test]
fn move_by_moves_only_the_axis() {
    let cell = AxisPair::new(VisIdx(4), VisIdx(2));
    assert_eq!(cell.move_by(&TableAxis::Columns, VisOffset(3)), AxisPair::new(VisIdx(4), VisIdx(5)));
    assert_eq!(cell.move_by(&TableAxis::Rows, VisOffset(-9)), AxisPair::new(VisIdx(0), VisIdx(2)));
}

fn demap() -> AxisPair<Remap> {
    AxisPair {
        row: Remap::Selected(RemapDetails::make_full(vec![LogIdx(2), LogIdx(0), LogIdx(1)])),
        col: Remap::new(3),
    }
}

#[test]
fn move_focus_from_nothing_selects_origin() {
    let d = demap();
    let sel = TableSelection::NoSelection.move_focus(&TableAxis::Rows, VisOffset(1), &d).expect("origin");
    match sel {
        TableSelection::SingleCell(sc) => {
            assert_eq!(sc.vis, AxisPair::new(VisIdx(0), VisIdx(0)));
            assert_eq!(sc.log, AxisPair::new(LogIdx(2), LogIdx(0)));
        },
        _ => panic!("expected a cell"),
    }
}

#[test]
fn move_focus_moves_the_cell() {
    let d = demap();
    let start = TableSelection::SingleCell(SingleCell::new(
        AxisPair::new(VisIdx(0), VisIdx(1)),
        AxisPair::new(LogIdx(2), LogIdx(1)),
    ));
    let sel = start.move_focus(&TableAxis::Rows, VisOffset(1), &d).expect("moved");
    match sel {
        TableSelection::SingleCell(sc) => {
            assert_eq!(sc.vis, AxisPair::new(VisIdx(1), VisIdx(1)));
            assert_eq!(sc.log, AxisPair::new(LogIdx(0), LogIdx(1)));
        },
        _ => panic!("expected a cell"),
    }
    assert!(start.move_focus(&TableAxis::Rows, VisOffset(5), &d).is_none());
}

#[test]
fn extend_in_axis_makes_a_slice() {
    let d = demap();
    let start = TableSelection::SingleCell(SingleCell::new(
        AxisPair::new(VisIdx(1), VisIdx(2)),
        AxisPair::new(LogIdx(0), LogIdx(2)),
    ));
    match start.extend_in_axis(TableAxis::Columns, &d).expect("slice") {
        TableSelection::SingleSlice(s) => {
            assert_eq!(s.axis, TableAxis::Columns);
            assert_eq!(s.focus.vis, AxisPair::new(VisIdx(1), VisIdx(2)));
        },
        _ => panic!("expected a slice"),
    }
    assert!(TableSelection::NoSelection.extend_in_axis(TableAxis::Rows, &d).is_none());
}

#[test]
fn cell_status_of_slice() {
    let focus = SingleCell::new(AxisPair::new(VisIdx(1), VisIdx(2)), AxisPair::new(LogIdx(1), LogIdx(2)));
    let sel = TableSelection::SingleSlice(SingleSlice::new(TableAxis::Rows, focus));
    assert_eq!(sel.get_cell_status(&AxisPair::new(VisIdx(1), VisIdx(2))), SelectionStatus::Primary);
    assert_eq!(sel.get_cell_status(&AxisPair::new(VisIdx(1), VisIdx(0))), SelectionStatus::AlsoSelected);
    assert_eq!(sel.get_cell_status(&AxisPair::new(VisIdx(0), VisIdx(2))), SelectionStatus::NotSelected);
    let cell = TableSelection::SingleCell(focus);
    assert_eq!(cell.get_cell_status(&AxisPair::new(VisIdx(1), VisIdx(2))), SelectionStatus::Primary);
    assert_eq!(cell.get_cell_status(&AxisPair::new(VisIdx(1), VisIdx(0))), SelectionStatus::NotSelected);
    assert!(bool::from(SelectionStatus::AlsoSelected));
    assert!(!bool::from(SelectionStatus::NotSelected));
}

#[test]
fn axis_selection_of_slice() {
    let focus = SingleCell::new(AxisPair::new(VisIdx(1), VisIdx(2)), AxisPair::new(LogIdx(7), LogIdx(8)));
    let sel = TableSelection::SingleSlice(SingleSlice::new(TableAxis::Columns, focus));
    match sel.to_axis_selection(&TableAxis::Columns) {
        IndicesSelection::Single(v, l) => {
            assert_eq!(v, VisIdx(2));
            assert_eq!(l, LogIdx(8));
        },
        _ => panic!("expected a single index"),
    }
    assert!(matches!(sel.to_axis_selection(&TableAxis::Rows), IndicesSelection::NoSelection));
    assert!(sel.to_axis_selection(&TableAxis::Columns).vis_index_selected(VisIdx(2)));
    assert!(!sel.to_axis_selection(&TableAxis::Columns).vis_index_selected(VisIdx(1)));
    assert_eq!(sel.focus(), Some(&AxisPair::new(VisIdx(1), VisIdx(2))));
    assert_eq!(TableSelection::NoSelection.focus(), None);
    let from_cell: TableSelection = focus.into();
    assert!(matches!(from_cell, TableSelection::SingleCell(_)));
}

#[test]
fn log_cell_needs_both_axes() {
    let d = demap();
    assert_eq!(d.get_log_cell(&AxisPair::new(VisIdx(2), VisIdx(1))), Some(AxisPair::new(LogIdx(1), LogIdx(1))));
    assert_eq!(d.get_log_cell(&AxisPair::new(VisIdx(3), VisIdx(1))), None);
}

#[test]
fn moving_focus_there_and_back_returns() {
    let d = demap();
    let start = TableSelection::SingleCell(SingleCell::new(
        AxisPair::new(VisIdx(1), VisIdx(1)),
        AxisPair::new(LogIdx(0), LogIdx(1)),
    ));
    let there = start.move_focus(&TableAxis::Columns, VisOffset(1), &d).expect("there");
    let back = there.move_focus(&TableAxis::Columns, VisOffset(-1), &d).expect("back");
    assert_eq!(back.focus(), start.focus());
    assert_eq!(VisIdx(3) + VisOffset(2) - VisOffset(2), VisIdx(3));
}

#[test]
fn test_range() {
    let v: Vec<_> = VisIdx::range_inc_iter(VisIdx(1), VisIdx(0)).into_iter().collect();
    assert!(v.is_empty())
}

#[test]
fn range_at_the_top_position() {
    assert_eq!(VisIdx::range_inc_iter(VisIdx(usize::MAX), VisIdx(usize::MAX)), vec![VisIdx(usize::MAX)]);
    assert_eq!(
        VisIdx::range_inc_iter(VisIdx(usize::MAX - 1), VisIdx(usize::MAX)),
        vec![VisIdx(usize::MAX - 1), VisIdx(usize::MAX)]
    );
}
