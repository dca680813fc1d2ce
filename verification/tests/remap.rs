use druid_table::data::{header_move_remap, moved_header_order, remap_by_sorts};
use druid_table::{LogIdx, Remap, RemapDetails, RemapSpec, SortDirection, SortSpec, VisIdx, VisOffset};
use std::cmp::Ordering;

fn logs(v: &[usize]) -> Vec<LogIdx> {
    v.iter().map(|i| LogIdx(*i)).collect()
}

#[test]
fn remap_pristine_maps_positions_to_themselves() {
    let r = Remap::new(5);
    assert!(r.is_pristine());
    assert_eq!(r.get_log_idx(VisIdx(3)), Some(LogIdx(3)));
    assert_eq!(r.get_vis_idx(LogIdx(7)), Some(VisIdx(7)));
    assert_eq!(r.max_vis_idx(5), VisIdx(4));
    assert_eq!(r.max_vis_idx(0), VisIdx(0));
    assert!(Remap::default().is_pristine());
}

#[test]
fn remap_selected_looks_up_both_ways() {
    let r = Remap::Selected(RemapDetails::make_full(logs(&[2, 0, 1])));
    assert!(!r.is_pristine());
    assert_eq!(r.get_log_idx(VisIdx(0)), Some(LogIdx(2)));
    assert_eq!(r.get_log_idx(VisIdx(3)), None);
    assert_eq!(r.get_vis_idx(LogIdx(2)), Some(VisIdx(0)));
    assert_eq!(r.get_vis_idx(LogIdx(1)), Some(VisIdx(2)));
    assert_eq!(r.get_vis_idx(LogIdx(9)), None);
    assert_eq!(r.max_vis_idx(100), VisIdx(2));
}

#[test]
fn remap_round_trips_for_every_position() {
    let r = Remap::Selected(RemapDetails::make_full(logs(&[4, 2, 0, 3, 1])));
    for v in 0..5 {
        let l = r.get_log_idx(VisIdx(v)).expect("mapped");
        assert_eq!(r.get_vis_idx(l), Some(VisIdx(v)));
    }
}

#[test]
fn remap_duplicate_position_maps_back_to_last() {
    let r = Remap::Selected(RemapDetails::make_full(logs(&[1, 1])));
    assert_eq!(r.get_vis_idx(LogIdx(1)), Some(VisIdx(1)));
}

#[test]
fn log_idx_in_vis_order_falls_back_past_the_end() {
    let r = Remap::Selected(RemapDetails::make_full(logs(&[2, 0])));
    assert_eq!(r.log_idx_in_vis_order(VisIdx(3)), logs(&[2, 0, 2, 3]));
    assert_eq!(Remap::new(2).log_idx_in_vis_order(VisIdx(1)), logs(&[0, 1]));
}

#[test]
fn shown_log_indices_skips_unmapped() {
    let r = Remap::Selected(RemapDetails::make_full(logs(&[3, 1])));
    assert_eq!(r.shown_log_indices(10), logs(&[3, 1]));
    assert_eq!(Remap::new(3).shown_log_indices(3), logs(&[0, 1, 2]));
}

#[test]
fn header_move_backwards_moves_each_header() {
    let order = moved_header_order(logs(&[0, 1, 2, 3, 4]), vec![VisIdx(3)], VisOffset(-2));
    assert_eq!(order, logs(&[0, 3, 1, 2, 4]));
}

#[test]
fn header_move_forwards_takes_last_header_first() {
    let order = moved_header_order(logs(&[0, 1, 2, 3, 4]), vec![VisIdx(0), VisIdx(1)], VisOffset(2));
    assert_eq!(order, logs(&[2, 3, 0, 1, 4]));
}

#[test]
fn header_move_past_end_goes_last() {
    let order = moved_header_order(logs(&[0, 1, 2]), vec![VisIdx(0)], VisOffset(5));
    assert_eq!(order, logs(&[1, 2, 0]));
    let order = moved_header_order(logs(&[0, 1, 2]), vec![VisIdx(2)], VisOffset(-7));
    assert_eq!(order, logs(&[2, 0, 1]));
    let order = moved_header_order(logs(&[0, 1, 2]), vec![VisIdx(9)], VisOffset(-1));
    assert_eq!(order, logs(&[0, 1, 2]));
}

#[test]
fn header_move_keeps_every_position() {
    let order = moved_header_order(logs(&[5, 6, 7, 8, 9, 10]), vec![VisIdx(1), VisIdx(4)], VisOffset(3));
    let mut sorted = order.clone();
    sorted.sort();
    assert_eq!(sorted, logs(&[5, 6, 7, 8, 9, 10]));
}

#[test]
fn header_move_remap_builds_the_new_order() {
    let r = header_move_remap(&Remap::new(4), 4, VisIdx(0), VisIdx(2), Some(vec![VisIdx(0)]))
        .expect("moved");
    assert_eq!(r.get_log_idx(VisIdx(0)), Some(LogIdx(1)));
    assert_eq!(r.get_log_idx(VisIdx(2)), Some(LogIdx(0)));
    assert_eq!(r.get_vis_idx(LogIdx(0)), Some(VisIdx(2)));
    assert!(header_move_remap(&Remap::new(4), 0, VisIdx(0), VisIdx(2), Some(vec![VisIdx(0)])).is_none());
    assert!(header_move_remap(&Remap::new(4), 4, VisIdx(2), VisIdx(2), Some(vec![VisIdx(0)])).is_none());
    assert!(header_move_remap(&Remap::new(4), 4, VisIdx(0), VisIdx(2), None).is_none());
}

#[test]
fn sort_direction_apply() {
    assert_eq!(SortDirection::Ascending.apply(Ordering::Less), Ordering::Less);
    assert_eq!(SortDirection::Descending.apply(Ordering::Less), Ordering::Greater);
    assert_eq!(SortDirection::Descending.apply(Ordering::Equal), Ordering::Equal);
    assert_eq!(SortDirection::Descending.apply(Ordering::Greater), Ordering::Less);
}

#[test]
fn sort_spec_descending() {
    let s = SortSpec::new(3, SortDirection::Ascending);
    assert_eq!(s.idx, 3);
    assert_eq!(s.descending(), SortSpec::new(3, SortDirection::Descending));
}

#[test]
fn toggle_sort_cycles_ascending_descending_none() {
    let mut spec = RemapSpec::default();
    assert!(spec.is_empty());
    spec.add_sort(SortSpec::new(0, SortDirection::Ascending));
    assert!(spec.toggle_sort(LogIdx(2), true));
    assert!(!spec.is_empty());
    assert!(spec.toggle_sort(LogIdx(2), true));
    assert!(spec.toggle_sort(LogIdx(2), true));
    // only the first sort is left: toggling it now turns it descending
    assert!(spec.toggle_sort(LogIdx(0), false));
    assert!(spec.toggle_sort(LogIdx(0), false));
    assert!(spec.is_empty());
}

#[test]
fn toggle_sort_without_extend_replaces_the_sorts() {
    let mut spec = RemapSpec::default();
    spec.add_sort(SortSpec::new(0, SortDirection::Ascending));
    spec.add_sort(SortSpec::new(1, SortDirection::Descending));
    spec.toggle_sort(LogIdx(5), false);
    spec.toggle_sort(LogIdx(5), false);
    spec.toggle_sort(LogIdx(5), false);
    assert!(spec.is_empty());
}

#[test]
fn compare_rows_first_deciding_sort_wins() {
    let mut spec = RemapSpec::default();
    spec.add_sort(SortSpec::new(0, SortDirection::Ascending));
    spec.add_sort(SortSpec::new(1, SortDirection::Descending));
    assert_eq!(spec.sort_specs(), vec![SortSpec::new(0, SortDirection::Ascending), SortSpec::new(1, SortDirection::Descending)]);
    let ord = spec.compare_rows(&vec![Some(Ordering::Equal), Some(Ordering::Less)], LogIdx(0), LogIdx(1));
    assert_eq!(ord, Ordering::Greater);
    let ord = spec.compare_rows(&vec![Some(Ordering::Greater), Some(Ordering::Less)], LogIdx(0), LogIdx(1));
    assert_eq!(ord, Ordering::Greater);
    let ord = spec.compare_rows(&vec![Some(Ordering::Equal), Some(Ordering::Equal)], LogIdx(5), LogIdx(2));
    assert_eq!(ord, Ordering::Greater);
    let ord = spec.compare_rows(&vec![None, Some(Ordering::Greater)], LogIdx(5), LogIdx(2));
    assert_eq!(ord, Ordering::Less);
}

#[test]
fn compare_rows_reverses_with_the_rows() {
    let mut spec = RemapSpec::default();
    spec.add_sort(SortSpec::new(3, SortDirection::Descending));
    let ab = spec.compare_rows(&vec![Some(Ordering::Less)], LogIdx(1), LogIdx(2));
    let ba = spec.compare_rows(&vec![Some(Ordering::Greater)], LogIdx(2), LogIdx(1));
    assert_eq!(ab, ba.reverse());
}

#[test]
fn remap_by_sorts_orders_rows_by_the_sorts() {
    let rows = vec![(3u32, 'b'), (1, 'a'), (3, 'a'), (2, 'c')];
    let compare = |idx: usize, a: LogIdx, b: LogIdx| -> Option<Ordering> {
        match idx {
            0 => Some(rows[a.0].0.cmp(&rows[b.0].0)),
            1 => Some(rows[a.0].1.cmp(&rows[b.0].1)),
            _ => None,
        }
    };
    let mut spec = RemapSpec::default();
    assert!(remap_by_sorts(4, &spec, compare).is_pristine());
    spec.add_sort(SortSpec::new(0, SortDirection::Descending));
    spec.add_sort(SortSpec::new(1, SortDirection::Ascending));
    let r = remap_by_sorts(4, &spec, compare);
    assert_eq!(r.log_idx_in_vis_order(VisIdx(3)), logs(&[2, 0, 3, 1]));
}

#[test]
fn remap_by_sorts_breaks_ties_by_position() {
    let mut spec = RemapSpec::default();
    spec.add_sort(SortSpec::new(0, SortDirection::Ascending));
    let r = remap_by_sorts(3, &spec, |_, _, _| Some(Ordering::Equal));
    assert_eq!(r.log_idx_in_vis_order(VisIdx(2)), logs(&[0, 1, 2]));
    let r = remap_by_sorts(0, &spec, |_, _, _| Some(Ordering::Equal));
    assert!(!r.is_pristine());
}
