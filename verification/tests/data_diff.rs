use druid_table::diff::diff_ops;
use druid_table::IndexedDataOp::{Delete, Insert, Move, Update};
use druid_table::{IndexedData, IndexedDataDiff, IndexedDataDiffer, LogIdx, LogIdxTable, RefreshDiffer, SlowVectorDiffer};

#[test]
fn test_slow_vec_differ() {
    let differ = SlowVectorDiffer::new(|s: &(char, usize)| s.0);

    let diff = differ
        .diff(
            &vec![('A', 1usize), ('B', 2), ('C', 3), ('D', 5), ('T', 23)]
                .into_iter()
                .collect(),
            &vec![
                ('A', 1usize),
                ('B', 10),
                ('Z', 23),
                ('I', 13),
                ('D', 5),
                ('T', 12),
            ]
            .into_iter()
            .collect(),
        )
        .expect("diff exists");

    assert_eq!(
        IndexedDataDiff::new(vec![
            Update(LogIdx(1)),
            Insert(LogIdx(2)),
            Insert(LogIdx(3)),
            Move(LogIdx(3), LogIdx(4)),
            Move(LogIdx(4), LogIdx(4)),
            Update(LogIdx(4)),
            Delete(LogIdx(2))
        ]),
        diff
    )
}

#[test]
fn slow_vec_differ_ops_in_order_of_new_rows() {
    let differ = SlowVectorDiffer::new(|s: &(char, usize)| s.0);
    let old: im::Vector<(char, usize)> = vec![('A', 1usize), ('B', 2), ('C', 3), ('D', 5), ('T', 23)]
        .into_iter()
        .collect();
    let new: im::Vector<(char, usize)> =
        vec![('A', 1usize), ('B', 10), ('Z', 23), ('I', 13), ('D', 5), ('T', 12)]
            .into_iter()
            .collect();
    let diff = differ.diff(&old, &new).expect("diff exists");
    assert!(!diff.is_refresh());
    assert_eq!(
        diff.ops(),
        vec![
            Update(LogIdx(1)),
            Insert(LogIdx(2)),
            Insert(LogIdx(3)),
            Move(LogIdx(3), LogIdx(4)),
            Move(LogIdx(4), LogIdx(4)),
            Update(LogIdx(4)),
            Delete(LogIdx(2)),
        ]
    );
}

#[test]
fn diffs_compare_by_ops() {
    assert_eq!(IndexedDataDiff::new(vec![Insert(LogIdx(1))]), IndexedDataDiff::new(vec![Insert(LogIdx(1))]));
    assert_ne!(IndexedDataDiff::new(vec![Insert(LogIdx(1))]), IndexedDataDiff::new(vec![Insert(LogIdx(2))]));
    assert_ne!(IndexedDataDiff::new(vec![]), IndexedDataDiff::refresh());
    assert_eq!(IndexedDataDiff::refresh(), IndexedDataDiff::refresh());
}

#[test]
fn diff_ops_reports_matched_rows_within_the_old_rows() {
    let old_items = vec![1u32, 2];
    let old_keys = vec![1u32, 2];
    let new_items = vec![3u32, 1, 4, 5];
    let new_keys = vec![3u32, 1, 4, 2];
    let ops = diff_ops(&old_items, old_keys, &new_items, &new_keys);
    assert_eq!(
        ops,
        vec![Insert(LogIdx(0)), Move(LogIdx(0), LogIdx(1)), Insert(LogIdx(2)), Move(LogIdx(1), LogIdx(1)), Update(LogIdx(1))]
    );
}

#[test]
fn slow_vec_differ_same_rows_gives_none() {
    let differ = SlowVectorDiffer::new(|s: &(char, usize)| s.0);
    let old: im::Vector<(char, usize)> = vec![('A', 1usize), ('B', 2)].into_iter().collect();
    let new = old.clone();
    assert!(differ.diff(&old, &new).is_none());
}

#[test]
fn diff_ops_deletes_every_unmatched_old_row_in_order() {
    let old_items = vec![10u32, 20, 30, 40];
    let old_keys = vec![1u32, 2, 3, 4];
    let new_items = vec![20u32];
    let new_keys = vec![2u32];
    let ops = diff_ops(&old_items, old_keys, &new_items, &new_keys);
    assert_eq!(
        ops,
        vec![Move(LogIdx(1), LogIdx(0)), Delete(LogIdx(0)), Delete(LogIdx(2)), Delete(LogIdx(3))]
    );
}

#[test]
fn diff_ops_duplicate_old_keys_match_the_last_row() {
    let old_items = vec![1u32, 2];
    let old_keys = vec![7u32, 7];
    let new_items = vec![2u32];
    let new_keys = vec![7u32];
    let ops = diff_ops(&old_items, old_keys, &new_items, &new_keys);
    assert_eq!(ops, vec![Move(LogIdx(1), LogIdx(0))]);
}

#[test]
fn refresh_differ_reports_any_change_as_refresh() {
    let differ = RefreshDiffer;
    let a: im::Vector<u32> = vec![1u32, 2].into_iter().collect();
    let b: im::Vector<u32> = vec![1u32, 3].into_iter().collect();
    assert!(differ.diff(&a, &a.clone()).is_none());
    let d = differ.diff(&a, &b).expect("changed");
    assert!(d.is_refresh());
    assert!(d.ops().is_empty());
}

#[test]
fn indexed_data_diff_keeps_its_ops() {
    let d = IndexedDataDiff::new(vec![Insert(LogIdx(0)), Delete(LogIdx(3))]);
    assert!(!d.is_refresh());
    assert_eq!(d.ops(), vec![Insert(LogIdx(0)), Delete(LogIdx(3))]);
    let r = IndexedDataDiff::refresh();
    assert!(r.is_refresh());
    assert_eq!(r.ops(), vec![]);
}

#[test]
fn vector_as_indexed_data() {
    let mut v: im::Vector<u32> = vec![5u32, 6, 7].into_iter().collect();
    assert_eq!(v.data_len(), 3);
    assert!(!IndexedData::is_empty(&v));
    assert_eq!(v.with(LogIdx(1), |x| *x * 2), Some(12));
    assert_eq!(v.with(LogIdx(3), |x| *x), None);
    assert_eq!(v.with_mut(LogIdx(2), |x| {
        *x = 70;
        *x + 1
    }), Some(71));
    assert_eq!(v[2], 70);
}

#[test]
fn log_idx_table_rows_are_their_positions() {
    let mut t = LogIdxTable::new(4);
    assert_eq!(t.data_len(), 4);
    assert_eq!(t.with(LogIdx(3), |l| l.0 + 100), Some(103));
    assert_eq!(t.with(LogIdx(4), |l| l.0), None);
    assert_eq!(t.with_mut(LogIdx(1), |l| l.0), None);
    assert!(LogIdxTable::new(0).is_empty());
}
