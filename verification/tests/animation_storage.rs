use druid_table::animation::end_of_repetition;
use druid_table::{AnimationDirection, AnimationId, AnimationPhase, AnimationStatus, AnimationStorage};

#[test]
fn insert_then_get() {
    let mut s: AnimationStorage<&'static str> = AnimationStorage::new();
    assert!(s.is_empty());
    let a = s.insert("a");
    let b = s.insert("b");
    assert_eq!(s.size(), 2);
    assert_eq!(s.get(a), Some(&"a"));
    assert_eq!(s.get(b), Some(&"b"));
    assert!(s.contains(a));
    assert!(a != b);
}

#[test]
fn removed_id_does_not_find_the_next_value_in_its_slot() {
    let mut s: AnimationStorage<u32> = AnimationStorage::default();
    let a = s.insert(1);
    let _b = s.insert(2);
    s.remove_if(|_, v| *v == 1);
    assert_eq!(s.size(), 1);
    assert!(!s.contains(a));
    assert_eq!(s.get(a), None);
    let c = s.insert(3);
    assert!(c != a);
    assert_eq!(s.get(c), Some(&3));
    assert_eq!(s.get(a), None);
    assert_eq!(s.iter(), vec![&3, &2]);
}

#[test]
fn remove_if_may_change_values_it_keeps() {
    let mut s: AnimationStorage<u32> = AnimationStorage::new();
    let a = s.insert(10);
    let b = s.insert(20);
    s.remove_if(|_, v| {
        *v += 1;
        *v > 15
    });
    assert_eq!(s.get(a), Some(&11));
    assert_eq!(s.get(b), None);
    assert_eq!(s.size(), 1);
}

#[test]
fn get_mut_changes_in_place() {
    let mut s: AnimationStorage<u32> = AnimationStorage::new();
    let a = s.insert(5);
    *s.get_mut(a).expect("held") = 6;
    assert_eq!(s.get(a), Some(&6));
    assert!(s.get_mut(AnimationId::new(7, 1)).is_none());
}

#[test]
fn clear_forgets_everything() {
    let mut s: AnimationStorage<u32> = AnimationStorage::new();
    let a = s.insert(5);
    s.insert(6);
    s.clear();
    assert!(s.is_empty());
    assert_eq!(s.size(), 0);
    assert!(!s.contains(a));
    assert!(s.iter().is_empty());
}

#[test]
fn freed_slots_are_reused_last_freed_first() {
    let mut s: AnimationStorage<u32> = AnimationStorage::new();
    let a = s.insert(1);
    let b = s.insert(2);
    s.insert(3);
    s.remove_if(|id, _| id == a || id == b);
    let d = s.insert(4);
    let e = s.insert(5);
    assert_eq!(s.iter(), vec![&5, &4, &3]);
    assert_eq!(s.size(), 3);
    assert!(d != b && e != a);
}

#[test]
fn direction_decides_forward_runs() {
    assert!(AnimationDirection::Normal.runs_forward(false));
    assert!(!AnimationDirection::Reverse.runs_forward(true));
    assert!(AnimationDirection::Alternate.runs_forward(true));
    assert!(!AnimationDirection::Alternate.runs_forward(false));
    assert!(AnimationDirection::AlternateReverse.runs_forward(false));
    assert_eq!(AnimationDirection::default(), AnimationDirection::Normal);
}

#[test]
fn phases_advance_once_started() {
    assert_eq!(AnimationPhase::Waiting.advance(false), (AnimationPhase::Waiting, false, false));
    assert_eq!(AnimationPhase::Waiting.advance(true), (AnimationPhase::Enlisting, true, false));
    assert_eq!(AnimationPhase::Enlisting.advance(true), (AnimationPhase::Running, true, false));
    assert_eq!(AnimationPhase::Repeating.advance(true), (AnimationPhase::Running, true, false));
    assert_eq!(AnimationPhase::Retiring.advance(true), (AnimationPhase::Retiring, false, true));
    assert_eq!(AnimationPhase::PendingEvent.advance(true), (AnimationPhase::PendingEvent, false, false));
    assert!(AnimationPhase::Retiring.is_active());
    assert!(!AnimationPhase::Waiting.is_active());
    assert_eq!(AnimationPhase::Waiting.status(), AnimationStatus::NotRunning);
    assert_eq!(AnimationPhase::Repeating.status(), AnimationStatus::Repeating);
}

#[test]
fn repetitions_stop_at_the_limit() {
    assert_eq!(end_of_repetition(0, Some(1)), (1, false));
    assert_eq!(end_of_repetition(0, Some(3)), (1, true));
    assert_eq!(end_of_repetition(2, Some(3)), (3, false));
    assert_eq!(end_of_repetition(41, None), (42, true));
}

#[test]
fn size_counts_the_values_held() {
    let mut s: AnimationStorage<u32> = AnimationStorage::new();
    let ids = vec![s.insert(1), s.insert(2), s.insert(3)];
    s.remove_if(|_, v| *v == 2);
    let held = ids.iter().filter(|id| s.contains(**id)).count();
    assert_eq!(held, 2);
    assert_eq!(s.size() as usize, held);
}

#[test]
fn reused_slot_holds_only_the_new_value() {
    let mut s: AnimationStorage<i32> = AnimationStorage::default();
    let a = s.insert(1);
    s.remove_if(|_, _| true);
    let b = s.insert(2);
    assert!(b != a);
    assert!(!s.contains(a));
    assert!(s.get(a).is_none());
    assert_eq!(s.get(b), Some(&2));
    assert_eq!(s.iter().len(), 1);
}
