use druid_table::gestures::{
    cells_can_step_now, cells_step, heading_mouse_down, heading_mouse_move, heading_mouse_up, CellsEffect, CellsInput, CellsKey,
    CellsState, HeaderAxis, HeadingAction, HeadingCursor, HeadingDrag, ResizeDragging,
};
use druid_table::{AxisPair, LogIdx, Remap, RemapDetails, SingleCell, SingleSlice, TableAxis, TableSelection, VisIdx};

fn press(
    state: HeadingDrag,
    count: u8,
    level: Option<LogIdx>,
    item: Option<VisIdx>,
    near_item_border: Option<VisIdx>,
    near_level_border: Option<VisIdx>,
    fully_selected: bool,
) -> (HeadingDrag, HeadingAction) {
    heading_mouse_down(state, count, true, false, level, item, near_item_border, true, near_level_border, true, fully_selected, true)
}

#[test]
fn double_click_on_first_level_toggles_sort() {
    let (state, action) = press(HeadingDrag::idle(), 2, Some(LogIdx(0)), Some(VisIdx(3)), None, None, false);
    assert_eq!(state, HeadingDrag::idle());
    assert_eq!(action, HeadingAction::ToggleSort { item: VisIdx(3), extend: true });
    let (_, on_second_level) = press(HeadingDrag::idle(), 2, Some(LogIdx(1)), Some(VisIdx(3)), None, None, false);
    assert_eq!(on_second_level, HeadingAction::Ignore);
    let (_, off_levels) = press(HeadingDrag::idle(), 1, None, Some(VisIdx(3)), None, None, false);
    assert_eq!(off_levels, HeadingAction::Ignore);
}

#[test]
fn press_near_border_starts_resize_of_previous_heading() {
    let (state, action) = press(HeadingDrag::idle(), 1, Some(LogIdx(0)), Some(VisIdx(3)), Some(VisIdx(3)), None, false);
    let rd = ResizeDragging::new(HeaderAxis::Item, VisIdx(2));
    assert_eq!(action, HeadingAction::StartResize(rd));
    assert_eq!(state.resizing, Some(rd));
    // The first border starts nothing, and the level border is not looked at.
    let (state, action) = press(HeadingDrag::idle(), 1, Some(LogIdx(0)), Some(VisIdx(0)), Some(VisIdx(0)), Some(VisIdx(2)), false);
    assert_eq!(action, HeadingAction::Ignore);
    assert_eq!(state, HeadingDrag::idle());
    let (state, action) = press(HeadingDrag::idle(), 1, Some(LogIdx(1)), Some(VisIdx(0)), None, Some(VisIdx(2)), false);
    assert_eq!(action, HeadingAction::StartResize(ResizeDragging::new(HeaderAxis::Level, VisIdx(1))));
    assert!(state.resizing.is_some());
    // A measure that does not resize that heading refuses.
    let (state, action) = heading_mouse_down(
        HeadingDrag::idle(), 1, false, false, Some(LogIdx(0)), Some(VisIdx(4)), Some(VisIdx(4)), false, None, true, false, true,
    );
    assert_eq!(action, HeadingAction::Ignore);
    assert_eq!(state, HeadingDrag::idle());
}

#[test]
fn press_on_selected_heading_moves_it_else_selects() {
    let (state, action) = press(HeadingDrag::idle(), 1, Some(LogIdx(0)), Some(VisIdx(5)), None, None, true);
    assert_eq!(action, HeadingAction::StartMove(VisIdx(5)));
    assert_eq!(state.moving, Some(VisIdx(5)));
    let (state, action) = heading_mouse_down(
        HeadingDrag::idle(), 1, false, true, Some(LogIdx(0)), Some(VisIdx(5)), None, true, None, true, true, false,
    );
    assert_eq!(action, HeadingAction::Select { item: VisIdx(5), extend: true });
    assert!(state.selecting);
    let (_, action) = press(HeadingDrag::idle(), 1, Some(LogIdx(0)), Some(VisIdx(5)), None, None, false);
    assert_eq!(action, HeadingAction::Select { item: VisIdx(5), extend: false });
    let (_, triple) = press(HeadingDrag::idle(), 3, Some(LogIdx(0)), Some(VisIdx(5)), None, None, false);
    assert_eq!(triple, HeadingAction::Ignore);
}

#[test]
fn moves_follow_the_drag_in_progress() {
    let rd = ResizeDragging::new(HeaderAxis::Item, VisIdx(2));
    let resizing = HeadingDrag { resizing: Some(rd), moving: None, selecting: false };
    let (state, action) = heading_mouse_move(resizing, Some(VisIdx(1)), true, None, true, None, true, false, true);
    assert_eq!(state, resizing);
    assert_eq!(action, HeadingAction::Resize { dragging: rd, held: true });
    let (state, action) = heading_mouse_move(resizing, Some(VisIdx(1)), false, None, true, None, true, false, true);
    assert_eq!(state, HeadingDrag::idle());
    assert_eq!(action, HeadingAction::Resize { dragging: rd, held: false });

    let moving = HeadingDrag { resizing: None, moving: Some(VisIdx(4)), selecting: false };
    assert_eq!(heading_mouse_move(moving, None, true, None, true, None, true, false, true), (moving, HeadingAction::Move(VisIdx(4))));

    let selecting = HeadingDrag { resizing: None, moving: None, selecting: true };
    assert_eq!(
        heading_mouse_move(selecting, Some(VisIdx(6)), true, None, true, None, true, false, true).1,
        HeadingAction::Select { item: VisIdx(6), extend: true }
    );
    assert_eq!(heading_mouse_move(selecting, None, true, None, true, None, true, false, true).1, HeadingAction::Ignore);
}

#[test]
fn hovering_sets_the_cursor() {
    let idle = HeadingDrag::idle();
    let hover = |item_border: Option<VisIdx>, item_ok: bool, level_border: Option<VisIdx>, selected: bool| {
        heading_mouse_move(idle, Some(VisIdx(2)), false, item_border, item_ok, level_border, false, selected, true).1
    };
    assert_eq!(hover(Some(VisIdx(2)), true, None, false), HeadingAction::Cursor(HeadingCursor::ResizeItem));
    assert_eq!(hover(Some(VisIdx(2)), false, None, false), HeadingAction::Cursor(HeadingCursor::NotAllowed));
    assert_eq!(hover(Some(VisIdx(0)), true, None, false), HeadingAction::Ignore);
    assert_eq!(hover(None, true, Some(VisIdx(1)), false), HeadingAction::Cursor(HeadingCursor::NotAllowed));
    assert_eq!(hover(None, true, None, true), HeadingAction::Cursor(HeadingCursor::OpenHand));
    assert_eq!(hover(None, true, None, false), HeadingAction::Cursor(HeadingCursor::Plain));
}

#[test]
fn release_ends_the_drag() {
    let rd = ResizeDragging::new(HeaderAxis::Level, VisIdx(0));
    let resizing = HeadingDrag { resizing: Some(rd), moving: None, selecting: false };
    assert_eq!(heading_mouse_up(resizing, None), (HeadingDrag::idle(), HeadingAction::FinishResize(rd)));
    let moving = HeadingDrag { resizing: None, moving: Some(VisIdx(1)), selecting: false };
    assert_eq!(
        heading_mouse_up(moving, Some(VisIdx(3))),
        (HeadingDrag::idle(), HeadingAction::FinishMove { from: VisIdx(1), to: Some(VisIdx(3)) })
    );
    let selecting = HeadingDrag { resizing: None, moving: None, selecting: true };
    assert_eq!(heading_mouse_up(selecting, None), (HeadingDrag::idle(), HeadingAction::FinishSelect));
    assert_eq!(heading_mouse_up(HeadingDrag::idle(), None), (HeadingDrag::idle(), HeadingAction::Ignore));
}

#[test]
fn law_press_then_release_on_values() {
    for count in 1..=2u8 {
        for fully_selected in [false, true] {
            for border in [None, Some(VisIdx(0)), Some(VisIdx(2))] {
                let (pressed, _) =
                    press(HeadingDrag::idle(), count, Some(LogIdx(0)), Some(VisIdx(2)), border, None, fully_selected);
                assert_eq!(heading_mouse_up(pressed, Some(VisIdx(1))).0, HeadingDrag::idle());
            }
        }
    }
}

fn remaps() -> AxisPair<Remap> {
    AxisPair {
        row: Remap::Selected(RemapDetails::make_full(vec![LogIdx(2), LogIdx(0), LogIdx(1)])),
        col: Remap::new(3),
    }
}

fn cell(row: usize, col: usize, log_row: usize) -> SingleCell {
    SingleCell::new(AxisPair::new(VisIdx(row), VisIdx(col)), AxisPair::new(LogIdx(log_row), LogIdx(col)))
}

fn down(cell: Option<SingleCell>, count: u8, ctrl_or_meta: bool, shift: bool, editing_here: bool) -> CellsInput {
    CellsInput::MouseDown { cell, count, ctrl_or_meta, shift, editing_here }
}

fn is_cell(sel: &Option<TableSelection>, expected: SingleCell) -> bool {
    matches!(sel, Some(TableSelection::SingleCell(sc)) if *sc == expected)
}

#[test]
fn click_selects_cell_and_starts_drag() {
    let idle = CellsState { dragging_selection: false, editing_active: true };
    let target = cell(1, 2, 0);
    let (state, sel, action) = cells_step(idle, &TableSelection::NoSelection, down(Some(target), 1, false, false, false), &remaps());
    assert_eq!(state, CellsState { dragging_selection: true, editing_active: false });
    assert!(is_cell(&sel, target));
    assert!(matches!(action.effect, CellsEffect::StartDragSelect));
    assert!(action.request_focus);

    let (released, sel, action) = cells_step(state, &TableSelection::SingleCell(target), CellsInput::MouseUp, &remaps());
    assert!(!released.dragging_selection);
    assert!(sel.is_none());
    assert!(matches!(action.effect, CellsEffect::EndDragSelect));
    assert!(!action.request_focus);
}

#[test]
fn modified_clicks_add_and_extend() {
    let idle = CellsState { dragging_selection: false, editing_active: false };
    let current = TableSelection::SingleCell(cell(0, 0, 2));
    let other = cell(2, 1, 1);
    let (_, sel, _) = cells_step(idle, &current, down(Some(other), 1, true, false, false), &remaps());
    assert!(is_cell(&sel, other));
    let (_, sel, _) = cells_step(idle, &current, down(Some(other), 1, false, true, false), &remaps());
    assert!(is_cell(&sel, other));
    // Moving the far end onto the focus changes nothing.
    let (state, sel, action) = cells_step(idle, &current, down(Some(cell(0, 0, 2)), 1, false, true, false), &remaps());
    assert!(sel.is_none());
    assert!(state.dragging_selection);
    assert!(!action.request_focus);
}

#[test]
fn double_click_edits_and_editor_gets_presses() {
    let idle = CellsState { dragging_selection: false, editing_active: false };
    let target = cell(1, 1, 0);
    let (state, sel, action) = cells_step(idle, &TableSelection::NoSelection, down(Some(target), 2, false, false, false), &remaps());
    assert_eq!(state, idle);
    assert!(sel.is_none());
    assert!(matches!(action.effect, CellsEffect::StartEditing(c) if c == target));
    let editing = CellsState { dragging_selection: false, editing_active: true };
    let (state, sel, action) = cells_step(editing, &TableSelection::NoSelection, down(Some(target), 1, false, false, true), &remaps());
    assert_eq!(state, editing);
    assert!(sel.is_none());
    assert!(matches!(action.effect, CellsEffect::ToEditor));
    let (_, _, action) = cells_step(idle, &TableSelection::NoSelection, down(None, 1, false, false, false), &remaps());
    assert!(matches!(action.effect, CellsEffect::Ignore));
}

#[test]
fn dragging_moves_the_extent() {
    let dragging = CellsState { dragging_selection: true, editing_active: false };
    let current = TableSelection::SingleCell(cell(0, 0, 2));
    let over = cell(1, 2, 0);
    let (state, sel, action) = cells_step(dragging, &current, CellsInput::MouseMove { cell: Some(over) }, &remaps());
    assert_eq!(state, dragging);
    assert!(is_cell(&sel, over));
    assert!(action.request_focus);
    let still = CellsState { dragging_selection: false, editing_active: false };
    let (_, sel, _) = cells_step(still, &current, CellsInput::MouseMove { cell: Some(over) }, &remaps());
    assert!(sel.is_none());
}

#[test]
fn arrows_move_focus_and_space_widens() {
    let idle = CellsState { dragging_selection: false, editing_active: false };
    let key = |k: CellsKey, ctrl: bool, shift: bool| CellsInput::Key { key: k, ctrl_or_meta: ctrl, shift };
    let current = TableSelection::SingleCell(cell(0, 1, 2));
    let (_, sel, action) = cells_step(idle, &current, key(CellsKey::ArrowDown, false, false), &remaps());
    assert!(is_cell(&sel, cell(1, 1, 0)));
    assert!(matches!(action.effect, CellsEffect::Handled));
    let back = sel.unwrap();
    let (_, sel, _) = cells_step(idle, &back, key(CellsKey::ArrowUp, false, false), &remaps());
    assert!(is_cell(&sel, cell(0, 1, 2)));
    let (_, sel, _) = cells_step(idle, &current, key(CellsKey::ArrowLeft, false, false), &remaps());
    assert!(is_cell(&sel, cell(0, 0, 2)));
    // Below the last reordered row there is no cell.
    let edge = TableSelection::SingleCell(cell(2, 0, 1));
    let (_, sel, action) = cells_step(idle, &edge, key(CellsKey::ArrowDown, false, false), &remaps());
    assert!(sel.is_none());
    assert!(matches!(action.effect, CellsEffect::Handled));

    let (_, sel, _) = cells_step(idle, &current, key(CellsKey::Space, true, false), &remaps());
    match sel {
        Some(TableSelection::SingleSlice(SingleSlice { axis, focus })) => {
            assert_eq!(axis, TableAxis::Columns);
            assert_eq!(focus, cell(0, 1, 2));
        }
        other => panic!("expected a column, got {:?}", other),
    }
    let (_, sel, _) = cells_step(idle, &current, key(CellsKey::Space, false, true), &remaps());
    assert!(matches!(sel, Some(TableSelection::SingleSlice(SingleSlice { axis: TableAxis::Rows, .. }))));
    let (_, sel, action) = cells_step(idle, &current, key(CellsKey::Space, false, false), &remaps());
    assert!(sel.is_none());
    assert!(matches!(action.effect, CellsEffect::Ignore));
    let editing = CellsState { dragging_selection: false, editing_active: true };
    let (_, sel, action) = cells_step(editing, &current, key(CellsKey::ArrowDown, false, false), &remaps());
    assert!(sel.is_none());
    assert!(matches!(action.effect, CellsEffect::Ignore));
}

#[test]
fn heading_selection_helpers() {
    let current = TableSelection::SingleCell(cell(1, 0, 0));
    let sel = current.select_in_axis(TableAxis::Columns, VisIdx(2), &remaps()).unwrap();
    assert!(sel.fully_selects_heading(TableAxis::Columns, VisIdx(2)));
    assert!(!sel.fully_selects_heading(TableAxis::Columns, VisIdx(1)));
    assert!(!sel.fully_selects_heading(TableAxis::Rows, VisIdx(1)));
    match sel {
        TableSelection::SingleSlice(s) => assert_eq!(s.focus, cell(1, 2, 0)),
        other => panic!("expected a column, got {:?}", other),
    }
    assert!(TableSelection::NoSelection.select_in_axis(TableAxis::Rows, VisIdx(7), &remaps()).is_none());
    assert!(current.has_focus());
    assert!(!TableSelection::NoSelection.has_focus());
}

#[test]
fn arrow_past_signed_range_is_refused() {
    let idle = CellsState { dragging_selection: false, editing_active: false };
    let far = isize::MAX as usize;
    let at_edge = TableSelection::SingleCell(cell(far, 0, 0));
    let down = CellsInput::Key { key: CellsKey::ArrowDown, ctrl_or_meta: false, shift: false };
    let up = CellsInput::Key { key: CellsKey::ArrowUp, ctrl_or_meta: false, shift: false };
    assert!(!cells_can_step_now(idle, &at_edge, down));
    assert!(cells_can_step_now(idle, &at_edge, up));
    assert!(cells_can_step_now(CellsState { dragging_selection: false, editing_active: true }, &at_edge, down));
    assert!(cells_can_step_now(idle, &TableSelection::NoSelection, down));
}
