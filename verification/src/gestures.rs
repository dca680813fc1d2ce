//! What the pointer and the keyboard do to the headings and the cells.
//!
//! Each event is decided by a function from the widget's state and the event,
//! with the pixel geometry already resolved by the caller into positions, to
//! the next state and the action that the widget performs.
use crate::axis::{AxisPair, LogIdx, TableAxis, VisIdx, VisOffset};
use crate::data::Remap;
use crate::selection::{log_cell_of, moved_cell, SingleCell, TableSelection};
use vstd::prelude::*;

verus! {

/// Which measure a heading resize drags: the one along the headings' own
/// axis (items), or the one across it (the stacked header levels).
#[derive(Debug, Clone, Copy, PartialEq, Eq)]
pub enum HeaderAxis {
    Item,
    Level,
}

/// A resize in progress: the measure and the position whose far edge follows
/// the pointer.
#[derive(Debug, Clone, Copy, PartialEq, Eq)]
pub struct ResizeDragging {
    pub header_axis: HeaderAxis,
    pub idx: VisIdx,
}

impl ResizeDragging {
    pub fn new(header_axis: HeaderAxis, idx: VisIdx) -> (r: Self)
        ensures
            r.header_axis == header_axis,
            r.idx == idx,
    {
        ResizeDragging { header_axis, idx }
    }
}

/// What a press on the headings has started and a release will end.
#[derive(Debug, Clone, Copy, PartialEq, Eq)]
pub struct HeadingDrag {
    pub resizing: Option<ResizeDragging>,
    pub moving: Option<VisIdx>,
    pub selecting: bool,
}

impl HeadingDrag {
    /// No press in progress.
    pub fn idle() -> (r: Self)
        ensures
            r.is_idle(),
    {
        HeadingDrag { resizing: None, moving: None, selecting: false }
    }

    pub open spec fn is_idle(self) -> bool {
        self.resizing is None && self.moving is None && !self.selecting
    }

    /// At most one drag is in progress.
    pub open spec fn wf(self) -> bool {
        &&& self.resizing is Some ==> self.moving is None && !self.selecting
        &&& self.moving is Some ==> !self.selecting
    }
}

/// The pointer shape that hovering over the headings asks for.
#[derive(Debug, Clone, Copy, PartialEq, Eq)]
pub enum HeadingCursor {
    ResizeItem,
    ResizeLevel,
    NotAllowed,
    OpenHand,
    Plain,
}

/// What the headings widget does after an event.
#[derive(Debug, Clone, Copy, PartialEq, Eq)]
pub enum HeadingAction {
    /// Nothing; the event is not handled.
    Ignore,
    /// Toggle the sort on the data position shown at `item`, keeping the
    /// other sorts when `extend`.
    ToggleSort { item: VisIdx, extend: bool },
    /// Capture the pointer and show the resize cursor.
    StartResize(ResizeDragging),
    /// Capture the pointer and start dragging the heading at the position.
    StartMove(VisIdx),
    /// Select the heading at `item`, extending the selection when `extend`.
    Select { item: VisIdx, extend: bool },
    /// Move the dragged edge to the pointer; `held` tells whether the button
    /// is still down (then the resize cursor stays).
    Resize { dragging: ResizeDragging, held: bool },
    /// Draw the dragged heading at the pointer.
    Move(VisIdx),
    /// Show this cursor.
    Cursor(HeadingCursor),
    /// Move the dragged edge to the pointer and release the pointer.
    FinishResize(ResizeDragging),
    /// Drop the heading dragged from `from` at `to`, where the pointer is
    /// over a heading, and release the pointer.
    FinishMove { from: VisIdx, to: Option<VisIdx> },
    /// Release the pointer.
    FinishSelect,
}

/// The resize that a press next to the border before position `border`
/// starts, when that position is past the first and its heading can be
/// resized.
pub open spec fn border_resize(header_axis: HeaderAxis, border: VisIdx, resizable: bool) -> Option<ResizeDragging> {
    if border.0 > 0 && resizable {
        Some(ResizeDragging { header_axis, idx: VisIdx((border.0 - 1) as usize) })
    } else {
        None
    }
}

/// What a press gives: a double click on the first header level toggles the
/// sort of the heading under the pointer; a single click next to a border
/// starts a resize where the measure allows it; on a wholly selected heading
/// it starts a move when moves are allowed; elsewhere it changes the
/// selection (extending it with shift) and starts a selection drag.
pub open spec fn mouse_down_spec(
    state: HeadingDrag,
    count: u8,
    extend: bool,
    shift: bool,
    level: Option<LogIdx>,
    item: Option<VisIdx>,
    near_item_border: Option<VisIdx>,
    item_resizable: bool,
    near_level_border: Option<VisIdx>,
    level_resizable: bool,
    fully_selected: bool,
    allow_moves: bool,
) -> (HeadingDrag, HeadingAction) {
    match level {
        None => (state, HeadingAction::Ignore),
        Some(level) => if count == 2 && level.0 == 0 {
            match item {
                Some(item) => (state, HeadingAction::ToggleSort { item, extend }),
                None => (state, HeadingAction::Ignore),
            }
        } else if count == 1 {
            match near_item_border {
                Some(border) => match border_resize(HeaderAxis::Item, border, item_resizable) {
                    Some(rd) => (HeadingDrag { resizing: Some(rd), ..state }, HeadingAction::StartResize(rd)),
                    None => (state, HeadingAction::Ignore),
                },
                None => match near_level_border {
                    Some(border) => match border_resize(HeaderAxis::Level, border, level_resizable) {
                        Some(rd) => (HeadingDrag { resizing: Some(rd), ..state }, HeadingAction::StartResize(rd)),
                        None => (state, HeadingAction::Ignore),
                    },
                    None => match item {
                        Some(item) => if fully_selected && allow_moves {
                            (HeadingDrag { moving: Some(item), ..state }, HeadingAction::StartMove(item))
                        } else {
                            (HeadingDrag { selecting: true, ..state }, HeadingAction::Select { item, extend: shift })
                        },
                        None => (state, HeadingAction::Ignore),
                    },
                },
            }
        } else {
            (state, HeadingAction::Ignore)
        },
    }
}

/// The cursor that hovering asks for: the resize cursor next to a border
/// past the first position (or the refusal where that heading cannot be
/// resized), the open hand over a heading that can be moved, else the plain
/// one. Next to the first border nothing changes.
pub open spec fn hover_spec(
    over_item: Option<VisIdx>,
    near_item_border: Option<VisIdx>,
    item_resizable: bool,
    near_level_border: Option<VisIdx>,
    level_resizable: bool,
    fully_selected: bool,
    allow_moves: bool,
) -> HeadingAction {
    match near_item_border {
        Some(border) => if border.0 > 0 {
            HeadingAction::Cursor(if item_resizable { HeadingCursor::ResizeItem } else { HeadingCursor::NotAllowed })
        } else {
            HeadingAction::Ignore
        },
        None => match near_level_border {
            Some(border) => if border.0 > 0 {
                HeadingAction::Cursor(if level_resizable { HeadingCursor::ResizeLevel } else { HeadingCursor::NotAllowed })
            } else {
                HeadingAction::Ignore
            },
            None => if over_item is Some && fully_selected && allow_moves {
                HeadingAction::Cursor(HeadingCursor::OpenHand)
            } else {
                HeadingAction::Cursor(HeadingCursor::Plain)
            },
        },
    }
}

/// What a pointer move gives: a resize follows the pointer and ends when no
/// button is held any more; a move follows the pointer; a selection drag
/// extends the selection to the heading under the pointer; with no drag the
/// cursor follows what is under the pointer.
pub open spec fn mouse_move_spec(
    state: HeadingDrag,
    over_item: Option<VisIdx>,
    buttons_held: bool,
    near_item_border: Option<VisIdx>,
    item_resizable: bool,
    near_level_border: Option<VisIdx>,
    level_resizable: bool,
    fully_selected: bool,
    allow_moves: bool,
) -> (HeadingDrag, HeadingAction) {
    match state.resizing {
        Some(rd) => (
            if buttons_held { state } else { HeadingDrag { resizing: None, ..state } },
            HeadingAction::Resize { dragging: rd, held: buttons_held },
        ),
        None => match state.moving {
            Some(idx) => (state, HeadingAction::Move(idx)),
            None => if state.selecting {
                match over_item {
                    Some(item) => (state, HeadingAction::Select { item, extend: true }),
                    None => (state, HeadingAction::Ignore),
                }
            } else {
                (
                    state,
                    hover_spec(
                        over_item,
                        near_item_border,
                        item_resizable,
                        near_level_border,
                        level_resizable,
                        fully_selected,
                        allow_moves,
                    ),
                )
            },
        },
    }
}

/// What a release gives: it ends the drag in progress.
pub open spec fn mouse_up_spec(state: HeadingDrag, released_over: Option<VisIdx>) -> (HeadingDrag, HeadingAction) {
    match state.resizing {
        Some(rd) => (HeadingDrag { resizing: None, ..state }, HeadingAction::FinishResize(rd)),
        None => match state.moving {
            Some(from) => (HeadingDrag { moving: None, ..state }, HeadingAction::FinishMove { from, to: released_over }),
            None => if state.selecting {
                (HeadingDrag { selecting: false, ..state }, HeadingAction::FinishSelect)
            } else {
                (state, HeadingAction::Ignore)
            },
        },
    }
}

fn border_resize_at(header_axis: HeaderAxis, border: VisIdx, resizable: bool) -> (r: Option<ResizeDragging>)
    ensures
        r == border_resize(header_axis, border, resizable),
{
    if border.0 > 0 && resizable {
        Some(ResizeDragging::new(header_axis, VisIdx(border.0 - 1)))
    } else {
        None
    }
}

/// Decides a press on the headings. `level` is the header level under the
/// pointer, `item` the heading under it; `near_item_border` and
/// `near_level_border` are the positions whose leading border the pointer is
/// next to, and the `..._resizable` flags whether the heading before that
/// border can be resized; `fully_selected` tells whether the heading at
/// `item` is wholly selected.
pub fn heading_mouse_down(
    state: HeadingDrag,
    count: u8,
    extend: bool,
    shift: bool,
    level: Option<LogIdx>,
    item: Option<VisIdx>,
    near_item_border: Option<VisIdx>,
    item_resizable: bool,
    near_level_border: Option<VisIdx>,
    level_resizable: bool,
    fully_selected: bool,
    allow_moves: bool,
) -> (r: (HeadingDrag, HeadingAction))
    ensures
        r == mouse_down_spec(
            state,
            count,
            extend,
            shift,
            level,
            item,
            near_item_border,
            item_resizable,
            near_level_border,
            level_resizable,
            fully_selected,
            allow_moves,
        ),
        state.is_idle() ==> r.0.wf(),
{
    match level {
        None => (state, HeadingAction::Ignore),
        Some(level) => {
            if count == 2 && level.0 == 0 {
                match item {
                    Some(item) => (state, HeadingAction::ToggleSort { item, extend }),
                    None => (state, HeadingAction::Ignore),
                }
            } else if count == 1 {
                match near_item_border {
                    Some(border) => match border_resize_at(HeaderAxis::Item, border, item_resizable) {
                        Some(rd) => (HeadingDrag { resizing: Some(rd), ..state }, HeadingAction::StartResize(rd)),
                        None => (state, HeadingAction::Ignore),
                    },
                    None => match near_level_border {
                        Some(border) => match border_resize_at(HeaderAxis::Level, border, level_resizable) {
                            Some(rd) => (HeadingDrag { resizing: Some(rd), ..state }, HeadingAction::StartResize(rd)),
                            None => (state, HeadingAction::Ignore),
                        },
                        None => match item {
                            Some(item) => {
                                if fully_selected && allow_moves {
                                    (HeadingDrag { moving: Some(item), ..state }, HeadingAction::StartMove(item))
                                } else {
                                    (HeadingDrag { selecting: true, ..state }, HeadingAction::Select { item, extend: shift })
                                }
                            },
                            None => (state, HeadingAction::Ignore),
                        },
                    },
                }
            } else {
                (state, HeadingAction::Ignore)
            }
        },
    }
}

/// Decides a pointer move over the headings; the arguments are read as for
/// a press, with `over_item` the heading under the pointer and
/// `buttons_held` whether any button is down.
pub fn heading_mouse_move(
    state: HeadingDrag,
    over_item: Option<VisIdx>,
    buttons_held: bool,
    near_item_border: Option<VisIdx>,
    item_resizable: bool,
    near_level_border: Option<VisIdx>,
    level_resizable: bool,
    fully_selected: bool,
    allow_moves: bool,
) -> (r: (HeadingDrag, HeadingAction))
    ensures
        r == mouse_move_spec(
            state,
            over_item,
            buttons_held,
            near_item_border,
            item_resizable,
            near_level_border,
            level_resizable,
            fully_selected,
            allow_moves,
        ),
        state.wf() ==> r.0.wf(),
{
    match state.resizing {
        Some(rd) => {
            let next = if buttons_held { state } else { HeadingDrag { resizing: None, ..state } };
            (next, HeadingAction::Resize { dragging: rd, held: buttons_held })
        },
        None => match state.moving {
            Some(idx) => (state, HeadingAction::Move(idx)),
            None => {
                if state.selecting {
                    match over_item {
                        Some(item) => (state, HeadingAction::Select { item, extend: true }),
                        None => (state, HeadingAction::Ignore),
                    }
                } else {
                    let action = match near_item_border {
                        Some(border) => {
                            if border.0 > 0 {
                                HeadingAction::Cursor(
                                    if item_resizable { HeadingCursor::ResizeItem } else { HeadingCursor::NotAllowed },
                                )
                            } else {
                                HeadingAction::Ignore
                            }
                        },
                        None => match near_level_border {
                            Some(border) => {
                                if border.0 > 0 {
                                    HeadingAction::Cursor(
                                        if level_resizable { HeadingCursor::ResizeLevel } else { HeadingCursor::NotAllowed },
                                    )
                                } else {
                                    HeadingAction::Ignore
                                }
                            },
                            None => {
                                if over_item.is_some() && fully_selected && allow_moves {
                                    HeadingAction::Cursor(HeadingCursor::OpenHand)
                                } else {
                                    HeadingAction::Cursor(HeadingCursor::Plain)
                                }
                            },
                        },
                    };
                    (state, action)
                }
            },
        },
    }
}

/// Decides a release over the headings; `released_over` is the heading under
/// the pointer.
pub fn heading_mouse_up(state: HeadingDrag, released_over: Option<VisIdx>) -> (r: (HeadingDrag, HeadingAction))
    ensures
        r == mouse_up_spec(state, released_over),
        state.wf() ==> r.0.is_idle(),
{
    match state.resizing {
        Some(rd) => (HeadingDrag { resizing: None, ..state }, HeadingAction::FinishResize(rd)),
        None => match state.moving {
            Some(from) => (HeadingDrag { moving: None, ..state }, HeadingAction::FinishMove { from, to: released_over }),
            None => {
                if state.selecting {
                    (HeadingDrag { selecting: false, ..state }, HeadingAction::FinishSelect)
                } else {
                    (state, HeadingAction::Ignore)
                }
            },
        },
    }
}

/// The state of the cells widget between events: whether a press is dragging
/// the selection, and whether a cell editor is open.
#[derive(Debug, Clone, Copy, PartialEq, Eq)]
pub struct CellsState {
    pub dragging_selection: bool,
    pub editing_active: bool,
}

/// The keys that the cells widget reads.
#[derive(Debug, Clone, Copy, PartialEq, Eq)]
pub enum CellsKey {
    ArrowDown,
    ArrowUp,
    ArrowRight,
    ArrowLeft,
    Space,
    Other,
}

/// An event on the cells, with the cell under the pointer already found.
#[derive(Debug, Clone, Copy)]
pub enum CellsInput {
    /// A press; `editing_here` tells whether the cell's editor is open.
    MouseDown { cell: Option<SingleCell>, count: u8, ctrl_or_meta: bool, shift: bool, editing_here: bool },
    MouseMove { cell: Option<SingleCell> },
    MouseUp,
    Key { key: CellsKey, ctrl_or_meta: bool, shift: bool },
}

/// What the cells widget does after an event, besides taking the new
/// selection.
#[derive(Debug, Clone, Copy)]
pub enum CellsEffect {
    /// Nothing; the event is not handled.
    Ignore,
    /// Hand the event to the open editor.
    ToEditor,
    /// Close the editor and capture the pointer for a selection drag.
    StartDragSelect,
    /// Open an editor on the cell, where the cell's delegate makes one.
    StartEditing(SingleCell),
    /// Release the pointer.
    EndDragSelect,
    /// The key was used.
    Handled,
}

/// The effect, and whether to take the keyboard focus.
#[derive(Debug, Clone, Copy)]
pub struct CellsAction {
    pub effect: CellsEffect,
    pub request_focus: bool,
}

/// The focus move that an arrow key asks for.
pub open spec fn arrow_move(key: CellsKey) -> Option<(TableAxis, VisOffset)> {
    match key {
        CellsKey::ArrowDown => Some((TableAxis::Rows, VisOffset(1isize))),
        CellsKey::ArrowUp => Some((TableAxis::Rows, VisOffset(-1isize))),
        CellsKey::ArrowRight => Some((TableAxis::Columns, VisOffset(1isize))),
        CellsKey::ArrowLeft => Some((TableAxis::Columns, VisOffset(-1isize))),
        _ => None,
    }
}

/// The inputs on which a step's focus move stays in the machine's range.
pub open spec fn cells_can_step(state: CellsState, sel: TableSelection, input: CellsInput) -> bool {
    match input {
        CellsInput::Key { key, .. } => match arrow_move(key) {
            Some((axis, amount)) => state.editing_active || sel.can_move(axis, amount),
            None => true,
        },
        _ => true,
    }
}

/// What an event on the cells gives, before the focus request: a single
/// click closes the editor, starts a selection drag and selects the cell
/// (adding it with ctrl or meta, moving the far end with shift); a double
/// click opens the cell's editor; a press on the open editor goes to it; a
/// drag moves the selection's far end; a release ends the drag; with no
/// editor open, the arrows move the focus and space with ctrl or meta (or
/// else shift) widens the selection to the column (or the row).
pub open spec fn cells_decision(
    state: CellsState,
    sel: TableSelection,
    input: CellsInput,
    remaps: &AxisPair<Remap>,
) -> (CellsState, Option<TableSelection>, CellsEffect) {
    match input {
        CellsInput::MouseDown { cell, count, ctrl_or_meta, shift, editing_here } => match cell {
            None => (state, None, CellsEffect::Ignore),
            Some(c) => if editing_here {
                (state, None, CellsEffect::ToEditor)
            } else if count == 1 {
                (
                    CellsState { dragging_selection: true, editing_active: false },
                    if ctrl_or_meta {
                        Some(TableSelection::SingleCell(c))
                    } else if shift {
                        sel.with_extent(c)
                    } else {
                        Some(TableSelection::SingleCell(c))
                    },
                    CellsEffect::StartDragSelect,
                )
            } else if count == 2 {
                (state, None, CellsEffect::StartEditing(c))
            } else {
                (state, None, CellsEffect::Ignore)
            },
        },
        CellsInput::MouseMove { cell } => if !state.editing_active && state.dragging_selection {
            match cell {
                Some(c) => (state, sel.with_extent(c), CellsEffect::Ignore),
                None => (state, None, CellsEffect::Ignore),
            }
        } else {
            (state, None, CellsEffect::Ignore)
        },
        CellsInput::MouseUp => if state.dragging_selection {
            (CellsState { dragging_selection: false, ..state }, None, CellsEffect::EndDragSelect)
        } else {
            (state, None, CellsEffect::Ignore)
        },
        CellsInput::Key { key, ctrl_or_meta, shift } => if state.editing_active {
            (state, None, CellsEffect::Ignore)
        } else {
            match arrow_move(key) {
                Some((axis, amount)) => (state, sel.moved_focus(axis, amount, remaps), CellsEffect::Handled),
                None => if key == CellsKey::Space && ctrl_or_meta {
                    (state, sel.extended(TableAxis::Columns, remaps), CellsEffect::Handled)
                } else if key == CellsKey::Space && shift {
                    (state, sel.extended(TableAxis::Rows, remaps), CellsEffect::Handled)
                } else {
                    (state, None, CellsEffect::Ignore)
                },
            }
        },
    }
}

/// The whole step: the decision, and a focus request where a new selection
/// with a focused cell was made while no editor is open.
pub open spec fn cells_step_spec(
    state: CellsState,
    sel: TableSelection,
    input: CellsInput,
    remaps: &AxisPair<Remap>,
) -> (CellsState, Option<TableSelection>, CellsAction) {
    let (next, new_sel, effect) = cells_decision(state, sel, input, remaps);
    let request_focus = match new_sel {
        Some(s) => s.focus_spec() is Some && !next.editing_active,
        None => false,
    };
    (next, new_sel, CellsAction { effect, request_focus })
}

/// Whether `cells_step` takes this input: false only for an arrow key that
/// would move a focused cell out of the machine's signed range.
pub fn cells_can_step_now(state: CellsState, sel: &TableSelection, input: CellsInput) -> (r: bool)
    ensures
        r == cells_can_step(state, *sel, input),
{
    match input {
        CellsInput::Key { key, .. } => match arrow_move_of(key) {
            Some((axis, amount)) => {
                if state.editing_active {
                    true
                } else {
                    match sel {
                        TableSelection::SingleCell(sc) => {
                            let idx = sc.vis.get(&axis).0;
                            if idx > isize::MAX as usize {
                                false
                            } else {
                                (idx as isize).checked_add(amount.0).is_some()
                            }
                        },
                        _ => true,
                    }
                }
            },
            None => true,
        },
        _ => true,
    }
}

fn arrow_move_of(key: CellsKey) -> (r: Option<(TableAxis, VisOffset)>)
    ensures
        r == arrow_move(key),
{
    match key {
        CellsKey::ArrowDown => Some((TableAxis::Rows, VisOffset(1isize))),
        CellsKey::ArrowUp => Some((TableAxis::Rows, VisOffset(-1isize))),
        CellsKey::ArrowRight => Some((TableAxis::Columns, VisOffset(1isize))),
        CellsKey::ArrowLeft => Some((TableAxis::Columns, VisOffset(-1isize))),
        _ => None,
    }
}

/// Decides an event on the cells: the next state, the new selection if the
/// event makes one, and the action to perform. After a `StartEditing` the
/// caller records in the state whether an editor was opened.
pub fn cells_step(state: CellsState, sel: &TableSelection, input: CellsInput, remaps: &AxisPair<Remap>) -> (r: (
    CellsState,
    Option<TableSelection>,
    CellsAction,
))
    requires
        cells_can_step(state, *sel, input),
    ensures
        r == cells_step_spec(state, *sel, input, remaps),
{
    let (next, new_sel, effect) = match input {
        CellsInput::MouseDown { cell, count, ctrl_or_meta, shift, editing_here } => match cell {
            None => (state, None, CellsEffect::Ignore),
            Some(c) => {
                if editing_here {
                    (state, None, CellsEffect::ToEditor)
                } else if count == 1 {
                    let chosen = if ctrl_or_meta {
                        sel.add_selection(c)
                    } else if shift {
                        sel.move_extent(c)
                    } else {
                        Some(TableSelection::SingleCell(c))
                    };
                    (CellsState { dragging_selection: true, editing_active: false }, chosen, CellsEffect::StartDragSelect)
                } else if count == 2 {
                    (state, None, CellsEffect::StartEditing(c))
                } else {
                    (state, None, CellsEffect::Ignore)
                }
            },
        },
        CellsInput::MouseMove { cell } => {
            if !state.editing_active && state.dragging_selection {
                match cell {
                    Some(c) => (state, sel.move_extent(c), CellsEffect::Ignore),
                    None => (state, None, CellsEffect::Ignore),
                }
            } else {
                (state, None, CellsEffect::Ignore)
            }
        },
        CellsInput::MouseUp => {
            if state.dragging_selection {
                (CellsState { dragging_selection: false, ..state }, None, CellsEffect::EndDragSelect)
            } else {
                (state, None, CellsEffect::Ignore)
            }
        },
        CellsInput::Key { key, ctrl_or_meta, shift } => {
            if state.editing_active {
                (state, None, CellsEffect::Ignore)
            } else {
                match arrow_move_of(key) {
                    Some((axis, amount)) => (state, sel.move_focus(&axis, amount, remaps), CellsEffect::Handled),
                    None => {
                        let space = match key {
                            CellsKey::Space => true,
                            _ => false,
                        };
                        if space && ctrl_or_meta {
                            (state, sel.extend_in_axis(TableAxis::Columns, remaps), CellsEffect::Handled)
                        } else if space && shift {
                            (state, sel.extend_in_axis(TableAxis::Rows, remaps), CellsEffect::Handled)
                        } else {
                            (state, None, CellsEffect::Ignore)
                        }
                    },
                }
            }
        },
    };
    let request_focus = match &new_sel {
        Some(s) => s.has_focus() && !next.editing_active,
        None => false,
    };
    (next, new_sel, CellsAction { effect, request_focus })
}

/// A press on idle headings followed by a release leaves them idle again,
/// whatever the press started.
pub proof fn law_press_then_release_is_idle(
    count: u8,
    extend: bool,
    shift: bool,
    level: Option<LogIdx>,
    item: Option<VisIdx>,
    near_item_border: Option<VisIdx>,
    item_resizable: bool,
    near_level_border: Option<VisIdx>,
    level_resizable: bool,
    fully_selected: bool,
    allow_moves: bool,
    released_over: Option<VisIdx>,
)
    ensures
        ({
            let idle = HeadingDrag { resizing: None, moving: None, selecting: false };
            let pressed = mouse_down_spec(
                idle,
                count,
                extend,
                shift,
                level,
                item,
                near_item_border,
                item_resizable,
                near_level_border,
                level_resizable,
                fully_selected,
                allow_moves,
            ).0;
            mouse_up_spec(pressed, released_over).0 == idle
        }),
{
}

/// While a heading is dragged, or the selection is, or a resize is with the
/// button held, pointer moves leave the drag as it is.
pub proof fn law_moves_keep_the_drag(
    state: HeadingDrag,
    over_item: Option<VisIdx>,
    buttons_held: bool,
    near_item_border: Option<VisIdx>,
    item_resizable: bool,
    near_level_border: Option<VisIdx>,
    level_resizable: bool,
    fully_selected: bool,
    allow_moves: bool,
)
    requires
        state.resizing is None ==> state.moving is Some || state.selecting,
        state.resizing is Some ==> buttons_held,
    ensures
        mouse_move_spec(
            state,
            over_item,
            buttons_held,
            near_item_border,
            item_resizable,
            near_level_border,
            level_resizable,
            fully_selected,
            allow_moves,
        ).0 == state,
{
}

/// A single click on a cell away from its editor, followed by a release,
/// selects that cell and leaves no drag and no editor.
pub proof fn law_click_selects_and_release_ends_drag(
    state: CellsState,
    sel: TableSelection,
    cell: SingleCell,
    shift: bool,
    remaps: &AxisPair<Remap>,
)
    requires
        !shift,
    ensures
        ({
            let (pressed, chosen, _) = cells_step_spec(
                state,
                sel,
                CellsInput::MouseDown { cell: Some(cell), count: 1, ctrl_or_meta: false, shift, editing_here: false },
                remaps,
            );
            let (released, _, _) = cells_step_spec(pressed, sel, CellsInput::MouseUp, remaps);
            &&& chosen == Some(TableSelection::SingleCell(cell))
            &&& pressed.dragging_selection
            &&& !released.dragging_selection
            &&& !released.editing_active
        }),
{
}

/// The arrow that moves the other way along the same axis.
pub open spec fn opposite_arrow(key: CellsKey) -> CellsKey {
    match key {
        CellsKey::ArrowDown => CellsKey::ArrowUp,
        CellsKey::ArrowUp => CellsKey::ArrowDown,
        CellsKey::ArrowRight => CellsKey::ArrowLeft,
        CellsKey::ArrowLeft => CellsKey::ArrowRight,
        other => other,
    }
}

/// An arrow key followed by the opposite one brings back the selected cell,
/// where the first move neither stops at the first position nor leaves the
/// data, and the cell is selected at its data address.
pub proof fn law_arrow_then_opposite_returns(
    state: CellsState,
    sc: SingleCell,
    key: CellsKey,
    ctrl_or_meta: bool,
    shift: bool,
    remaps: &AxisPair<Remap>,
)
    requires
        !state.editing_active,
        arrow_move(key) is Some,
        cells_can_step(state, TableSelection::SingleCell(sc), CellsInput::Key { key, ctrl_or_meta, shift }),
        log_cell_of(remaps, sc.vis) == Some(sc.log),
        sc.vis.at(arrow_move(key).unwrap().0).0 + arrow_move(key).unwrap().1.0 >= 0,
        cells_step_spec(
            state,
            TableSelection::SingleCell(sc),
            CellsInput::Key { key, ctrl_or_meta, shift },
            remaps,
        ).1 is Some,
    ensures
        ({
            let there = cells_step_spec(
                state,
                TableSelection::SingleCell(sc),
                CellsInput::Key { key, ctrl_or_meta, shift },
                remaps,
            );
            let back = cells_step_spec(
                there.0,
                there.1.unwrap(),
                CellsInput::Key { key: opposite_arrow(key), ctrl_or_meta, shift },
                remaps,
            );
            back.1 == Some(TableSelection::SingleCell(sc)) && back.0 == state
        }),
{
    let (axis, amount) = arrow_move(key).unwrap();
    let moved = moved_cell(sc.vis, axis, amount);
    assert(moved.at(axis).0 == sc.vis.at(axis).0 + amount.0);
    assert(moved_cell(moved, axis, VisOffset(-amount.0 as isize)) == sc.vis);
}

} // verus!
