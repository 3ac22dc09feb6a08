use vstd::prelude::*;

use crate::geometry::{max_of, min_of, rect_spec, GroundPoint, GroundRect, ScreenPoint};
use crate::world::{Unit, World};

verus! {

/// Where the pointer was when a drag began: on screen, and on the ground.
#[derive(Clone, Copy, Debug, PartialEq, Eq, Structural)]
pub struct CursorRaycast {
    pub screen: ScreenPoint,
    pub world: GroundPoint,
}

/// Drag state and current selection, owned by the selection controller.
#[derive(Debug)]
pub struct SelectionInProgress {
    /// Anchor of the drag in progress, if any.
    pub box_start: Option<CursorRaycast>,
    /// Indices into `World::units` of the selected units, in index order.
    pub current: Vec<usize>,
}

/// Edges of the drag overlay, in pixels from the window's edges.
#[derive(Clone, Copy, Debug, PartialEq, Eq, Structural)]
pub struct ScreenRect {
    pub left: i64,
    pub right: i64,
    pub top: i64,
    pub bottom: i64,
}

/// The on-screen drag overlay.
#[derive(Clone, Copy, Debug, PartialEq, Eq, Structural)]
pub struct SelectionBox {
    pub visible: bool,
    pub rect: ScreenRect,
}

/// State of the primary pointer button on this tick.
#[derive(Clone, Copy, Debug, PartialEq, Eq, Structural)]
pub struct ButtonState {
    pub pressed: bool,
    pub just_released: bool,
}

impl SelectionInProgress {
    /// No drag in progress and nothing selected.
    pub fn new() -> (r: SelectionInProgress)
        ensures
            r.box_start.is_none(),
            r.current@ == Seq::<usize>::empty(),
    {
        SelectionInProgress { box_start: None, current: Vec::new() }
    }
}

impl SelectionBox {
    /// A hidden overlay.
    pub fn new() -> (r: SelectionBox)
        ensures
            !r.visible,
            r.rect == (ScreenRect { left: 0, right: 0, top: 0, bottom: 0 }),
    {
        SelectionBox { visible: false, rect: ScreenRect { left: 0, right: 0, top: 0, bottom: 0 } }
    }
}

/// A unit may be selected with `rect`: the acting player owns it and its
/// ground position lies inside the rectangle.
pub open spec fn selectable(u: Unit, acting: usize, rect: GroundRect) -> bool {
    u.owner == acting && rect.contains_spec(u.position)
}

/// Indices below `n` of the units selectable with `rect`, in increasing order.
pub open spec fn selection_of(units: Seq<Unit>, acting: usize, rect: GroundRect, n: nat) -> Seq<usize>
    decreases n,
{
    if n == 0 {
        Seq::empty()
    } else {
        let prev = selection_of(units, acting, rect, (n - 1) as nat);
        if selectable(units[n - 1], acting, rect) {
            prev.push((n - 1) as usize)
        } else {
            prev
        }
    }
}

/// The selection made by a drag from `anchor` to `end` on the ground.
pub open spec fn commit_spec(units: Seq<Unit>, acting: usize, anchor: GroundPoint, end: GroundPoint) -> Seq<usize> {
    selection_of(units, acting, rect_spec(anchor, end), units.len())
}

/// The overlay drawn for a drag from `start` to `end` in a window of the given size.
pub open spec fn overlay_spec(start: ScreenPoint, end: ScreenPoint, width: u32, height: u32) -> ScreenRect {
    let min_x = if start.x <= end.x { start.x } else { end.x };
    let max_x = if start.x <= end.x { end.x } else { start.x };
    let min_y = if start.y <= end.y { start.y } else { end.y };
    let max_y = if start.y <= end.y { end.y } else { start.y };
    ScreenRect {
        left: min_x as i64,
        right: (width - max_x) as i64,
        top: (height - max_y) as i64,
        bottom: min_y as i64,
    }
}

/// The indices of the units that the acting player owns inside `rect`.
pub fn select_units(world: &World, rect: GroundRect) -> (r: Vec<usize>)
    ensures
        r@ == selection_of(world.units@, world.acting_player, rect, world.units@.len()),
{
    let mut r: Vec<usize> = Vec::new();
    let mut i: usize = 0;
    while i < world.units.len()
        invariant
            i <= world.units@.len(),
            r@ == selection_of(world.units@, world.acting_player, rect, i as nat),
        decreases world.units@.len() - i,
    {
        let u = world.units[i];
        if u.owner == world.acting_player && rect.contains(u.position) {
            r.push(i);
        }
        i = i + 1;
    }
    r
}

/// The overlay rectangle for a drag from `start` to `end`.
pub fn overlay_rect(start: ScreenPoint, end: ScreenPoint, width: u32, height: u32) -> (r: ScreenRect)
    ensures
        r == overlay_spec(start, end, width, height),
        r.left <= width - r.right,
        r.bottom <= height - r.top,
{
    let min_x = if start.x <= end.x { start.x } else { end.x };
    let max_x = if start.x <= end.x { end.x } else { start.x };
    let min_y = if start.y <= end.y { start.y } else { end.y };
    let max_y = if start.y <= end.y { end.y } else { start.y };
    ScreenRect {
        left: min_x as i64,
        right: width as i64 - max_x as i64,
        top: height as i64 - max_y as i64,
        bottom: min_y as i64,
    }
}

/// A unit index below `n` is in `selection_of(.., n)` exactly when that unit
/// is selectable, and the indices come in strictly increasing order.
pub proof fn lemma_selection_of(units: Seq<Unit>, acting: usize, rect: GroundRect, n: nat)
    requires
        n <= units.len(),
        n <= usize::MAX + 1,
    ensures
        forall|j: int|
            0 <= j < n ==> (selection_of(units, acting, rect, n).contains(j as usize) <==> selectable(
                units[j],
                acting,
                rect,
            )),
        forall|k: int|
            0 <= k < selection_of(units, acting, rect, n).len() ==> (#[trigger] selection_of(
                units,
                acting,
                rect,
                n,
            )[k]) < n,
        forall|k1: int, k2: int|
            0 <= k1 < k2 < selection_of(units, acting, rect, n).len() ==> selection_of(
                units,
                acting,
                rect,
                n,
            )[k1] < selection_of(units, acting, rect, n)[k2],
    decreases n,
{
    if n > 0 {
        let m = (n - 1) as nat;
        lemma_selection_of(units, acting, rect, m);
        let prev = selection_of(units, acting, rect, m);
        let cur = selection_of(units, acting, rect, n);
        assert forall|j: int| 0 <= j < n implies (cur.contains(j as usize) <==> selectable(
            units[j],
            acting,
            rect,
        )) by {
            if j < m {
                if cur.contains(j as usize) {
                    let k = choose|k: int| 0 <= k < cur.len() && cur[k] == j as usize;
                    if k < prev.len() {
                        assert(prev[k] == cur[k]);
                    }
                } else if selectable(units[j], acting, rect) {
                    let k = choose|k: int| 0 <= k < prev.len() && prev[k] == j as usize;
                    assert(cur[k] == prev[k]);
                }
            } else {
                if selectable(units[j], acting, rect) {
                    assert(cur[cur.len() - 1] == j as usize);
                } else if cur.contains(j as usize) {
                    let k = choose|k: int| 0 <= k < cur.len() && cur[k] == j as usize;
                    assert(prev[k] < m);
                }
            }
        }
    }
}

/// Containment: after a drag from `anchor` to `end`, a unit is selected
/// exactly when the acting player owns it and both of its ground coordinates
/// lie within the closed bounds spanned by the two corners.
pub proof fn lemma_containment(units: Seq<Unit>, acting: usize, anchor: GroundPoint, end: GroundPoint, i: int)
    requires
        0 <= i < units.len(),
        units.len() <= usize::MAX,
    ensures
        commit_spec(units, acting, anchor, end).contains(i as usize) <==> {
            &&& units[i].owner == acting
            &&& min_of(anchor.x as int, end.x as int) <= units[i].position.x <= max_of(
                anchor.x as int,
                end.x as int,
            )
            &&& min_of(anchor.z as int, end.z as int) <= units[i].position.z <= max_of(
                anchor.z as int,
                end.z as int,
            )
        },
{
    lemma_selection_of(units, acting, rect_spec(anchor, end), units.len());
}

/// Ownership exclusivity: whatever the rectangle, a unit that the acting
/// player does not own is never selected.
pub proof fn lemma_ownership_exclusive(units: Seq<Unit>, acting: usize, anchor: GroundPoint, end: GroundPoint, j: usize)
    requires
        units.len() <= usize::MAX,
        (j as int) < units.len() ==> units[j as int].owner != acting,
    ensures
        !commit_spec(units, acting, anchor, end).contains(j),
{
    let sel = commit_spec(units, acting, anchor, end);
    lemma_selection_of(units, acting, rect_spec(anchor, end), units.len());
    if sel.contains(j) {
        let k = choose|k: int| 0 <= k < sel.len() && sel[k] == j;
        assert(sel[k] < units.len());
    }
}

/// The state the selection controller keeps between ticks: the drag anchor,
/// the selection and the overlay.
pub type SelectionState = (Option<CursorRaycast>, Seq<usize>, SelectionBox);

/// The state after one tick of the selection controller.
pub open spec fn left_click_spec(
    state: SelectionState,
    units: Seq<Unit>,
    acting: usize,
    buttons: ButtonState,
    cursor: Option<ScreenPoint>,
    ground: Option<GroundPoint>,
    window_width: u32,
    window_height: u32,
) -> SelectionState {
    let (box_start, current, overlay) = state;
    match (cursor, ground) {
        (Some(c), Some(g)) => {
            if buttons.just_released {
                match box_start {
                    Some(start) => (
                        None,
                        commit_spec(units, acting, start.world, g),
                        SelectionBox { visible: false, ..overlay },
                    ),
                    None => state,
                }
            } else if buttons.pressed {
                let start = match box_start {
                    Some(s) => s,
                    None => CursorRaycast { screen: c, world: g },
                };
                (
                    Some(start),
                    current,
                    SelectionBox {
                        visible: true,
                        rect: overlay_spec(start.screen, c, window_width, window_height),
                    },
                )
            } else {
                state
            }
        },
        _ => state,
    }
}

/// One tick of the selection controller.
///
/// Nothing changes on a tick without a pointer position or without a ground
/// point under the pointer. Otherwise a release of the primary button ends the
/// drag in progress: the overlay is hidden and the selection becomes the units
/// of the acting player inside the ground rectangle from the anchor to the
/// pointer, whatever was selected before. While the button is held, a drag
/// starts if none is in progress, and the overlay shows the screen rectangle
/// from the anchor to the pointer.
pub fn left_click(
    selection: &mut SelectionInProgress,
    selection_box: &mut SelectionBox,
    world: &World,
    buttons: ButtonState,
    cursor: Option<ScreenPoint>,
    ground: Option<GroundPoint>,
    window_width: u32,
    window_height: u32,
)
    ensures
        (final(selection).box_start, final(selection).current@, *final(selection_box))
            == left_click_spec(
            (old(selection).box_start, old(selection).current@, *old(selection_box)),
            world.units@,
            world.acting_player,
            buttons,
            cursor,
            ground,
            window_width,
            window_height,
        ),
{
    let c = match cursor {
        Some(c) => c,
        None => return,
    };
    let g = match ground {
        Some(g) => g,
        None => return,
    };
    if buttons.just_released {
        if let Some(start) = selection.box_start {
            selection.box_start = None;
            selection_box.visible = false;
            let rect = GroundRect::from_corners(start.world, g);
            selection.current = select_units(world, rect);
        }
    } else if buttons.pressed {
        let start = match selection.box_start {
            Some(s) => s,
            None => CursorRaycast { screen: c, world: g },
        };
        selection.box_start = Some(start);
        selection_box.rect = overlay_rect(start.screen, c, window_width, window_height);
        selection_box.visible = true;
    }
}

/// Every entry names a unit that the acting player owns.
pub open spec fn all_owned(sel: Seq<usize>, units: Seq<Unit>, acting: usize) -> bool {
    forall|k: int|
        0 <= k < sel.len() ==> (#[trigger] sel[k] as int) < units.len() && units[sel[k] as int].owner
            == acting
}

/// Ownership exclusivity on every path: if the selection holds only units of
/// the acting player, it still does after any tick, whatever the buttons,
/// pointer, ground point or rectangle.
pub proof fn lemma_selection_stays_owned(
    state: SelectionState,
    units: Seq<Unit>,
    acting: usize,
    buttons: ButtonState,
    cursor: Option<ScreenPoint>,
    ground: Option<GroundPoint>,
    window_width: u32,
    window_height: u32,
)
    requires
        units.len() <= usize::MAX,
        all_owned(state.1, units, acting),
    ensures
        all_owned(
            left_click_spec(state, units, acting, buttons, cursor, ground, window_width, window_height).1,
            units,
            acting,
        ),
{
    if let (Some(c), Some(g), Some(start)) = (cursor, ground, state.0) {
        if buttons.just_released {
            let rect = rect_spec(start.world, g);
            let sel = selection_of(units, acting, rect, units.len());
            lemma_selection_of(units, acting, rect, units.len());
            assert forall|k: int| 0 <= k < sel.len() implies (#[trigger] sel[k] as int) < units.len()
                && units[sel[k] as int].owner == acting by {
                assert(sel.contains(sel[k]));
            }
        }
    }
}

/// The direction of a drag does not matter: dragging from either corner to
/// the opposite one selects the same units.
pub proof fn lemma_drag_direction(units: Seq<Unit>, acting: usize, anchor: GroundPoint, end: GroundPoint)
    ensures
        commit_spec(units, acting, anchor, end) == commit_spec(units, acting, end, anchor),
{
    assert(rect_spec(anchor, end) == rect_spec(end, anchor));
}

/// A tick without a ground point under the pointer, or without a pointer,
/// changes neither the drag nor the selection nor the overlay: no drag starts
/// and none is committed.
pub proof fn lemma_unresolved_is_noop(
    state: SelectionState,
    units: Seq<Unit>,
    acting: usize,
    buttons: ButtonState,
    cursor: Option<ScreenPoint>,
    ground: Option<GroundPoint>,
    window_width: u32,
    window_height: u32,
)
    requires
        ground.is_none() || cursor.is_none(),
    ensures
        left_click_spec(state, units, acting, buttons, cursor, ground, window_width, window_height)
            == state,
{
}

/// Replaying a drag: committing a drag, then pressing again at the same
/// anchor and releasing at the same point, leaves the same selection as the
/// first commit, whatever was selected before it.
pub proof fn lemma_drag_replay(
    state: SelectionState,
    units: Seq<Unit>,
    acting: usize,
    anchor: CursorRaycast,
    end_screen: ScreenPoint,
    end: GroundPoint,
    window_width: u32,
    window_height: u32,
)
    requires
        state.0 == Some(anchor),
    ensures
        ({
            let held = ButtonState { pressed: true, just_released: false };
            let released = ButtonState { pressed: false, just_released: true };
            let first = left_click_spec(
                state,
                units,
                acting,
                released,
                Some(end_screen),
                Some(end),
                window_width,
                window_height,
            );
            let pressed = left_click_spec(
                first,
                units,
                acting,
                held,
                Some(anchor.screen),
                Some(anchor.world),
                window_width,
                window_height,
            );
            let second = left_click_spec(
                pressed,
                units,
                acting,
                released,
                Some(end_screen),
                Some(end),
                window_width,
                window_height,
            );
            &&& first.0.is_none()
            &&& first.1 == commit_spec(units, acting, anchor.world, end)
            &&& second.0.is_none()
            &&& second.1 == first.1
        }),
{
}

} // verus!
