//! Which part of a window has the keyboard, and where it goes next.
use vstd::prelude::*;

use crate::panes::{Direction, PaneId};

verus! {

/// What had focus when an overlay opened, so closing it hands focus back.
/// Stored by identity, so a pane that exits meanwhile falls back to the
/// active one instead of a dead element.
#[derive(Debug, Clone, Copy, PartialEq, Eq, Structural)]
pub enum FocusTarget {
    Pane(PaneId),
    Tree,
    Workspaces,
}

/// Where a pane is drawn, in whole units of a fixed fraction of a pixel.
#[derive(Debug, Clone, Copy, PartialEq, Eq, Structural)]
pub struct Rect {
    pub x: i32,
    pub y: i32,
    pub width: u32,
    pub height: u32,
}

impl Rect {
    pub open spec fn right(self) -> int {
        self.x + self.width
    }

    pub open spec fn bottom(self) -> int {
        self.y + self.height
    }

    /// Twice the centre, along the horizontal.
    pub open spec fn across(self) -> int {
        2 * self.x + self.width
    }

    /// Twice the centre, along the vertical.
    pub open spec fn down(self) -> int {
        2 * self.y + self.height
    }
}

/// Twice the distance between the centres of two panes, in a direction.
pub open spec fn gap(from: Rect, to: Rect, direction: Direction) -> int {
    match direction {
        Direction::Left => from.across() - to.across(),
        Direction::Right => to.across() - from.across(),
        Direction::Up => from.down() - to.down(),
        Direction::Down => to.down() - from.down(),
    }
}

/// Whether two panes overlap on the axis that a direction does not run along.
pub open spec fn beside(from: Rect, to: Rect, direction: Direction) -> bool {
    match direction {
        Direction::Left | Direction::Right => to.y < from.bottom() && to.bottom() > from.y,
        Direction::Up | Direction::Down => to.x < from.right() && to.right() > from.x,
    }
}

/// Whether a pane lies in a direction from another. Overlap on the other axis
/// is required, so that focus does not jump to a pane that merely happens to
/// sit in that half of the window.
pub open spec fn lies(from: Rect, to: Rect, direction: Direction) -> bool {
    gap(from, to, direction) > 0 && beside(from, to, direction)
}

/// Where a pane is drawn, by the first record for it.
pub open spec fn drawn(bounds: Seq<(PaneId, Rect)>, id: PaneId) -> Option<Rect>
    decreases bounds.len(),
{
    if bounds.len() == 0 {
        None
    } else if bounds[0].0 == id {
        Some(bounds[0].1)
    } else {
        drawn(bounds.skip(1), id)
    }
}

fn bounds_of(bounds: &Vec<(PaneId, Rect)>, id: PaneId) -> (r: Option<Rect>)
    ensures
        r == drawn(bounds@, id),
{
    let mut i: usize = 0;
    assert(bounds@.skip(0) =~= bounds@);
    while i < bounds.len()
        invariant
            i <= bounds.len(),
            drawn(bounds@, id) == drawn(bounds@.skip(i as int), id),
        decreases bounds.len() - i,
    {
        assert(bounds@.skip(i as int)[0] == bounds@[i as int]);
        assert(bounds@.skip(i as int).skip(1) =~= bounds@.skip(i + 1));
        if bounds[i].0 == id {
            return Some(bounds[i].1);
        }
        i += 1;
    }
    None
}

/// Whether the pane at a place of the reading order can take the focus that
/// moves from `active` in a direction.
pub open spec fn reachable(
    order: Seq<PaneId>,
    bounds: Seq<(PaneId, Rect)>,
    active: PaneId,
    direction: Direction,
    i: int,
) -> bool {
    &&& 0 <= i < order.len()
    &&& order[i] != active
    &&& drawn(bounds, active) is Some
    &&& drawn(bounds, order[i]) is Some
    &&& lies(drawn(bounds, active)->0, drawn(bounds, order[i])->0, direction)
}

/// How far the pane at a place of the reading order is from `active`.
pub open spec fn away(
    order: Seq<PaneId>,
    bounds: Seq<(PaneId, Rect)>,
    active: PaneId,
    direction: Direction,
    i: int,
) -> int {
    gap(drawn(bounds, active)->0, drawn(bounds, order[i])->0, direction)
}

/// Whether the pane at a place is the one to go to: no reachable pane is
/// nearer, and none before it is as near.
pub open spec fn nearest(
    order: Seq<PaneId>,
    bounds: Seq<(PaneId, Rect)>,
    active: PaneId,
    direction: Direction,
    i: int,
) -> bool {
    &&& reachable(order, bounds, active, direction, i)
    &&& forall|j: int| #[trigger]
        reachable(order, bounds, active, direction, j) ==> if j < i {
            away(order, bounds, active, direction, i) < away(order, bounds, active, direction, j)
        } else {
            away(order, bounds, active, direction, i) <= away(order, bounds, active, direction, j)
        }
}

fn gap_of(from: Rect, to: Rect, direction: Direction) -> (r: i64)
    ensures
        r == gap(from, to, direction),
{
    let a = 2 * from.x as i64 + from.width as i64;
    let b = 2 * to.x as i64 + to.width as i64;
    let c = 2 * from.y as i64 + from.height as i64;
    let d = 2 * to.y as i64 + to.height as i64;
    match direction {
        Direction::Left => a - b,
        Direction::Right => b - a,
        Direction::Up => c - d,
        Direction::Down => d - c,
    }
}

fn is_beside(from: Rect, to: Rect, direction: Direction) -> (r: bool)
    ensures
        r == beside(from, to, direction),
{
    match direction {
        Direction::Left | Direction::Right => (to.y as i64) < from.y as i64 + from.height as i64
            && to.y as i64 + to.height as i64 > from.y as i64,
        Direction::Up | Direction::Down => (to.x as i64) < from.x as i64 + from.width as i64
            && to.x as i64 + to.width as i64 > from.x as i64,
    }
}

/// Nearest pane in `direction`, chosen geometrically so navigation follows
/// what is on screen rather than the shape of the split tree. `order` holds
/// the panes of the tab; one that is not drawn yet has no bounds.
pub fn pane_in_direction(
    order: &Vec<PaneId>,
    bounds: &Vec<(PaneId, Rect)>,
    active: PaneId,
    direction: Direction,
) -> (r: Option<PaneId>)
    ensures
        match r {
            None => forall|i: int| !#[trigger] reachable(order@, bounds@, active, direction, i),
            Some(id) => exists|i: int| #[trigger]
                nearest(order@, bounds@, active, direction, i) && order@[i] == id,
        },
{
    let current = match bounds_of(bounds, active) {
        None => {
            return None;
        },
        Some(b) => b,
    };
    let mut best: Option<usize> = None;
    let mut least: i64 = 0;
    let mut i: usize = 0;
    while i < order.len()
        invariant
            i <= order.len(),
            drawn(bounds@, active) == Some(current),
            match best {
                None => forall|j: int|
                    j < i ==> !#[trigger] reachable(order@, bounds@, active, direction, j),
                Some(b) => {
                    &&& b < i
                    &&& reachable(order@, bounds@, active, direction, b as int)
                    &&& least == away(order@, bounds@, active, direction, b as int)
                    &&& forall|j: int| #[trigger]
                        reachable(order@, bounds@, active, direction, j) && j < i ==> if j < b {
                            least < away(order@, bounds@, active, direction, j)
                        } else {
                            least <= away(order@, bounds@, active, direction, j)
                        }
                },
            },
        decreases order.len() - i,
    {
        let id = order[i];
        if id != active {
            if let Some(b) = bounds_of(bounds, id) {
                let distance = gap_of(current, b, direction);
                if distance > 0 && is_beside(current, b, direction) {
                    assert(reachable(order@, bounds@, active, direction, i as int));
                    if best.is_none() || distance < least {
                        best = Some(i);
                        least = distance;
                    }
                }
            }
        }
        i += 1;
    }
    match best {
        None => None,
        Some(b) => {
            assert(nearest(order@, bounds@, active, direction, b as int));
            Some(order[b])
        },
    }
}

/// There is at most one nearest pane, so what is found is all there is to
/// find.
pub proof fn lemma_nearest_unique(
    order: Seq<PaneId>,
    bounds: Seq<(PaneId, Rect)>,
    active: PaneId,
    direction: Direction,
    i: int,
    j: int,
)
    requires
        nearest(order, bounds, active, direction, i),
        nearest(order, bounds, active, direction, j),
    ensures
        i == j,
{
    assert(reachable(order, bounds, active, direction, i));
    assert(reachable(order, bounds, active, direction, j));
}

/// The opposite direction.
pub open spec fn opposite(direction: Direction) -> Direction {
    match direction {
        Direction::Left => Direction::Right,
        Direction::Right => Direction::Left,
        Direction::Up => Direction::Down,
        Direction::Down => Direction::Up,
    }
}

/// A pane lies in a direction from another exactly where that other lies in
/// the opposite direction from it.
pub proof fn lemma_lies_opposite(a: Rect, b: Rect, direction: Direction)
    ensures
        lies(a, b, direction) <==> lies(b, a, opposite(direction)),
{
}

/// Where the focus goes in a direction: from the drawer only rightwards, to
/// the active pane; from a pane to the nearest one, and off the left edge of
/// the panes to the drawer, which is what is over there. `None` leaves it.
pub fn focus_in_direction(
    in_drawer: bool,
    direction: Direction,
    active: PaneId,
    found: Option<PaneId>,
) -> (r: Option<FocusTarget>)
    ensures
        r == if in_drawer {
            if direction is Right {
                Some(FocusTarget::Pane(active))
            } else {
                None
            }
        } else {
            match found {
                Some(id) => Some(FocusTarget::Pane(id)),
                None => if direction is Left {
                    Some(FocusTarget::Tree)
                } else {
                    None
                },
            }
        },
{
    if in_drawer {
        return match direction {
            Direction::Right => Some(FocusTarget::Pane(active)),
            _ => None,
        };
    }
    match (found, direction) {
        (Some(id), _) => Some(FocusTarget::Pane(id)),
        (None, Direction::Left) => Some(FocusTarget::Tree),
        (None, _) => None,
    }
}

/// What has the focus, as far as an overlay has to remember it.
pub fn current_focus_target(on_tree: bool, on_workspaces: bool, active: PaneId) -> (r: FocusTarget)
    ensures
        r == if on_tree {
            FocusTarget::Tree
        } else if on_workspaces {
            FocusTarget::Workspaces
        } else {
            FocusTarget::Pane(active)
        },
{
    if on_tree {
        FocusTarget::Tree
    } else if on_workspaces {
        FocusTarget::Workspaces
    } else {
        FocusTarget::Pane(active)
    }
}

/// Where the focus goes back to: what had it, if that is still there, else
/// the active pane.
pub open spec fn restored_focus(
    target: FocusTarget,
    drawer_visible: bool,
    live: Seq<PaneId>,
    active: PaneId,
) -> FocusTarget {
    match target {
        FocusTarget::Pane(id) => if live.contains(id) {
            target
        } else {
            FocusTarget::Pane(active)
        },
        _ => if drawer_visible {
            target
        } else {
            FocusTarget::Pane(active)
        },
    }
}

/// Hand the focus back. `live` are the panes that still run.
pub fn restore_focus(
    target: FocusTarget,
    drawer_visible: bool,
    live: &Vec<PaneId>,
    active: PaneId,
) -> (r: FocusTarget)
    ensures
        r == restored_focus(target, drawer_visible, live@, active),
{
    match target {
        FocusTarget::Pane(id) => {
            let mut i: usize = 0;
            while i < live.len()
                invariant
                    i <= live.len(),
                    target == FocusTarget::Pane(id),
                    forall|k: int| 0 <= k < i ==> live@[k] != id,
                decreases live.len() - i,
            {
                if live[i] == id {
                    return target;
                }
                i += 1;
            }
            FocusTarget::Pane(active)
        },
        _ => if drawer_visible {
            target
        } else {
            FocusTarget::Pane(active)
        },
    }
}

/// Focus never goes back to a pane that is gone, nor to a drawer that is
/// hidden.
pub proof fn lemma_focus_lands(
    target: FocusTarget,
    drawer_visible: bool,
    live: Seq<PaneId>,
    active: PaneId,
)
    requires
        live.contains(active),
    ensures
        match restored_focus(target, drawer_visible, live, active) {
            FocusTarget::Pane(id) => live.contains(id),
            _ => drawer_visible,
        },
{
}

/// The drawer shown or hidden: whether it shows now, and whether the focus
/// has to leave it.
pub fn toggle_drawer(visible: bool, tree_focused: bool) -> (r: (bool, bool))
    ensures
        r.0 == !visible,
        r.1 == (visible && tree_focused),
{
    (!visible, visible && tree_focused)
}

/// What the window does when something happens in a pane.
#[derive(Debug, Clone, Copy, PartialEq, Eq, Structural)]
pub struct PaneReaction {
    pub close: bool,
    pub set_tree_root: bool,
    pub refresh_git: bool,
    pub save: bool,
}

/// The shell of a pane ended. As in Terminal.app, a clean `exit` closes the
/// pane; a crash or non-zero status keeps it, so the failure stays readable.
pub fn on_exited(code: Option<i32>) -> (r: PaneReaction)
    ensures
        r.close == (code == Some(0i32)),
        !r.set_tree_root && !r.refresh_git && !r.save,
{
    let close = match code {
        Some(c) => c == 0,
        None => false,
    };
    PaneReaction { close, set_tree_root: false, refresh_git: false, save: false }
}

/// The shell of a pane changed its directory. Background panes do so too;
/// only the focused one moves the tree or the status bar. Any pane's `cd`
/// changes what a pinned workspace comes back to, focused or not.
pub fn on_cwd_changed(is_active: bool, follow_cwd: bool) -> (r: PaneReaction)
    ensures
        !r.close,
        r.set_tree_root == (is_active && follow_cwd),
        r.refresh_git == is_active,
        r.save,
{
    PaneReaction {
        close: false,
        set_tree_root: is_active && follow_cwd,
        refresh_git: is_active,
        save: true,
    }
}

/// A pane past an edge of another, and level with it, lies on that side and
/// on no other; one that is not level lies on neither side.
pub proof fn lemma_sides(from: Rect, to: Rect)
    requires
        from.width > 0,
        from.height > 0,
        to.width > 0,
        to.height > 0,
    ensures
        ({
            let rows = to.y < from.y + from.height && from.y < to.y + to.height;
            let columns = to.x < from.x + from.width && from.x < to.x + to.width;
            &&& rows && from.x + from.width <= to.x ==> lies(from, to, Direction::Right) && !lies(
                from,
                to,
                Direction::Left,
            )
            &&& rows && to.x + to.width <= from.x ==> lies(from, to, Direction::Left) && !lies(
                from,
                to,
                Direction::Right,
            )
            &&& columns && from.y + from.height <= to.y ==> lies(from, to, Direction::Down)
                && !lies(from, to, Direction::Up)
            &&& columns && to.y + to.height <= from.y ==> lies(from, to, Direction::Up) && !lies(
                from,
                to,
                Direction::Down,
            )
            &&& !rows ==> !lies(from, to, Direction::Left) && !lies(from, to, Direction::Right)
            &&& !columns ==> !lies(from, to, Direction::Up) && !lies(from, to, Direction::Down)
        }),
{
}

/// Of two panes on a side, the one whose middle is nearer is the nearer one.
pub proof fn lemma_nearer(from: Rect, a: Rect, b: Rect)
    ensures
        2 * a.x + a.width < 2 * b.x + b.width ==> gap(from, a, Direction::Right) < gap(
            from,
            b,
            Direction::Right,
        ) && gap(from, b, Direction::Left) < gap(from, a, Direction::Left),
        2 * a.y + a.height < 2 * b.y + b.height ==> gap(from, a, Direction::Down) < gap(
            from,
            b,
            Direction::Down,
        ) && gap(from, b, Direction::Up) < gap(from, a, Direction::Up),
{
}

/// Focus goes back to where it was as long as that is still there.
pub proof fn lemma_focus_returns(id: PaneId, live: Seq<PaneId>, active: PaneId, drawer_visible: bool)
    ensures
        live.contains(id) ==> restored_focus(FocusTarget::Pane(id), drawer_visible, live, active)
            == FocusTarget::Pane(id),
        !live.contains(id) ==> restored_focus(FocusTarget::Pane(id), drawer_visible, live, active)
            == FocusTarget::Pane(active),
        restored_focus(FocusTarget::Tree, true, live, active) == FocusTarget::Tree,
        restored_focus(FocusTarget::Workspaces, true, live, active) == FocusTarget::Workspaces,
        restored_focus(FocusTarget::Tree, false, live, active) == FocusTarget::Pane(active),
        restored_focus(FocusTarget::Workspaces, false, live, active) == FocusTarget::Pane(active),
{
}

/// To the right of the drawer is the active pane, and nothing lies in any
/// other direction of it. From a pane the focus goes to the pane that was
/// found, and to the drawer where there is none on the left.
pub proof fn lemma_focus_moves(direction: Direction, active: PaneId, id: PaneId, r: Option<FocusTarget>)
    ensures
        call_ensures(focus_in_direction, (true, Direction::Right, active, Some(id)), r) ==> r
            == Some(FocusTarget::Pane(active)),
        !(direction is Right) && call_ensures(
            focus_in_direction,
            (true, direction, active, Some(id)),
            r,
        ) ==> r is None,
        call_ensures(focus_in_direction, (false, direction, active, Some(id)), r) ==> r == Some(
            FocusTarget::Pane(id),
        ),
        call_ensures(focus_in_direction, (false, Direction::Left, active, None), r) ==> r == Some(
            FocusTarget::Tree,
        ),
        !(direction is Left) && call_ensures(
            focus_in_direction,
            (false, direction, active, None),
            r,
        ) ==> r is None,
{
}

/// What has the focus is named: the tree, the workspaces, or the active pane.
pub proof fn lemma_what_has_the_focus(active: PaneId, r: FocusTarget)
    ensures
        call_ensures(current_focus_target, (true, false, active), r) ==> r is Tree,
        call_ensures(current_focus_target, (false, true, active), r) ==> r is Workspaces,
        call_ensures(current_focus_target, (false, false, active), r) ==> r == FocusTarget::Pane(
            active,
        ),
{
}

/// The drawer goes out and in; only where it takes the focus with it does the
/// terminal get it.
pub proof fn lemma_the_drawer(visible: bool, tree_focused: bool, r: (bool, bool))
    requires
        call_ensures(toggle_drawer, (visible, tree_focused), r),
    ensures
        visible ==> !r.0 && r.1 == tree_focused,
        !visible ==> r.0 && !r.1,
{
}

/// A pane closes after a clean exit only. A new directory is saved, and for
/// the active pane git is asked again and the tree moves along if it follows.
pub proof fn lemma_pane_events(code: i32, is_active: bool, follow_cwd: bool, r: PaneReaction)
    ensures
        call_ensures(on_exited, (Some(0i32),), r) ==> r.close,
        code != 0 && call_ensures(on_exited, (Some(code),), r) ==> !r.close,
        call_ensures(on_exited, (None,), r) ==> !r.close,
        call_ensures(on_cwd_changed, (is_active, follow_cwd), r) ==> r.save && !r.close
            && r.refresh_git == is_active && (r.set_tree_root <==> is_active && follow_cwd),
{
}

} // verus!
