//! The navigation state machine: where in the menu tree the user is, where
//! the active ring is centred, and how pointer events move between the two.
//!
//! The machine has four phases. It starts `Hidden`; showing the menu makes it
//! `AwaitingAnchor`; the first pointer event after that fixes the anchor and
//! makes it `AtRoot`; clicking a submenu entry descends (`InSubmenu`), and
//! clicking the centre control ascends again or, at the root, hides the menu.
//!
//! The machine performs no side effect. A click reports what happened and
//! which action, if any, the host has to dispatch.

use crate::geometry::{
    closest_index_for_pointer,
    dist2,
    dist2_spec,
    hit_test,
    lemma_closest_exists,
    radius2,
    square,
    Point,
};
use crate::menu::{
    action_option_view,
    lemma_no_walk_returns,
    lemma_walk_extends,
    lemma_walk_shortens,
    Action,
    ActionView,
    EntryKind,
    EntryKindView,
    EntryView,
    MenuTree,
    TreeView,
};
use vstd::prelude::*;

verus! {

/// The sizes that decide how a click is read, in the unit of the coordinates.
#[derive(Clone, Copy, Debug, PartialEq, Eq, Structural)]
pub struct Metrics {
    /// Radius of the centre control.
    pub center_radius: u32,
    /// Radius around the ring's centre within which no entry is selected.
    pub deadzone: u32,
    /// Distance from the ring's centre to the centre of each entry.
    pub ring_distance: u32,
    /// Radius of the disc drawn for each entry.
    pub item_radius: u32,
}

impl Metrics {
    /// Whether a click at `at` lands on the centre control of a ring around
    /// `center`.
    pub open spec fn on_center(self, at: Point, center: Point) -> bool {
        dist2_spec(at, center) <= square(self.center_radius as int)
    }

    /// Whether a click at `at` lands in the inner activation band of a ring
    /// around `center`: no farther from the centre than the ring distance
    /// less the item radius.
    pub open spec fn in_inner_band(self, at: Point, center: Point) -> bool {
        dist2_spec(at, center) <= square(self.ring_distance - self.item_radius)
    }

    /// Whether a click at `at` lands on the centre control.
    pub fn is_on_center(&self, at: Point, center: Point) -> (r: bool)
        ensures
            r == self.on_center(at, center),
    {
        dist2(at, center) <= radius2(self.center_radius)
    }

    /// Whether a click at `at` lands in the inner activation band.
    pub fn is_in_inner_band(&self, at: Point, center: Point) -> (r: bool)
        ensures
            r == self.in_inner_band(at, center),
    {
        let width: u32 = if self.ring_distance >= self.item_radius {
            self.ring_distance - self.item_radius
        } else {
            self.item_radius - self.ring_distance
        };
        assert(square(width as int) == square(self.ring_distance - self.item_radius))
            by (nonlinear_arith)
            requires
                width == self.ring_distance - self.item_radius || width == -(self.ring_distance
                    - self.item_radius),
        ;
        dist2(at, center) <= radius2(width)
    }
}

/// One step of the way from the root to the current menu.
#[derive(Clone, Copy, Debug, PartialEq, Eq, Structural)]
pub struct Level {
    /// The entry that was chosen in the parent menu.
    pub index: usize,
    /// The centre that was active before descending, restored on ascent.
    pub center: Point,
}

/// The phases of a visibility session.
#[derive(Clone, Copy, Debug, PartialEq, Eq, Structural)]
pub enum Phase {
    Hidden,
    AwaitingAnchor,
    AtRoot,
    InSubmenu,
}

/// What a click did to the state.
#[derive(Clone, Copy, Debug, PartialEq, Eq, Structural)]
pub enum Transition {
    /// The menu is hidden; the click was not for it.
    Ignored,
    /// The click fixed the anchor.
    Anchored,
    /// The centre control was clicked at the root: the menu is hidden.
    Closed,
    /// The centre control was clicked in a submenu: one level up.
    Ascended,
    /// The click selected no entry; nothing changed.
    Missed,
    /// The action of the entry with this index was selected.
    Activated(usize),
    /// The default action of the submenu entry with this index was fired
    /// from the inner band, without descending.
    QuickActivated(usize),
    /// The submenu entry with this index was entered.
    Descended(usize),
}

/// The answer to a click: what happened, and what the host has to do about
/// it. The host closes the overlay first, if asked to, then fires the action,
/// then redraws.
#[derive(Clone, Debug, PartialEq, Eq)]
pub struct ClickResult {
    pub transition: Transition,
    /// The action to dispatch, if any.
    pub dispatch: Option<Action>,
    /// Whether the click hid the menu, so that the overlay has to go.
    pub close_overlay: bool,
    /// Whether the menu is visible and no longer looks as it did.
    pub redraw: bool,
}

/// Mathematical model of a click's effect: the state after it, and the
/// answer given to the host.
pub struct Step {
    pub state: NavView,
    pub transition: Transition,
    pub dispatch: Option<ActionView>,
}

/// Mathematical model of a [`NavigationState`].
///
/// The path and the centre stack are both read off `levels`, so they have
/// the same length in every state.
pub struct NavView {
    pub visible: bool,
    pub anchored: bool,
    pub anchor: Point,
    pub center: Point,
    pub levels: Seq<Level>,
}

impl NavView {
    /// The indices chosen from the root down to the current menu.
    pub open spec fn path(self) -> Seq<usize> {
        self.levels.map_values(|level: Level| level.index)
    }

    /// For each element of the path, the centre that was active before
    /// descending to it.
    pub open spec fn center_stack(self) -> Seq<Point> {
        self.levels.map_values(|level: Level| level.center)
    }

    /// Whether the path of a visible menu stays within `tree`: followed from
    /// the root, every index of it picks a submenu entry.
    pub open spec fn follows(self, tree: TreeView) -> bool {
        self.visible ==> tree.depth(tree.root, self.path()) == self.path().len()
    }

    /// Whether a step from this state to `after` hid the menu.
    pub open spec fn closes_overlay(self, after: NavView) -> bool {
        self.visible && !after.visible
    }

    /// Whether a step from this state to `after` left a visible menu that
    /// differs from what was there before.
    pub open spec fn needs_redraw(self, after: NavView) -> bool {
        after.visible && after != self
    }

    /// The phase this state is in.
    pub open spec fn phase(self) -> Phase {
        if !self.visible {
            Phase::Hidden
        } else if !self.anchored {
            Phase::AwaitingAnchor
        } else if self.levels.len() == 0 {
            Phase::AtRoot
        } else {
            Phase::InSubmenu
        }
    }

    /// The state at start-up: hidden, at the root, nothing anchored.
    pub open spec fn initial() -> NavView {
        NavView {
            visible: false,
            anchored: false,
            anchor: Point { x: 0, y: 0 },
            center: Point { x: 0, y: 0 },
            levels: Seq::empty(),
        }
    }

    /// The state after a hide request: whatever it was, it is reset to the
    /// state at start-up.
    pub open spec fn hidden(self) -> NavView {
        NavView::initial()
    }

    /// The state after a show request.
    pub open spec fn shown(self) -> NavView {
        NavView { visible: true, anchored: false, levels: Seq::empty(), ..self }
    }

    /// The state after a toggle request: hidden if it was visible, shown if
    /// it was not.
    pub open spec fn toggled(self) -> NavView {
        if self.visible {
            self.hidden()
        } else {
            self.shown()
        }
    }

    /// The state after anchoring at `at`.
    pub open spec fn anchored_at(self, at: Point) -> NavView {
        NavView { anchored: true, anchor: at, center: at, ..self }
    }

    /// The state after a pointer move to `at`: it anchors a visible menu that
    /// has no anchor yet, and changes nothing otherwise.
    pub open spec fn pointer_moved(self, at: Point) -> NavView {
        if self.visible && !self.anchored {
            self.anchored_at(at)
        } else {
            self
        }
    }

    /// The state after descending into entry `index`, whose position on the
    /// ring is `position`.
    pub open spec fn descended(self, index: usize, position: Point) -> NavView {
        NavView {
            levels: self.levels.push(Level { index, center: self.center }),
            center: position,
            ..self
        }
    }

    /// The state after going up one level. The centre returns to where it
    /// was before the descent; with no level left, to the anchor.
    pub open spec fn ascended(self) -> NavView {
        if self.levels.len() > 0 {
            NavView { levels: self.levels.drop_last(), center: self.levels.last().center, ..self }
        } else {
            NavView { center: self.anchor, ..self }
        }
    }

    /// The state after `action` was handed out for dispatch.
    pub open spec fn after_dispatch(self, action: ActionView) -> NavView {
        if action.close_on_activate {
            self.hidden()
        } else {
            self
        }
    }

    /// The effect of selecting an entry of kind `kind`, which is entry `index`
    /// of the current menu and lies at `position`. `quick` says whether the
    /// click fell in the inner activation band.
    ///
    /// An action is dispatched, and the menu hidden if the action asks for it.
    /// A submenu with a default action that is quick-clicked fires that
    /// action, forced to close the menu, and does not descend. Any other
    /// submenu dispatches its default action, if it has one, as an action
    /// would be, and then descends. Where that default action closes the
    /// menu, the descent is recorded in the hidden state; the next show
    /// starts at the root again.
    pub open spec fn selected(
        self,
        kind: EntryKindView,
        index: usize,
        position: Point,
        quick: bool,
    ) -> Step {
        match kind {
            EntryKindView::Action(action) => Step {
                state: self.after_dispatch(action),
                transition: Transition::Activated(index),
                dispatch: Some(action),
            },
            EntryKindView::Submenu { default_action: Some(action), .. } => if quick {
                Step {
                    state: self.hidden(),
                    transition: Transition::QuickActivated(index),
                    dispatch: Some(ActionView { close_on_activate: true, ..action }),
                }
            } else {
                Step {
                    state: self.after_dispatch(action).descended(index, position),
                    transition: Transition::Descended(index),
                    dispatch: Some(action),
                }
            },
            EntryKindView::Submenu { default_action: None, .. } => Step {
                state: self.descended(index, position),
                transition: Transition::Descended(index),
                dispatch: None,
            },
        }
    }

    /// The effect of a click at `at` that is not on the centre control, where
    /// `entries` are the entries of the current menu and `layout` their
    /// positions on the ring.
    pub open spec fn ring_clicked(
        self,
        entries: Seq<EntryView>,
        metrics: Metrics,
        at: Point,
        layout: Seq<Point>,
    ) -> Step {
        match hit_test(at, self.center, layout, metrics.deadzone) {
            Some(i) => if i < entries.len() {
                self.selected(
                    entries[i].kind,
                    i as usize,
                    layout[i],
                    metrics.in_inner_band(at, self.center),
                )
            } else {
                Step { state: self, transition: Transition::Missed, dispatch: None }
            },
            None => Step { state: self, transition: Transition::Missed, dispatch: None },
        }
    }

    /// The effect of a click at `at`, where `layout` holds the positions of
    /// the current menu's entries on the ring around the current centre.
    pub open spec fn clicked(
        self,
        tree: TreeView,
        metrics: Metrics,
        at: Point,
        layout: Seq<Point>,
    ) -> Step {
        if !self.visible {
            Step { state: self, transition: Transition::Ignored, dispatch: None }
        } else if !self.anchored {
            Step { state: self.anchored_at(at), transition: Transition::Anchored, dispatch: None }
        } else if metrics.on_center(at, self.center) {
            if self.levels.len() == 0 {
                Step { state: self.hidden(), transition: Transition::Closed, dispatch: None }
            } else {
                Step { state: self.ascended(), transition: Transition::Ascended, dispatch: None }
            }
        } else {
            self.ring_clicked(tree.entries_at(self.path()), metrics, at, layout)
        }
    }
}

/// Hiding is idempotent: two hides in a row leave the state that one hide
/// leaves.
pub proof fn lemma_hide_is_idempotent(state: NavView)
    ensures
        state.hidden().hidden() == state.hidden(),
        state.hidden().phase() == Phase::Hidden,
{
}

/// A toggle request received while hidden makes the menu wait for its
/// anchor, and the first pointer move after it anchors the menu at the root,
/// at that move's coordinates.
pub proof fn lemma_toggle_then_move_anchors(state: NavView, at: Point)
    requires
        state.phase() == Phase::Hidden,
    ensures
        state.toggled().phase() == Phase::AwaitingAnchor,
        state.toggled().pointer_moved(at).phase() == Phase::AtRoot,
        state.toggled().pointer_moved(at).anchor == at,
        state.toggled().pointer_moved(at).center == at,
{
}

/// Descending and then ascending restores the state from before the
/// descent: the centre, the path and the centre stack, at any depth.
pub proof fn lemma_descend_then_ascend(state: NavView, index: usize, position: Point)
    ensures
        state.descended(index, position).ascended() == state,
        state.descended(index, position).path() == state.path().push(index),
        state.descended(index, position).center_stack() == state.center_stack().push(
            state.center,
        ),
        state.descended(index, position).center == position,
{
    let down = state.descended(index, position);
    assert(down.levels.drop_last() == state.levels);
}

/// A click inside the dead-zone that is not on the centre control changes
/// nothing and dispatches nothing, whatever the menu and the layout.
pub proof fn lemma_deadzone_click_changes_nothing(
    state: NavView,
    tree: TreeView,
    metrics: Metrics,
    at: Point,
    layout: Seq<Point>,
)
    requires
        state.visible,
        state.anchored,
        !metrics.on_center(at, state.center),
        dist2_spec(at, state.center) < square(metrics.deadzone as int),
    ensures
        state.clicked(tree, metrics, at, layout) == (Step {
            state,
            transition: Transition::Missed,
            dispatch: None,
        }),
{
}

/// A click moves through the phases in order. A hidden menu stays as it is; a
/// menu that waits for its anchor gets it, and no click makes a menu wait for
/// one; a menu that is visible after the click has gone up or down by one
/// level at most.
pub proof fn lemma_click_follows_the_phases(
    state: NavView,
    tree: TreeView,
    metrics: Metrics,
    at: Point,
    layout: Seq<Point>,
)
    ensures
        ({
            let after = state.clicked(tree, metrics, at, layout).state;
            &&& state.phase() == Phase::Hidden ==> after == state
            &&& state.phase() == Phase::AwaitingAnchor ==> after == state.anchored_at(at)
            &&& after.phase() != Phase::AwaitingAnchor
            &&& after.visible ==> state.levels.len() - 1 <= after.levels.len() <= state.levels.len()
                + 1
        }),
{
}

/// The path and the centre stack have the same length in every state.
pub proof fn lemma_stack_matches_path(state: NavView)
    ensures
        state.center_stack().len() == state.path().len(),
{
}

/// The path of a visible menu never leaves the tree. It is empty when the menu
/// is shown, and no event makes it leave: a click descends only through a
/// submenu entry of the current menu, and ascends only to where it came from.
/// So a visible menu is never as many levels deep as the tree has menus.
pub proof fn lemma_path_stays_in_tree(
    state: NavView,
    tree: TreeView,
    metrics: Metrics,
    at: Point,
    layout: Seq<Point>,
)
    requires
        tree.valid(),
        state.follows(tree),
        layout.len() <= usize::MAX,
    ensures
        NavView::initial().follows(tree),
        state.hidden().follows(tree),
        state.shown().follows(tree),
        state.toggled().follows(tree),
        state.pointer_moved(at).follows(tree),
        state.clicked(tree, metrics, at, layout).state.follows(tree),
        state.visible ==> state.path().len() < tree.menus.len(),
{
    if state.visible {
        lemma_no_walk_returns(tree, tree.root, state.path());
    }
    let step = state.clicked(tree, metrics, at, layout);
    if step.state.visible {
        let path = state.path();
        match step.transition {
            Transition::Ascended => {
                assert(step.state.path() =~= path.drop_last());
                lemma_walk_shortens(tree, tree.root, path);
            },
            Transition::Descended(index) => {
                let i = hit_test(at, state.center, layout, metrics.deadzone)->0;
                lemma_closest_exists(at, layout);
                lemma_descend_then_ascend(state, index, layout[i]);
                lemma_walk_extends(tree, tree.root, path, index);
            },
            _ => {},
        }
    }
}

/// A click that descends into a submenu and leaves the menu open, followed
/// by a click on the centre control, leads back to the state from before the
/// first click.
pub proof fn lemma_click_round_trip(
    state: NavView,
    tree: TreeView,
    metrics: Metrics,
    at: Point,
    layout: Seq<Point>,
    back: Point,
    back_layout: Seq<Point>,
)
    requires
        state.clicked(tree, metrics, at, layout).transition is Descended,
        state.clicked(tree, metrics, at, layout).state.visible,
        metrics.on_center(back, state.clicked(tree, metrics, at, layout).state.center),
    ensures
        ({
            let down = state.clicked(tree, metrics, at, layout).state;
            let up = down.clicked(tree, metrics, back, back_layout);
            &&& up.transition == Transition::Ascended
            &&& up.dispatch is None
            &&& up.state == state
            &&& down.path().len() == state.path().len() + 1
        }),
{
    let index = state.clicked(tree, metrics, at, layout).transition->Descended_0;
    let i = hit_test(at, state.center, layout, metrics.deadzone)->0;
    lemma_descend_then_ascend(state, index, layout[i]);
}

/// The one mutable object of the engine: it is created hidden and then reset
/// between sessions, never recreated.
#[derive(Clone, Debug, PartialEq, Eq)]
pub struct NavigationState {
    visible: bool,
    anchored: bool,
    anchor: Point,
    center: Point,
    levels: Vec<Level>,
}

impl View for NavigationState {
    type V = NavView;

    closed spec fn view(&self) -> NavView {
        NavView {
            visible: self.visible,
            anchored: self.anchored,
            anchor: self.anchor,
            center: self.center,
            levels: self.levels@,
        }
    }
}

impl Default for NavigationState {
    /// The state at start-up.
    fn default() -> (state: NavigationState)
        ensures
            state@ == NavView::initial(),
    {
        NavigationState::new()
    }
}

impl NavigationState {
    /// The state at start-up: hidden, at the root, with no anchor.
    pub fn new() -> (state: NavigationState)
        ensures
            state@ == NavView::initial(),
    {
        NavigationState {
            visible: false,
            anchored: false,
            anchor: Point { x: 0, y: 0 },
            center: Point { x: 0, y: 0 },
            levels: Vec::new(),
        }
    }

    /// Starts a visibility session: the menu is visible at the root and
    /// waits for the first pointer event to fix its anchor.
    pub fn show_menu(&mut self)
        ensures
            final(self)@ == old(self)@.shown(),
            final(self)@.phase() == Phase::AwaitingAnchor,
            final(self)@.path().len() == 0,
            final(self)@.center_stack().len() == 0,
    {
        self.visible = true;
        self.anchored = false;
        self.levels.clear();
    }

    /// Ends the session: the state is reset to what it was at start-up.
    pub fn hide_menu(&mut self)
        ensures
            final(self)@ == old(self)@.hidden(),
            final(self)@ == NavView::initial(),
            final(self)@.phase() == Phase::Hidden,
    {
        self.visible = false;
        self.anchored = false;
        self.anchor = Point { x: 0, y: 0 };
        self.center = Point { x: 0, y: 0 };
        self.levels.clear();
    }

    /// Reacts to a toggle request: hides a visible menu, shows a hidden one.
    /// Returns whether the menu is visible afterwards.
    pub fn toggle(&mut self) -> (visible: bool)
        ensures
            final(self)@ == old(self)@.toggled(),
            visible == !old(self)@.visible,
            visible == final(self)@.visible,
    {
        if self.visible {
            self.hide_menu();
            false
        } else {
            self.show_menu();
            true
        }
    }

    /// Reacts to a pointer move to `at`: a visible menu without an anchor is
    /// anchored there; any other state is left as it is. Returns whether the
    /// move anchored the menu.
    pub fn pointer_moved(&mut self, at: Point) -> (anchored: bool)
        ensures
            final(self)@ == old(self)@.pointer_moved(at),
            anchored == (old(self)@.phase() == Phase::AwaitingAnchor),
            anchored ==> final(self)@.anchored && final(self)@.anchor == at && final(self)@.center
                == at,
    {
        if self.visible && !self.anchored {
            self.anchored = true;
            self.anchor = at;
            self.center = at;
            true
        } else {
            false
        }
    }

    /// Reacts to a click at `at`. `layout` holds the positions of the current
    /// menu's entries on the ring around the current centre, entry by entry.
    ///
    /// A hidden menu ignores the click. A menu without an anchor is anchored
    /// at `at`. A click on the centre control hides the menu at the root and
    /// goes up one level elsewhere. Any other click is hit-tested against
    /// `layout`: where it selects an entry of the current menu, that entry is
    /// activated as `NavView::selected` describes; where it selects none, or
    /// an index that the current menu does not have, nothing changes.
    ///
    /// The answer also tells the host whether the click hid the menu, and
    /// whether a menu that is still visible has to be drawn anew.
    pub fn click(
        &mut self,
        tree: &MenuTree,
        metrics: &Metrics,
        at: Point,
        layout: &Vec<Point>,
    ) -> (result: ClickResult)
        ensures
            (Step {
                state: final(self)@,
                transition: result.transition,
                dispatch: action_option_view(result.dispatch),
            }) == old(self)@.clicked(tree@, *metrics, at, layout@),
            result.close_overlay == old(self)@.closes_overlay(final(self)@),
            result.redraw == old(self)@.needs_redraw(final(self)@),
    {
        let was_visible = self.visible;
        let (transition, dispatch) = self.step(tree, metrics, at, layout);
        let moved = match transition {
            Transition::Anchored | Transition::Ascended | Transition::Descended(_) => true,
            _ => false,
        };
        proof {
            if moved && self.visible {
                assert(self@.anchored != old(self)@.anchored || self@.levels.len() != old(
                    self,
                )@.levels.len());
            }
        }
        ClickResult {
            transition,
            dispatch,
            close_overlay: was_visible && !self.visible,
            redraw: self.visible && moved,
        }
    }

    fn step(
        &mut self,
        tree: &MenuTree,
        metrics: &Metrics,
        at: Point,
        layout: &Vec<Point>,
    ) -> (result: (Transition, Option<Action>))
        ensures
            (Step {
                state: final(self)@,
                transition: result.0,
                dispatch: action_option_view(result.1),
            }) == old(self)@.clicked(tree@, *metrics, at, layout@),
    {
        if !self.visible {
            return (Transition::Ignored, None);
        }
        if !self.anchored {
            self.anchored = true;
            self.anchor = at;
            self.center = at;
            return (Transition::Anchored, None);
        }
        if metrics.is_on_center(at, self.center) {
            if self.levels.len() == 0 {
                self.hide_menu();
                return (Transition::Closed, None);
            }
            match self.levels.pop() {
                Some(level) => {
                    self.center = level.center;
                },
                None => {
                    // No level to return to: fall back to the anchor.
                    self.center = self.anchor;
                },
            }
            return (Transition::Ascended, None);
        }
        let path = self.path();
        let entries = tree.current_entries(&path);
        let index: usize = match closest_index_for_pointer(
            at,
            self.center,
            layout,
            metrics.deadzone,
        ) {
            Some(i) => i,
            None => {
                return (Transition::Missed, None);
            },
        };
        if index >= entries.len() {
            return (Transition::Missed, None);
        }
        let quick = metrics.is_in_inner_band(at, self.center);
        let position = layout[index];
        match &entries[index].kind {
            EntryKind::Action(action) => {
                let dispatch = action.duplicate();
                if dispatch.close_on_activate {
                    self.hide_menu();
                }
                (Transition::Activated(index), Some(dispatch))
            },
            EntryKind::Submenu { default_action: Some(action), .. } => {
                if quick {
                    self.hide_menu();
                    return (Transition::QuickActivated(index), Some(action.closing()));
                }
                let dispatch = action.duplicate();
                if dispatch.close_on_activate {
                    self.hide_menu();
                }
                self.descend(index, position);
                (Transition::Descended(index), Some(dispatch))
            },
            EntryKind::Submenu { default_action: None, .. } => {
                self.descend(index, position);
                (Transition::Descended(index), None)
            },
        }
    }

    fn descend(&mut self, index: usize, position: Point)
        ensures
            final(self)@ == old(self)@.descended(index, position),
    {
        self.levels.push(Level { index, center: self.center });
        self.center = position;
    }

    /// Whether the overlay should currently be shown.
    pub fn is_visible(&self) -> (visible: bool)
        ensures
            visible == self@.visible,
    {
        self.visible
    }

    /// Whether the anchor has been fixed for this session.
    pub fn is_anchored(&self) -> (anchored: bool)
        ensures
            anchored == self@.anchored,
    {
        self.anchored
    }

    /// The point fixed at anchor time.
    pub fn anchor(&self) -> (anchor: Point)
        ensures
            anchor == self@.anchor,
    {
        self.anchor
    }

    /// The centre of the active ring.
    pub fn center(&self) -> (center: Point)
        ensures
            center == self@.center,
    {
        self.center
    }

    /// The number of levels below the root.
    pub fn depth(&self) -> (depth: usize)
        ensures
            depth == self@.path().len(),
            depth == self@.center_stack().len(),
    {
        self.levels.len()
    }

    /// The phase the machine is in.
    pub fn phase(&self) -> (phase: Phase)
        ensures
            phase == self@.phase(),
    {
        if !self.visible {
            Phase::Hidden
        } else if !self.anchored {
            Phase::AwaitingAnchor
        } else if self.levels.len() == 0 {
            Phase::AtRoot
        } else {
            Phase::InSubmenu
        }
    }

    /// The indices chosen from the root down to the current menu.
    pub fn path(&self) -> (path: Vec<usize>)
        ensures
            path@ == self@.path(),
    {
        let mut path: Vec<usize> = Vec::new();
        let mut i: usize = 0;
        while i < self.levels.len()
            invariant
                i <= self.levels@.len(),
                path@ == self.levels@.take(i as int).map_values(|level: Level| level.index),
            decreases self.levels@.len() - i,
        {
            path.push(self.levels[i].index);
            i = i + 1;
        }
        path
    }

    /// For each element of the path, the centre that was active before
    /// descending to it.
    pub fn center_stack(&self) -> (stack: Vec<Point>)
        ensures
            stack@ == self@.center_stack(),
    {
        let mut stack: Vec<Point> = Vec::new();
        let mut i: usize = 0;
        while i < self.levels.len()
            invariant
                i <= self.levels@.len(),
                stack@ == self.levels@.take(i as int).map_values(|level: Level| level.center),
            decreases self.levels@.len() - i,
        {
            stack.push(self.levels[i].center);
            i = i + 1;
        }
        stack
    }
}

} // verus!
