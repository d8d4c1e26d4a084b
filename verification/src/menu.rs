//! The menu tree: a fixed arena of menus whose entries are either actions or
//! references to other menus.
//!
//! Menus live in one arena and are referred to by their index in it, so one
//! menu can be reached from several parents without being copied. The
//! references must form no cycle. That is checked once, when the tree is
//! built; a walk through a tree that exists therefore never comes back to a
//! menu it has left.

use vstd::prelude::*;

verus! {

/// What selecting a leaf asks of the outside world.
///
/// `command` is never interpreted by the menu tree or by navigation.
#[derive(Clone, Debug, PartialEq, Eq)]
pub struct Action {
    pub command: String,
    pub close_on_activate: bool,
}

/// Mathematical model of an [`Action`].
pub struct ActionView {
    pub command: Seq<char>,
    pub close_on_activate: bool,
}

impl View for Action {
    type V = ActionView;

    open spec fn view(&self) -> ActionView {
        ActionView { command: self.command@, close_on_activate: self.close_on_activate }
    }
}

/// The model of an optional action.
pub open spec fn action_option_view(action: Option<Action>) -> Option<ActionView> {
    match action {
        Some(a) => Some(a@),
        None => None,
    }
}

impl Action {
    /// An action that runs `command`.
    pub fn new(command: &str, close_on_activate: bool) -> (action: Action)
        ensures
            action@ == (ActionView { command: command@, close_on_activate }),
    {
        Action { command: command.to_owned(), close_on_activate }
    }

    /// A copy of this action.
    pub fn duplicate(&self) -> (copy: Action)
        ensures
            copy@ == self@,
    {
        Action { command: self.command.clone(), close_on_activate: self.close_on_activate }
    }

    /// A copy of this action that closes the menu when activated.
    pub fn closing(&self) -> (copy: Action)
        ensures
            copy@ == (ActionView { command: self@.command, close_on_activate: true }),
    {
        Action { command: self.command.clone(), close_on_activate: true }
    }
}

/// A display hint for an entry; each channel is given in hundredths of full
/// intensity. Navigation never looks at it.
#[derive(Clone, Copy, Debug, PartialEq, Eq, Structural)]
pub struct Color {
    pub red: u8,
    pub green: u8,
    pub blue: u8,
    pub alpha: u8,
}

/// What an entry does when it is selected.
#[derive(Clone, Debug, PartialEq, Eq)]
pub enum EntryKind {
    /// A leaf: selecting it dispatches the action.
    Action(Action),
    /// A reference to the menu at index `menu` of the arena, with an optional
    /// action that is dispatched when the submenu is opened or quick-clicked.
    Submenu { menu: usize, default_action: Option<Action> },
}

/// Mathematical model of an [`EntryKind`].
pub enum EntryKindView {
    Action(ActionView),
    Submenu { menu: int, default_action: Option<ActionView> },
}

impl View for EntryKind {
    type V = EntryKindView;

    open spec fn view(&self) -> EntryKindView {
        match *self {
            EntryKind::Action(a) => EntryKindView::Action(a@),
            EntryKind::Submenu { menu, default_action } => EntryKindView::Submenu {
                menu: menu as int,
                default_action: action_option_view(default_action),
            },
        }
    }
}

/// A named node of the menu tree.
#[derive(Clone, Debug, PartialEq, Eq)]
pub struct Entry {
    pub label: String,
    pub kind: EntryKind,
    pub color: Color,
}

/// Mathematical model of an [`Entry`].
pub struct EntryView {
    pub label: Seq<char>,
    pub kind: EntryKindView,
    pub color: Color,
}

impl View for Entry {
    type V = EntryView;

    open spec fn view(&self) -> EntryView {
        EntryView { label: self.label@, kind: self.kind@, color: self.color }
    }
}

impl Entry {
    /// A leaf entry that dispatches `command`.
    pub fn action(label: &str, command: &str, close_on_activate: bool, color: Color) -> (entry:
        Entry)
        ensures
            entry@ == (EntryView {
                label: label@,
                kind: EntryKindView::Action(ActionView { command: command@, close_on_activate }),
                color,
            }),
    {
        Entry {
            label: label.to_owned(),
            kind: EntryKind::Action(Action::new(command, close_on_activate)),
            color,
        }
    }

    /// An entry that opens the menu at index `menu` of the arena.
    pub fn submenu(label: &str, menu: usize, default_action: Option<Action>, color: Color) -> (entry:
        Entry)
        ensures
            entry@ == (EntryView {
                label: label@,
                kind: EntryKindView::Submenu {
                    menu: menu as int,
                    default_action: action_option_view(default_action),
                },
                color,
            }),
    {
        Entry { label: label.to_owned(), kind: EntryKind::Submenu { menu, default_action }, color }
    }
}

/// An ordered sequence of entries. The order is significant: it decides where
/// on the ring each entry is placed.
#[derive(Clone, Debug, PartialEq, Eq)]
pub struct Menu {
    pub entries: Vec<Entry>,
}

impl View for Menu {
    type V = Seq<EntryView>;

    open spec fn view(&self) -> Seq<EntryView> {
        self.entries@.map_values(|e: Entry| e@)
    }
}

impl Menu {
    /// A menu with the given entries, in the given order.
    pub fn new(entries: Vec<Entry>) -> (menu: Menu)
        ensures
            menu@ == entries@.map_values(|e: Entry| e@),
    {
        Menu { entries }
    }
}

/// The models of a sequence of menus.
pub open spec fn menus_view(menus: Seq<Menu>) -> Seq<Seq<EntryView>> {
    menus.map_values(|m: Menu| m@)
}

/// Mathematical model of a [`MenuTree`]: the entries of every menu of the
/// arena, and the index of the root menu.
pub struct TreeView {
    pub menus: Seq<Seq<EntryView>>,
    pub root: int,
}

impl TreeView {
    /// The menu that entry `entry` of menu `menu` refers to, if there is such
    /// an entry and it is a submenu entry.
    pub open spec fn target(self, menu: int, entry: int) -> Option<int> {
        if 0 <= menu < self.menus.len() && 0 <= entry < self.menus[menu].len() {
            match self.menus[menu][entry].kind {
                EntryKindView::Submenu { menu: target, .. } => Some(target),
                EntryKindView::Action(_) => None,
            }
        } else {
            None
        }
    }

    /// Whether entry `entry` of menu `menu` refers to a menu that the arena
    /// does not hold.
    pub open spec fn dangling(self, menu: int, entry: int) -> bool {
        self.target(menu, entry) is Some && !(0 <= self.target(menu, entry)->0 < self.menus.len())
    }

    /// Whether `(menu, entry)` is the first dangling reference of the arena,
    /// menus taken in order and the entries of each menu in order.
    pub open spec fn first_dangling(self, menu: int, entry: int) -> bool {
        &&& self.dangling(menu, entry)
        &&& forall|m: int, e: int| 0 <= m < menu ==> !#[trigger] self.dangling(m, e)
        &&& forall|e: int| 0 <= e < entry ==> !#[trigger] self.dangling(menu, e)
    }

    /// Whether no reference of the arena dangles.
    pub open spec fn closed(self) -> bool {
        forall|menu: int, entry: int| !#[trigger] self.dangling(menu, entry)
    }

    /// Whether `rank` gives every menu a rank below the number of menus such
    /// that each reference leads to an existing menu of strictly lower rank.
    pub open spec fn ranked_by(self, rank: Seq<nat>) -> bool {
        &&& rank.len() == self.menus.len()
        &&& forall|menu: int| 0 <= menu < rank.len() ==> #[trigger] rank[menu] < self.menus.len()
        &&& forall|menu: int, entry: int|
            (#[trigger] self.target(menu, entry)) is Some ==> {
                &&& 0 <= self.target(menu, entry)->0 < self.menus.len()
                &&& rank[self.target(menu, entry)->0] < rank[menu]
            }
    }

    /// Whether the reference graph of the arena has no cycle: its menus can be
    /// ranked so that every reference leads strictly downwards. (A cycle
    /// would have to lead back up somewhere; and without a cycle, the longest
    /// chain of references that begins at a menu is a rank for it.)
    pub open spec fn acyclic(self) -> bool {
        exists|rank: Seq<nat>| self.ranked_by(rank)
    }

    /// Whether the tree is well formed: the root exists, every reference
    /// leads to an existing menu, and no chain of references forms a cycle.
    pub open spec fn valid(self) -> bool {
        &&& 0 <= self.root < self.menus.len()
        &&& self.acyclic()
    }

    /// The menu reached from menu `from` by following `path`: at each step the
    /// next index picks an entry of the current menu, and a submenu entry
    /// leads on to its menu. The walk stops early, at the menu it has reached,
    /// when an index is out of range or picks an action.
    pub open spec fn walk(self, from: int, path: Seq<usize>) -> int
        decreases path.len(),
    {
        if path.len() == 0 {
            from
        } else {
            match self.target(from, path[0] as int) {
                Some(menu) => self.walk(menu, path.drop_first()),
                None => from,
            }
        }
    }

    /// The number of submenu references that `walk` follows.
    pub open spec fn depth(self, from: int, path: Seq<usize>) -> nat
        decreases path.len(),
    {
        if path.len() == 0 {
            0
        } else {
            match self.target(from, path[0] as int) {
                Some(menu) => 1 + self.depth(menu, path.drop_first()),
                None => 0,
            }
        }
    }

    /// The index of the menu that `path` leads to from the root.
    pub open spec fn menu_at(self, path: Seq<usize>) -> int {
        self.walk(self.root, path)
    }

    /// The entries of the menu that `path` leads to from the root.
    pub open spec fn entries_at(self, path: Seq<usize>) -> Seq<EntryView> {
        self.menus[self.menu_at(path)]
    }
}

/// Every reference that a walk follows leads to a menu of lower rank, so a
/// walk from a menu follows at most as many references as that menu's rank.
pub proof fn lemma_walk_descends(tree: TreeView, rank: Seq<nat>, from: int, path: Seq<usize>)
    requires
        tree.ranked_by(rank),
        0 <= from < tree.menus.len(),
    ensures
        0 <= tree.walk(from, path) < tree.menus.len(),
        rank[tree.walk(from, path)] + tree.depth(from, path) <= rank[from],
        tree.depth(from, path) <= path.len(),
    decreases path.len(),
{
    if path.len() > 0 {
        match tree.target(from, path[0] as int) {
            Some(menu) => {
                lemma_walk_descends(tree, rank, menu, path.drop_first());
            },
            None => {},
        }
    }
}

/// In an acyclic arena no walk leads back to the menu it began at: a walk
/// that follows one reference or more ends at another menu. And no walk,
/// however long its path, follows as many references as there are menus.
pub proof fn lemma_no_walk_returns(tree: TreeView, from: int, path: Seq<usize>)
    requires
        tree.acyclic(),
        0 <= from < tree.menus.len(),
    ensures
        0 <= tree.walk(from, path) < tree.menus.len(),
        tree.depth(from, path) >= 1 ==> tree.walk(from, path) != from,
        tree.depth(from, path) < tree.menus.len(),
{
    let rank = choose|rank: Seq<nat>| tree.ranked_by(rank);
    lemma_walk_descends(tree, rank, from, path);
}

/// A walk follows at most one reference for each index of its path.
pub proof fn lemma_depth_at_most_length(tree: TreeView, from: int, path: Seq<usize>)
    ensures
        tree.depth(from, path) <= path.len(),
    decreases path.len(),
{
    if path.len() > 0 {
        match tree.target(from, path[0] as int) {
            Some(menu) => {
                lemma_depth_at_most_length(tree, menu, path.drop_first());
            },
            None => {},
        }
    }
}

/// Where a walk follows a reference at every index of `path`, one more index
/// takes it one step further: to the menu that the entry with that index
/// refers to, or nowhere if there is no such submenu entry.
pub proof fn lemma_walk_extends(tree: TreeView, from: int, path: Seq<usize>, index: usize)
    requires
        tree.depth(from, path) == path.len(),
    ensures
        tree.walk(from, path.push(index)) == (match tree.target(
            tree.walk(from, path),
            index as int,
        ) {
            Some(menu) => menu,
            None => tree.walk(from, path),
        }),
        tree.depth(from, path.push(index)) == path.len() + (if tree.target(
            tree.walk(from, path),
            index as int,
        ) is Some {
            1nat
        } else {
            0nat
        }),
    decreases path.len(),
{
    let longer = path.push(index);
    if path.len() == 0 {
        match tree.target(from, index as int) {
            Some(menu) => {
                assert(tree.walk(menu, longer.drop_first()) == menu);
                assert(tree.depth(menu, longer.drop_first()) == 0);
            },
            None => {},
        }
    } else {
        assert(longer.drop_first() =~= path.drop_first().push(index));
        match tree.target(from, path[0] as int) {
            Some(menu) => {
                lemma_depth_at_most_length(tree, menu, path.drop_first());
                lemma_walk_extends(tree, menu, path.drop_first(), index);
            },
            None => {},
        }
    }
}

/// Where a walk follows a reference at every index of `path`, it does so on
/// the path without its last index too.
pub proof fn lemma_walk_shortens(tree: TreeView, from: int, path: Seq<usize>)
    requires
        path.len() > 0,
        tree.depth(from, path) == path.len(),
    ensures
        tree.depth(from, path.drop_last()) == path.len() - 1,
    decreases path.len(),
{
    let shorter = path.drop_last();
    if path.len() > 1 {
        assert(shorter.drop_first() =~= path.drop_first().drop_last());
        match tree.target(from, path[0] as int) {
            Some(menu) => {
                lemma_depth_at_most_length(tree, menu, path.drop_first());
                lemma_walk_shortens(tree, menu, path.drop_first());
            },
            None => {},
        }
    }
}

/// How many entries of `marks` are set.
spec fn count_set(marks: Seq<bool>) -> nat
    decreases marks.len(),
{
    if marks.len() == 0 {
        0
    } else {
        count_set(marks.drop_last()) + if marks.last() {
            1nat
        } else {
            0nat
        }
    }
}

proof fn lemma_count_set_bound(marks: Seq<bool>)
    ensures
        count_set(marks) <= marks.len(),
    decreases marks.len(),
{
    if marks.len() > 0 {
        lemma_count_set_bound(marks.drop_last());
    }
}

proof fn lemma_count_set_grows(marks: Seq<bool>, i: int)
    requires
        0 <= i < marks.len(),
        !marks[i],
    ensures
        count_set(marks.update(i, true)) == count_set(marks) + 1,
    decreases marks.len(),
{
    let after = marks.update(i, true);
    if i == marks.len() - 1 {
        assert(after.drop_last() =~= marks.drop_last());
    } else {
        assert(after.drop_last() =~= marks.drop_last().update(i, true));
        lemma_count_set_grows(marks.drop_last(), i);
    }
}

/// Whether menu `menu` refers to a menu that `done` leaves unmarked.
spec fn blocked(tree: TreeView, done: Seq<bool>, menu: int) -> bool {
    exists|entry: int|
        (#[trigger] tree.target(menu, entry)) is Some && 0 <= tree.target(menu, entry)->0
            < done.len() && !done[tree.target(menu, entry)->0]
}

/// Where every unmarked menu refers to an unmarked menu, every menu that has
/// a rank is marked: from an unmarked one, such references would lead to
/// lower and lower ranks without end.
proof fn lemma_ranked_menus_are_marked(
    tree: TreeView,
    done: Seq<bool>,
    rank: Seq<nat>,
    menu: int,
    bound: nat,
)
    requires
        tree.ranked_by(rank),
        done.len() == tree.menus.len(),
        forall|m: int| 0 <= m < done.len() && !done[m] ==> #[trigger] blocked(tree, done, m),
        0 <= menu < done.len(),
        rank[menu] <= bound,
    ensures
        done[menu],
    decreases bound,
{
    if !done[menu] {
        assert(blocked(tree, done, menu));
        let entry = choose|entry: int|
            (#[trigger] tree.target(menu, entry)) is Some && 0 <= tree.target(menu, entry)->0
                < done.len() && !done[tree.target(menu, entry)->0];
        let next = tree.target(menu, entry)->0;
        lemma_ranked_menus_are_marked(tree, done, rank, next, (bound - 1) as nat);
    }
}

/// Why a set of menus was refused.
#[derive(Clone, Copy, Debug, PartialEq, Eq, Structural)]
pub enum TreeError {
    /// The root index names no menu.
    RootOutOfRange,
    /// Entry `entry` of menu `menu` refers to a menu that the arena does not
    /// hold.
    DanglingReference { menu: usize, entry: usize },
    /// Some chain of references leads back to the menu it began at.
    Cycle,
}

/// The static hierarchy of menus. It is checked once, when it is built, and
/// never changes afterwards.
#[derive(Debug, PartialEq, Eq)]
pub struct MenuTree {
    menus: Vec<Menu>,
    root: usize,
}

impl View for MenuTree {
    type V = TreeView;

    closed spec fn view(&self) -> TreeView {
        TreeView { menus: menus_view(self.menus@), root: self.root as int }
    }
}

/// The model of the arena `menus` with root `root`.
pub open spec fn tree_view(menus: Seq<Menu>, root: usize) -> TreeView {
    TreeView { menus: menus_view(menus), root: root as int }
}

/// The first dangling reference among `menus`, if there is one.
fn find_dangling(menus: &Vec<Menu>, root: usize) -> (found: Option<(usize, usize)>)
    ensures
        match found {
            Some((menu, entry)) => tree_view(menus@, root).first_dangling(menu as int, entry as int),
            None => tree_view(menus@, root).closed(),
        },
{
    let ghost tree = tree_view(menus@, root);
    let mut m: usize = 0;
    while m < menus.len()
        invariant
            m <= menus@.len(),
            tree == tree_view(menus@, root),
            forall|m1: int, e1: int| 0 <= m1 < m ==> !#[trigger] tree.dangling(m1, e1),
        decreases menus@.len() - m,
    {
        let entries = &menus[m].entries;
        let mut e: usize = 0;
        while e < entries.len()
            invariant
                m < menus@.len(),
                e <= entries@.len(),
                entries@ == menus@[m as int].entries@,
                tree.menus[m as int] == menus@[m as int]@,
                tree == tree_view(menus@, root),
                forall|m1: int, e1: int| 0 <= m1 < m ==> !#[trigger] tree.dangling(m1, e1),
                forall|e1: int| 0 <= e1 < e ==> !#[trigger] tree.dangling(m as int, e1),
            decreases entries@.len() - e,
        {
            match &entries[e].kind {
                EntryKind::Submenu { menu, .. } => {
                    if *menu >= menus.len() {
                        return Some((m, e));
                    }
                },
                EntryKind::Action(_) => {},
            }
            e = e + 1;
        }
        m = m + 1;
    }
    None
}

/// Whether every menu that `menu` refers to is marked in `done` with a rank
/// below `round`.
fn is_ready(
    menus: &Vec<Menu>,
    root: usize,
    menu: usize,
    done: &Vec<bool>,
    rank: &Vec<usize>,
    round: usize,
) -> (ready: bool)
    requires
        tree_view(menus@, root).closed(),
        menu < menus@.len(),
        done@.len() == menus@.len(),
        rank@.len() == menus@.len(),
    ensures
        ready ==> forall|entry: int|
            (#[trigger] tree_view(menus@, root).target(menu as int, entry)) is Some ==> {
                let t = tree_view(menus@, root).target(menu as int, entry)->0;
                0 <= t < menus@.len() && done@[t] && rank@[t] < round
            },
        !ready ==> exists|entry: int|
            (#[trigger] tree_view(menus@, root).target(menu as int, entry)) is Some && {
                let t = tree_view(menus@, root).target(menu as int, entry)->0;
                0 <= t < menus@.len() && !(done@[t] && rank@[t] < round)
            },
{
    let ghost tree = tree_view(menus@, root);
    let entries = &menus[menu].entries;
    let mut e: usize = 0;
    while e < entries.len()
        invariant
            menu < menus@.len(),
            done@.len() == menus@.len(),
            rank@.len() == menus@.len(),
            e <= entries@.len(),
            entries@ == menus@[menu as int].entries@,
            tree == tree_view(menus@, root),
            tree.menus[menu as int] == menus@[menu as int]@,
            tree.closed(),
            forall|entry: int|
                0 <= entry < e && (#[trigger] tree.target(menu as int, entry)) is Some ==> {
                    let t = tree.target(menu as int, entry)->0;
                    0 <= t < menus@.len() && done@[t] && rank@[t] < round
                },
        decreases entries@.len() - e,
    {
        match &entries[e].kind {
            EntryKind::Submenu { menu: target, .. } => {
                assert(!tree.dangling(menu as int, e as int));
                if !(done[*target] && rank[*target] < round) {
                    return false;
                }
            },
            EntryKind::Action(_) => {},
        }
        e = e + 1;
    }
    true
}

impl MenuTree {
    #[verifier::type_invariant]
    spec fn well_formed(self) -> bool {
        self@.valid()
    }

    /// Builds a tree from the menus of the arena and the index of the root.
    ///
    /// Succeeds exactly when the root exists, every submenu entry refers to
    /// a menu of the arena, and the references form no cycle. Otherwise a
    /// missing root is reported first, then the first dangling reference,
    /// then a cycle.
    pub fn from_menus(menus: Vec<Menu>, root: usize) -> (r: Result<MenuTree, TreeError>)
        ensures
            r is Ok <==> tree_view(menus@, root).valid(),
            match r {
                Ok(tree) => tree@ == tree_view(menus@, root),
                Err(TreeError::RootOutOfRange) => root >= menus@.len(),
                Err(TreeError::DanglingReference { menu, entry }) => {
                    &&& root < menus@.len()
                    &&& tree_view(menus@, root).first_dangling(menu as int, entry as int)
                },
                Err(TreeError::Cycle) => {
                    &&& root < menus@.len()
                    &&& tree_view(menus@, root).closed()
                    &&& !tree_view(menus@, root).acyclic()
                },
            },
    {
        let ghost tree = tree_view(menus@, root);
        let n: usize = menus.len();
        if root >= n {
            return Err(TreeError::RootOutOfRange);
        }
        match find_dangling(&menus, root) {
            Some((menu, entry)) => {
                assert(!tree.acyclic());
                return Err(TreeError::DanglingReference { menu, entry });
            },
            None => {},
        }
        let mut done: Vec<bool> = Vec::new();
        let mut rank: Vec<usize> = Vec::new();
        while done.len() < n
            invariant
                done@.len() == rank@.len(),
                done@.len() <= n,
                forall|m: int| 0 <= m < done@.len() ==> !done@[m],
                count_set(done@) == 0,
            decreases n - done@.len(),
        {
            let ghost before = done@;
            done.push(false);
            rank.push(0);
            assert(done@.drop_last() =~= before);
        }
        let mut round: usize = 0;
        let mut marked: usize = 0;
        let mut progress: bool = true;
        while progress
            invariant
                n == menus@.len(),
                tree == tree_view(menus@, root),
                tree.closed(),
                done@.len() == n,
                rank@.len() == n,
                marked == count_set(done@),
                round <= marked <= n,
                forall|m: int| 0 <= m < n && done@[m] ==> rank@[m] < round,
                forall|m: int, e: int|
                    0 <= m < n && done@[m] && (#[trigger] tree.target(m, e)) is Some ==> {
                        let t = tree.target(m, e)->0;
                        0 <= t < n && done@[t] && rank@[t] < rank@[m]
                    },
                !progress ==> forall|m: int|
                    0 <= m < n && !done@[m] ==> #[trigger] blocked(tree, done@, m),
            decreases n - marked, (if progress { 1int } else { 0int }),
        {
            progress = false;
            let ghost done_before = done@;
            let ghost marked_before = marked;
            let mut m: usize = 0;
            while m < n
                invariant
                    n == menus@.len(),
                    tree == tree_view(menus@, root),
                    tree.closed(),
                    done@.len() == n,
                    rank@.len() == n,
                    done_before.len() == n,
                    m <= n,
                    marked == count_set(done@),
                    marked <= n,
                    marked_before <= marked,
                    round <= marked_before,
                    progress ==> marked > marked_before,
                    !progress ==> done@ == done_before,
                    forall|k: int| 0 <= k < n && done_before[k] ==> done@[k] && rank@[k] < round,
                    forall|k: int| 0 <= k < n && done@[k] && !done_before[k] ==> rank@[k] == round,
                    forall|k: int, e: int|
                        0 <= k < n && done@[k] && (#[trigger] tree.target(k, e)) is Some ==> {
                            let t = tree.target(k, e)->0;
                            0 <= t < n && done@[t] && rank@[t] < rank@[k]
                        },
                    forall|k: int|
                        0 <= k < m && !done@[k] ==> #[trigger] blocked(tree, done_before, k),
                decreases n - m,
            {
                if !done[m] {
                    if is_ready(&menus, root, m, &done, &rank, round) {
                        proof {
                            lemma_count_set_grows(done@, m as int);
                            lemma_count_set_bound(done@.update(m as int, true));
                        }
                        done.set(m, true);
                        rank.set(m, round);
                        marked = marked + 1;
                        progress = true;
                    } else {
                        assert(blocked(tree, done_before, m as int));
                    }
                }
                m = m + 1;
            }
            assert forall|k: int| 0 <= k < n && done@[k] implies rank@[k] <= round by {
                assert(done_before[k] || rank@[k] == round);
            }
            if progress {
                round = round + 1;
            }
        }
        let mut m: usize = 0;
        while m < n
            invariant
                m <= n,
                n == menus@.len(),
                root < n,
                tree == tree_view(menus@, root),
                tree.closed(),
                done@.len() == n,
                forall|k: int| 0 <= k < n && !done@[k] ==> #[trigger] blocked(tree, done@, k),
                forall|k: int| 0 <= k < m ==> done@[k],
            decreases n - m,
        {
            if !done[m] {
                assert(!tree.acyclic()) by {
                    if tree.acyclic() {
                        let witness = choose|witness: Seq<nat>| tree.ranked_by(witness);
                        lemma_ranked_menus_are_marked(
                            tree,
                            done@,
                            witness,
                            m as int,
                            witness[m as int],
                        );
                    }
                }
                return Err(TreeError::Cycle);
            }
            m = m + 1;
        }
        proof {
            let witness = Seq::new(n as nat, |k: int| rank@[k] as nat);
            assert forall|menu: int| 0 <= menu < n implies #[trigger] witness[menu] < n by {
                assert(done@[menu]);
            }
            assert(tree.ranked_by(witness));
        }
        Ok(MenuTree { menus, root })
    }

    /// The index of the root menu.
    pub fn root(&self) -> (root: usize)
        ensures
            root == self@.root,
            root < self@.menus.len(),
    {
        proof {
            use_type_invariant(self);
        }
        self.root
    }

    /// The number of menus in the arena.
    pub fn menu_count(&self) -> (count: usize)
        ensures
            count == self@.menus.len(),
    {
        self.menus.len()
    }

    /// The menu at index `index` of the arena, if there is one.
    pub fn menu(&self, index: usize) -> (menu: Option<&Menu>)
        ensures
            index < self@.menus.len() ==> menu is Some && menu->0@ == self@.menus[index as int],
            index >= self@.menus.len() ==> menu is None,
    {
        if index < self.menus.len() {
            Some(&self.menus[index])
        } else {
            None
        }
    }

    /// The index of the menu that `path` leads to from the root.
    ///
    /// An index of `path` that is out of range, or that picks an action,
    /// ends the walk at the menu reached so far.
    pub fn current_menu(&self, path: &Vec<usize>) -> (menu: usize)
        ensures
            menu == self@.menu_at(path@),
            menu < self@.menus.len(),
    {
        proof {
            use_type_invariant(self);
        }
        let mut current: usize = self.root;
        let mut i: usize = 0;
        assert(path@.skip(0) == path@);
        while i < path.len()
            invariant
                i <= path@.len(),
                current < self.menus@.len(),
                self@.valid(),
                self@.menu_at(path@) == self@.walk(current as int, path@.skip(i as int)),
            ensures
                current < self.menus@.len(),
                self@.menu_at(path@) == current,
            decreases path@.len() - i,
        {
            let index: usize = path[i];
            let entries = &self.menus[current].entries;
            assert(path@.skip(i as int).drop_first() == path@.skip(i + 1));
            if index >= entries.len() {
                break ;
            }
            match &entries[index].kind {
                EntryKind::Submenu { menu, .. } => {
                    proof {
                        // The tree is ranked, so the reference leads to a menu of the arena.
                        let rank = choose|rank: Seq<nat>| self@.ranked_by(rank);
                        assert(self@.target(current as int, index as int) == Some(*menu as int));
                    }
                    current = *menu;
                },
                EntryKind::Action(_) => {
                    break ;
                },
            }
            i = i + 1;
        }
        current
    }

    /// The entries of the menu that `path` leads to from the root.
    ///
    /// A malformed path degrades gracefully: an index that is out of range,
    /// or that picks an action, ends the walk, and the entries of the menu
    /// reached so far are returned.
    pub fn current_entries(&self, path: &Vec<usize>) -> (entries: &Vec<Entry>)
        ensures
            entries@.map_values(|e: Entry| e@) == self@.entries_at(path@),
            entries@.len() == self@.entries_at(path@).len(),
    {
        let menu: usize = self.current_menu(path);
        &self.menus[menu].entries
    }
}

} // verus!
