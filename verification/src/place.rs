use vstd::prelude::*;
use crate::action::{
    lemma_acted_found, lemma_missing_unchanged, lemma_settled_found, Action, Outcome, Side, Step,
};
use crate::events::QueueView;
use crate::action::seen_as;
use crate::count::lemma_refreshed_count;
use crate::fork::{BranchRef, BranchView, ForkView};
use crate::laws::{lemma_retiled_ids, lemma_toggle_twice};
use crate::tiler::{first_free, taken, TilerStep, TilerView};
use crate::count::lemma_occurrences_remove;
use crate::shape::{lemma_index_of_by_ids, lemma_index_of_witness};
use crate::stack::StackView;
use crate::window::{
    forget, index_of, lemma_index_of_exists, lemma_occurrences_index, occurrences, Window,
    WindowID,
};
use crate::workspace::WorkspaceView;

verus! {

impl ForkView {
    /// The fork at which an action on `target` is done: the first fork, from the top and
    /// from the left, that `target` names or that itself holds the window that it names.
    pub open spec fn holder(self, target: BranchRef) -> Option<ForkView>
        decreases self,
    {
        if self.here(target) {
            Some(self)
        } else {
            let left = match self.left {
                BranchView::Fork(g) => g.holder(target),
                _ => None,
            };
            if left is Some {
                left
            } else {
                match self.right {
                    Some(BranchView::Fork(g)) => g.holder(target),
                    _ => None,
                }
            }
        }
    }

    /// The tree with `x` in the place of the fork at which an action on `target` is done,
    /// and everything else as it is.
    pub open spec fn grafted(self, target: BranchRef, x: ForkView) -> ForkView
        decreases self,
    {
        if self.here(target) {
            x
        } else {
            match self.left {
                BranchView::Fork(g) if g.holder(target) is Some => self.with_child(
                    Side::Left,
                    BranchView::Fork(Box::new(g.grafted(target, x))),
                ),
                _ => match self.right {
                    Some(BranchView::Fork(g)) if g.holder(target) is Some => self.with_child(
                        Side::Right,
                        BranchView::Fork(Box::new(g.grafted(target, x))),
                    ),
                    _ => self,
                },
            }
        }
    }
}

/// An action finds its target exactly in a tree that has a fork at which it is done.
pub proof fn lemma_found_is_held(f: ForkView, target: BranchRef, action: Action, q: QueueView)
    ensures
        (f.applied(target, action, q).outcome != Outcome::Missing) == (f.holder(target) is Some),
    decreases f,
{
    if f.here(target) {
        lemma_acted_found(f, target, action, q);
    } else {
        let left = match f.left {
            BranchView::Fork(g) => g.applied(target, action, q),
            _ => Step { outcome: Outcome::Missing, ..f.kept(q) },
        };
        match f.left {
            BranchView::Fork(g) => {
                lemma_found_is_held(*g, target, action, q);
            },
            _ => {},
        }
        if left.outcome != Outcome::Missing {
            lemma_settled_found(
                f.with_child(Side::Left, BranchView::Fork(Box::new(left.fork))),
                Side::Left,
                left.outcome,
                left.queue,
            );
        } else {
            let right = match f.right {
                Some(BranchView::Fork(g)) => g.applied(target, action, q),
                _ => Step { outcome: Outcome::Missing, ..f.kept(q) },
            };
            match f.right {
                Some(BranchView::Fork(g)) => {
                    lemma_found_is_held(*g, target, action, q);
                },
                _ => {},
            }
            if right.outcome != Outcome::Missing {
                lemma_settled_found(
                    f.with_child(Side::Right, BranchView::Fork(Box::new(right.fork))),
                    Side::Right,
                    right.outcome,
                    right.queue,
                );
            }
        }
    }
}

/// An action that keeps the fork at which it is done changes nothing of the tree but
/// that fork, and adds to the queue what it adds there.
pub proof fn lemma_kept_is_local(f: ForkView, target: BranchRef, action: Action, q: QueueView)
    requires
        f.holder(target) is Some,
        f.holder(target).unwrap().acted(target, action, q).outcome == Outcome::Kept,
    ensures
        f.applied(target, action, q) == (Step {
            fork: f.grafted(target, f.holder(target).unwrap().acted(target, action, q).fork),
            ..f.holder(target).unwrap().acted(target, action, q)
        }),
    decreases f,
{
    reveal(ForkView::settled);
    if !f.here(target) {
        match f.left {
            BranchView::Fork(g) => {
                lemma_found_is_held(*g, target, action, q);
                lemma_missing_unchanged(*g, target, action, q);
                if g.holder(target) is Some {
                    lemma_kept_is_local(*g, target, action, q);
                }
            },
            _ => {},
        }
        let left = match f.left {
            BranchView::Fork(g) => g.applied(target, action, q),
            _ => Step { outcome: Outcome::Missing, ..f.kept(q) },
        };
        if left.outcome == Outcome::Missing {
            match f.right {
                Some(BranchView::Fork(g)) => {
                    lemma_found_is_held(*g, target, action, q);
                    lemma_kept_is_local(*g, target, action, q);
                },
                _ => {},
            }
        }
    }
}

/// A fork that is put in the place at which an action on `target` is done, and that is
/// itself such a place, is the fork at which the action is done in the new tree.
pub proof fn lemma_graft_holder(f: ForkView, target: BranchRef, x: ForkView)
    requires
        f.holder(target) is Some,
        x.here(target),
    ensures
        f.grafted(target, x).holder(target) == Some(x),
    decreases f,
{
    if !f.here(target) {
        match f.left {
            BranchView::Fork(g) if g.holder(target) is Some => {
                lemma_graft_holder(*g, target, x);
            },
            _ => match f.right {
                Some(BranchView::Fork(g)) => {
                    lemma_graft_holder(*g, target, x);
                },
                _ => {},
            },
        }
    }
}

/// Of two forks that are put in the place at which an action on `target` is done, one
/// after the other, the second one stands there.
pub proof fn lemma_graft_twice(f: ForkView, target: BranchRef, x: ForkView, y: ForkView)
    requires
        f.holder(target) is Some,
        x.here(target),
    ensures
        f.grafted(target, x).grafted(target, y) == f.grafted(target, y),
    decreases f,
{
    if !f.here(target) {
        match f.left {
            BranchView::Fork(g) if g.holder(target) is Some => {
                lemma_graft_twice(*g, target, x, y);
                lemma_graft_holder(*g, target, x);
            },
            _ => match f.right {
                Some(BranchView::Fork(g)) => {
                    lemma_graft_twice(*g, target, x, y);
                    lemma_graft_holder(*g, target, x);
                },
                _ => {},
            },
        }
    }
}

impl WorkspaceView {
    /// The fork of the workspace at which an action on `target` is done.
    pub open spec fn holder(self, target: BranchRef) -> Option<ForkView> {
        match self.fork {
            Some(f) => f.holder(target),
            None => None,
        }
    }

    /// The workspace with `x` in the place of the fork at which an action on `target` is
    /// done.
    pub open spec fn grafted(self, target: BranchRef, x: ForkView) -> WorkspaceView {
        match self.fork {
            Some(f) => WorkspaceView { fork: Some(f.grafted(target, x)), ..self },
            None => self,
        }
    }
}

impl TilerView {
    /// The workspace at `i` is the first that has a fork at which an action on `target`
    /// is done.
    pub open spec fn holds_at(self, i: int, target: BranchRef) -> bool {
        &&& 0 <= i < self.workspaces.len()
        &&& forall|k: int| 0 <= k < i ==> (#[trigger] self.workspaces[k]).holder(target) is None
        &&& self.workspaces[i].holder(target) is Some
    }
}

/// An action that keeps the fork at which it is done changes nothing of the tiler but
/// that fork, in the first workspace that has one, and the queue.
pub proof fn lemma_tiler_kept_is_local(t: TilerView, i: int, k: int, target: BranchRef, action: Action)
    requires
        t.holds_at(i, target),
        t.workspaces[i].holder(target).unwrap().acted(target, action, t.queue).outcome
            == Outcome::Kept,
        0 <= k <= i,
    ensures
        t.applied_from(k, target, action) == (TilerStep {
            tiler: TilerView {
                workspaces: t.workspaces.update(
                    i,
                    t.workspaces[i].grafted(
                        target,
                        t.workspaces[i].holder(target).unwrap().acted(target, action, t.queue).fork,
                    ),
                ),
                queue: t.workspaces[i].holder(target).unwrap().acted(target, action, t.queue).queue,
                ..t
            },
            found: true,
            picked: t.workspaces[i].holder(target).unwrap().acted(target, action, t.queue).picked,
            made: t.workspaces[i].holder(target).unwrap().acted(target, action, t.queue).made,
        }),
    decreases i - k,
{
    match t.workspaces[k].fork {
        Some(f) => {
            lemma_found_is_held(f, target, action, t.queue);
            if k == i {
                lemma_kept_is_local(f, target, action, t.queue);
            }
        },
        None => {},
    }
    if k < i {
        assert(t.workspaces[k].holder(target) is None);
        lemma_tiler_kept_is_local(t, i, k + 1, target, action);
    }
}

/// Where a window is attached while the active window is a branch of a fork with two
/// branches, on whichever workspace, a new fork stands in the place of the active window,
/// under that fork, and holds the active window and then the new one; nothing else of the
/// trees changes.
pub proof fn lemma_attach_beside_a_window(t: TilerView, id: WindowID, i: int)
    requires
        t.distinct(),
        t.find(id) is None,
        t.active is Some,
        t.holds_at(i, BranchRef::Window(t.active.unwrap())),
        t.workspaces[i].holder(BranchRef::Window(t.active.unwrap())).unwrap().right is Some,
        t.workspaces[i].holder(BranchRef::Window(t.active.unwrap())).unwrap().child(
            t.workspaces[i].holder(BranchRef::Window(t.active.unwrap())).unwrap().side_of(
                t.active.unwrap(),
            ).unwrap(),
        ) is Window,
    ensures
        ({
            let a = t.active.unwrap();
            let p = t.workspaces[i].holder(BranchRef::Window(a)).unwrap();
            let side = p.side_of(a).unwrap();
            let h = first_free(t.forks) as usize;
            let p2 = p.attached_beside(side, Window::fresh(id), h, t.queue).fork;
            let u = t.attach(id);
            &&& u.workspaces == t.workspaces.update(
                i,
                t.workspaces[i].grafted(BranchRef::Window(a), p2),
            )
            &&& u.forks == taken(t.forks)
            &&& u.registry == t.registry.push(id)
            &&& u.active == t.active
            &&& p2.handle == p.handle
            &&& p2.parent == p.parent
            &&& p2.area == p.area
            &&& p2.child(side) is Fork
            &&& p2.child(side)->Fork_0.handle == h
            &&& p2.child(side)->Fork_0.parent == Some(p.handle)
            &&& p2.child(side)->Fork_0.left.id() == BranchRef::Window(a)
            &&& p2.child(side)->Fork_0.right is Some
            &&& p2.child(side)->Fork_0.right.unwrap().id() == BranchRef::Window(id)
        }),
{
    let a = t.active.unwrap();
    crate::distinct::lemma_find_total(t, a);
    assert(t.anchor() == Some(a));
    let target = BranchRef::Window(a);
    let p = t.workspaces[i].holder(target).unwrap();
    let side = p.side_of(a).unwrap();
    let h = first_free(t.forks) as usize;
    let action = Action::Attach(Window::fresh(id), h);
    lemma_holder_is_here(t.workspaces[i].fork.unwrap(), target);
    reveal(ForkView::acted);
    reveal(ForkView::attached);
    reveal(ForkView::attached_beside);
    match p.child(side) {
        BranchView::Window(x) => {
            let n0 = p.pair(x, Window::fresh(id), h);
            let g = p.with_child(side, BranchView::Fork(Box::new(n0)));
            lemma_retiled_ids(g, g.area);
            let q1 = seen_as(t.queue, Window::fresh(id), x.visible).fork_update(h, n0.update());
            let parent = g.refreshed(q1);
            lemma_child_retiled_ids(g, side, g.area);
            match parent.fork.child(side) {
                BranchView::Fork(n1) => {
                    lemma_retiled_ids(n1.reset(), n1.area);
                },
                _ => {},
            }
        },
        _ => {},
    }
    assert(p.acted(target, action, t.queue).outcome == Outcome::Kept);
    lemma_tiler_kept_is_local(t, i, 0, target, action);
}

/// Where a window is attached while the active window is a member of a stack, on
/// whichever workspace, the window is the last member of that stack, hidden, on the
/// stack's area and workspace; the raised member stays, no fork is made, and nothing else
/// of the trees changes.
pub proof fn lemma_attach_into_a_stack(t: TilerView, id: WindowID, i: int)
    requires
        t.distinct(),
        t.find(id) is None,
        t.active is Some,
        t.holds_at(i, BranchRef::Window(t.active.unwrap())),
        t.workspaces[i].holder(BranchRef::Window(t.active.unwrap())).unwrap().child(
            t.workspaces[i].holder(BranchRef::Window(t.active.unwrap())).unwrap().side_of(
                t.active.unwrap(),
            ).unwrap(),
        ) is Stack,
    ensures
        ({
            let a = t.active.unwrap();
            let p = t.workspaces[i].holder(BranchRef::Window(a)).unwrap();
            let side = p.side_of(a).unwrap();
            let s = p.child(side)->Stack_0;
            let s2 = s.with_member(Window::fresh(id)).moved_to(s.area);
            let u = t.attach(id);
            &&& u.workspaces == t.workspaces.update(
                i,
                t.workspaces[i].grafted(
                    BranchRef::Window(a),
                    p.with_child(side, BranchView::Stack(s2)),
                ),
            )
            &&& u.forks == t.forks
            &&& u.registry == t.registry.push(id)
            &&& u.active == t.active
            &&& s2.active == s.active
            &&& s2.handle == s.handle
            &&& s2.area == s.area
            &&& s2.windows.len() == s.windows.len() + 1
            &&& forall|j: int|
                0 <= j < s.windows.len() ==> #[trigger] s2.windows[j] == (Window {
                    rect: s.area,
                    ..s.windows[j]
                })
            &&& s2.windows.last() == (Window {
                id,
                rect: s.area,
                workspace: s.workspace,
                visible: false,
                fork: Some(s.parent),
                stack: Some(s.handle),
            })
        }),
{
    let a = t.active.unwrap();
    crate::distinct::lemma_find_total(t, a);
    assert(t.anchor() == Some(a));
    let target = BranchRef::Window(a);
    let p = t.workspaces[i].holder(target).unwrap();
    let h = first_free(t.forks) as usize;
    let action = Action::Attach(Window::fresh(id), h);
    lemma_holder_is_here(t.workspaces[i].fork.unwrap(), target);
    reveal(ForkView::acted);
    reveal(ForkView::attached);
    reveal(ForkView::attached_to_stack);
    assert(p.acted(target, action, t.queue).outcome == Outcome::Kept);
    lemma_tiler_kept_is_local(t, i, 0, target, action);
}

/// Two turns of the fork that holds the active window restore its orientation and leave
/// its area; one turn changes the orientation. Nothing else of the trees changes, and no
/// fork or window is made or destroyed.
pub proof fn lemma_toggle_twice_on_the_tiler(t: TilerView, i: int)
    requires
        t.active is Some,
        t.holds_at(i, BranchRef::Window(t.active.unwrap())),
    ensures
        ({
            let target = BranchRef::Window(t.active.unwrap());
            let p = t.workspaces[i].holder(target).unwrap();
            let once = t.toggle_orientation();
            let twice = t.toggle_orientation().toggle_orientation();
            &&& once.workspaces == t.workspaces.update(
                i,
                t.workspaces[i].grafted(target, p.toggled()),
            )
            &&& twice.workspaces == t.workspaces.update(
                i,
                t.workspaces[i].grafted(target, p.toggled().toggled()),
            )
            &&& p.toggled().orientation != p.orientation
            &&& p.toggled().toggled().orientation == p.orientation
            &&& p.toggled().toggled().area == p.area
            &&& p.toggled().toggled().handle == p.handle
            &&& forall|id: WindowID| #[trigger]
                p.toggled().toggled().count(id) == p.count(id)
            &&& twice.registry == t.registry
            &&& twice.forks == t.forks
            &&& twice.stacks == t.stacks
            &&& twice.active == t.active
        }),
{
    let a = t.active.unwrap();
    let target = BranchRef::Window(a);
    let root = t.workspaces[i].fork.unwrap();
    let p = t.workspaces[i].holder(target).unwrap();
    let action = Action::ToggleOrientation;
    lemma_holder_is_here(root, target);
    reveal(ForkView::acted);
    lemma_tiler_kept_is_local(t, i, 0, target, action);
    let once = t.toggle_orientation();
    lemma_toggle_twice(p);
    lemma_retiled_ids(p.turned(), p.area);
    lemma_toggled_is_here(p, a);
    lemma_graft_holder(root, target, p.toggled());
    assert(once.workspaces[i].holder(target) == Some(p.toggled()));
    assert(once.holds_at(i, target)) by {
        assert forall|k: int| 0 <= k < i implies (#[trigger] once.workspaces[k]).holder(target) is None by {
            assert(once.workspaces[k] == t.workspaces[k]);
        }
    }
    lemma_tiler_kept_is_local(once, i, 0, target, action);
    lemma_graft_twice(root, target, p.toggled(), p.toggled().toggled());
    assert(once.workspaces.update(
        i,
        once.workspaces[i].grafted(target, p.toggled().toggled()),
    ) =~= t.workspaces.update(i, t.workspaces[i].grafted(target, p.toggled().toggled())));
    assert forall|id: WindowID| #[trigger] p.toggled().toggled().count(id) == p.count(id) by {
        lemma_refreshed_count(p, t.queue, id);
        lemma_refreshed_count(p.toggled(), t.queue, id);
    }
}

/// The fork at which an action on `target` is done is a place at which it is done.
pub proof fn lemma_holder_is_here(f: ForkView, target: BranchRef)
    requires
        f.holder(target) is Some,
    ensures
        f.holder(target).unwrap().here(target),
    decreases f,
{
    if !f.here(target) {
        match f.left {
            BranchView::Fork(g) if g.holder(target) is Some => {
                lemma_holder_is_here(*g, target);
            },
            _ => match f.right {
                Some(BranchView::Fork(g)) => {
                    lemma_holder_is_here(*g, target);
                },
                _ => {},
            },
        }
    }
}

/// Laying a branch on an area leaves it holding the windows that it held.
pub proof fn lemma_retiled_holds(b: BranchView, area: crate::geom::Rect, id: WindowID)
    ensures
        b.retiled(area).holds(id) == b.holds(id),
{
    match b {
        BranchView::Stack(s) => {
            crate::shape::lemma_index_of_by_ids(s.windows, s.moved_to(area).windows, id);
        },
        _ => {},
    }
}

/// A fork that holds a window still holds it after a turn.
pub proof fn lemma_toggled_is_here(f: ForkView, id: WindowID)
    requires
        f.side_of(id) is Some,
    ensures
        f.toggled().side_of(id) is Some,
{
    let g = f.turned();
    let moved = ForkView {
        area: f.area,
        split_handle: crate::fork::scale(g.split_handle, g.axis(), g.orientation.axis(f.area)),
        ..g
    };
    lemma_retiled_holds(g.left, moved.left_rect(), id);
    match g.right {
        Some(r) => {
            lemma_retiled_holds(r, moved.right_rect(), id);
        },
        None => {},
    }
}

/// Laying a fork on an area keeps what the fork that is its branch on `side` is, and
/// which nodes that fork holds.
pub proof fn lemma_child_retiled_ids(f: ForkView, side: Side, area: crate::geom::Rect)
    requires
        side == Side::Right ==> f.right is Some,
        f.child(side) is Fork,
    ensures
        f.retiled(area).child(side) is Fork,
        f.retiled(area).child(side)->Fork_0.handle == f.child(side)->Fork_0.handle,
        f.retiled(area).child(side)->Fork_0.parent == f.child(side)->Fork_0.parent,
        f.retiled(area).child(side)->Fork_0.orientation_toggled == f.child(
            side,
        )->Fork_0.orientation_toggled,
        f.retiled(area).child(side)->Fork_0.left.id() == f.child(side)->Fork_0.left.id(),
        f.retiled(area).child(side)->Fork_0.right is Some == f.child(side)->Fork_0.right is Some,
        f.child(side)->Fork_0.right is Some ==> f.retiled(area).child(
            side,
        )->Fork_0.right.unwrap().id() == f.child(side)->Fork_0.right.unwrap().id(),
{
    let moved = ForkView {
        area,
        split_handle: crate::fork::scale(f.split_handle, f.axis(), f.orientation.axis(area)),
        ..f
    };
    match f.child(side) {
        BranchView::Fork(g) => {
            lemma_retiled_ids(*g, moved.left_rect());
            lemma_retiled_ids(*g, moved.right_rect());
            lemma_retiled_parent(*g, moved.left_rect());
            lemma_retiled_parent(*g, moved.right_rect());
        },
        _ => {},
    }
}

/// Laying a fork on an area keeps its parent.
pub proof fn lemma_retiled_parent(f: ForkView, area: crate::geom::Rect)
    ensures
        f.retiled(area).parent == f.parent,
{
}

/// A member whose ID no other member has is the first member with that ID.
pub proof fn lemma_only_member_is_first(s: Seq<Window>, p: int)
    requires
        0 <= p < s.len(),
        occurrences(s, s[p].id) <= 1,
    ensures
        index_of(s, s[p].id) == p,
{
    let id = s[p].id;
    lemma_index_of_exists(s, id);
    let c = index_of(s, id);
    if c < p {
        lemma_occurrences_remove(s, p, id);
        let rest = s.remove(p);
        assert(rest[c] == s[c]);
        lemma_index_of_witness(rest, id, c);
        lemma_occurrences_index(rest, id);
    }
}

/// What a stack of two or more is after a member left it: the other members in their
/// order, each as it was but for being shown or hidden; the raised member as before, or,
/// where it was the one that left, the member after it, or else the one before it.
pub proof fn lemma_member_leaves_a_stack(s: StackView, p: int)
    requires
        s.windows.len() >= 2,
        0 <= p < s.windows.len(),
        s.contains(s.active),
        occurrences(s.windows, s.windows[p].id) <= 1,
    ensures
        ({
            let w = s.windows[p].id;
            let t = s.without(w);
            &&& t.windows.len() == s.windows.len() - 1
            &&& forall|j: int|
                0 <= j < p ==> #[trigger] t.windows[j] == (Window {
                    visible: t.windows[j].visible,
                    ..s.windows[j]
                })
            &&& forall|j: int|
                p <= j < t.windows.len() ==> #[trigger] t.windows[j] == (Window {
                    visible: t.windows[j].visible,
                    ..s.windows[j + 1]
                })
            &&& t.contains(t.active)
            &&& t.active == if s.active != w {
                s.active
            } else if p + 1 < s.windows.len() {
                s.windows[p + 1].id
            } else {
                s.windows[p - 1].id
            }
            &&& t.handle == s.handle
            &&& t.area == s.area
            &&& t.parent == s.parent
            &&& t.workspace == s.workspace
        }),
{
    let w = s.windows[p].id;
    lemma_only_member_is_first(s.windows, p);
    lemma_index_of_exists(s.windows, s.active);
    let rest = s.windows.remove(p);
    let u = s.shed(w);
    let t = s.without(w);
    assert(u.windows == rest);
    assert forall|j: int| 0 <= j < rest.len() implies #[trigger] rest[j] == if j < p {
        s.windows[j]
    } else {
        s.windows[j + 1]
    } by {}
    if s.active == w {
        if p < rest.len() {
            lemma_index_of_witness(rest, rest[p].id, p);
        } else {
            lemma_index_of_witness(rest, rest[p - 1].id, p - 1);
        }
    } else {
        let a = index_of(s.windows, s.active);
        if a < p {
            assert(rest[a] == s.windows[a]);
            lemma_index_of_witness(rest, s.active, a);
        } else {
            assert(rest[a - 1] == s.windows[a]);
            lemma_index_of_witness(rest, s.active, a - 1);
        }
    }
    assert(u.contains(u.active));
    lemma_index_of_by_ids(u.windows, t.windows, u.active);
    assert forall|j: int| 0 <= j < t.windows.len() implies #[trigger] t.windows[j] == (Window {
        visible: t.windows[j].visible,
        ..rest[j]
    }) by {}
}

/// The fork at which an action is done holds no window more often than the tree.
pub proof fn lemma_holder_count(f: ForkView, target: BranchRef, id: WindowID)
    requires
        f.holder(target) is Some,
    ensures
        f.holder(target).unwrap().count(id) <= f.count(id),
    decreases f,
{
    if !f.here(target) {
        match f.left {
            BranchView::Fork(g) if g.holder(target) is Some => {
                lemma_holder_count(*g, target, id);
            },
            _ => match f.right {
                Some(BranchView::Fork(g)) => {
                    lemma_holder_count(*g, target, id);
                },
                _ => {},
            },
        }
    }
}

/// Where a window is detached that is a member of a stack of two or more, in whichever
/// tree, the stack is left as `lemma_member_leaves_a_stack` says, the window is no
/// longer registered, and nothing else of the trees changes.
pub proof fn lemma_detach_from_a_stack(t: TilerView, w: WindowID, i: int, p: int)
    requires
        t.wf(),
        t.distinct(),
        t.holds_at(i, BranchRef::Window(w)),
        t.workspaces[i].holder(BranchRef::Window(w)).unwrap().child(
            t.workspaces[i].holder(BranchRef::Window(w)).unwrap().side_of(w).unwrap(),
        ) is Stack,
        t.workspaces[i].holder(BranchRef::Window(w)).unwrap().child(
            t.workspaces[i].holder(BranchRef::Window(w)).unwrap().side_of(w).unwrap(),
        )->Stack_0.windows.len() >= 2,
        0 <= p < t.workspaces[i].holder(BranchRef::Window(w)).unwrap().child(
            t.workspaces[i].holder(BranchRef::Window(w)).unwrap().side_of(w).unwrap(),
        )->Stack_0.windows.len(),
        t.workspaces[i].holder(BranchRef::Window(w)).unwrap().child(
            t.workspaces[i].holder(BranchRef::Window(w)).unwrap().side_of(w).unwrap(),
        )->Stack_0.windows[p].id == w,
    ensures
        ({
            let target = BranchRef::Window(w);
            let f = t.workspaces[i].holder(target).unwrap();
            let side = f.side_of(w).unwrap();
            let s = f.child(side)->Stack_0;
            let u = t.detach(w);
            &&& u.workspaces == t.workspaces.update(
                i,
                t.workspaces[i].grafted(
                    target,
                    f.with_child(side, BranchView::Stack(s.without(w))),
                ),
            )
            &&& u.registry == forget(t.registry, w)
            &&& u.forks == t.forks
            &&& u.stacks == t.stacks
            &&& index_of(s.windows, w) == p
            &&& s.without(w).windows.len() == s.windows.len() - 1
            &&& s.without(w).contains(s.without(w).active)
            &&& s.without(w).active == if s.active != w {
                s.active
            } else if p + 1 < s.windows.len() {
                s.windows[p + 1].id
            } else {
                s.windows[p - 1].id
            }
        }),
{
    let target = BranchRef::Window(w);
    let root = t.workspaces[i].fork.unwrap();
    let f = t.workspaces[i].holder(target).unwrap();
    let side = f.side_of(w).unwrap();
    let s = f.child(side)->Stack_0;
    lemma_holder_is_here(root, target);
    lemma_holder_count(root, target, w);
    lemma_holder_joined(root, target);
    crate::distinct::lemma_total_member(t.workspaces, i, w);
    assert(t.total(w) <= 1);
    assert(occurrences(s.windows, w) <= f.count(w));
    lemma_member_leaves_a_stack(s, p);
    reveal(ForkView::acted);
    reveal(ForkView::detached);
    assert(f.acted(target, Action::Detach, t.queue).outcome == Outcome::Kept);
    lemma_tiler_kept_is_local(t, i, 0, target, Action::Detach);
    lemma_only_member_is_first(s.windows, p);
}

/// The fork of a well-formed tree at which an action is done is joined.
pub proof fn lemma_holder_joined(f: ForkView, target: BranchRef)
    requires
        f.joined(),
        f.holder(target) is Some,
    ensures
        f.holder(target).unwrap().joined(),
    decreases f,
{
    if !f.here(target) {
        match f.left {
            BranchView::Fork(g) if g.holder(target) is Some => {
                lemma_holder_joined(*g, target);
            },
            _ => match f.right {
                Some(BranchView::Fork(g)) => {
                    lemma_holder_joined(*g, target);
                },
                _ => {},
            },
        }
    }
}

} // verus!
