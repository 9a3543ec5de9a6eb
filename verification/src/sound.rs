use vstd::prelude::*;
use crate::action::{Action, Outcome, Side, Step};
use crate::events::QueueView;
use crate::fork::{BranchRef, BranchView, ForkView};
use crate::geom::{Direction, Rect};
use crate::shape::{
    lemma_adopted_joined, lemma_around_joined, lemma_index_of_by_ids, lemma_index_of_witness,
    lemma_raised_joined, lemma_retiled_joined, lemma_retiled_tiled, lemma_shifted_joined,
    lemma_stack_moved_joined, lemma_stack_moved_tiled, lemma_with_member_joined,
    lemma_without_joined,
};
use crate::stack::StackView;
use crate::window::{index_of, lemma_index_of_exists, Window, WindowID};

verus! {

impl ForkView {
    /// This fork stands where `f` stood: it has the handle, the parent, the workspace and
    /// the area of `f`.
    pub open spec fn stands_for(self, f: ForkView) -> bool {
        &&& self.handle == f.handle
        &&& self.parent == f.parent
        &&& self.workspace == f.workspace
        &&& self.area == f.area
    }

    /// All of the fork but its branch on `side` is well formed.
    pub open spec fn rest_wf(self, side: Side) -> bool {
        &&& self.area.valid()
        &&& self.split_handle <= self.axis()
        &&& match side {
            Side::Left => match self.right {
                Some(r) => r.joined(self.handle, self.workspace) && r.tiled(self.right_rect()),
                None => true,
            },
            Side::Right => self.left.joined(self.handle, self.workspace) && self.left.tiled(
                self.left_rect(),
            ),
        }
    }
}

impl Step {
    /// The step left a well-formed fork in the place of the well-formed fork `f`: the fork
    /// itself where it is kept, or the fork that replaced it, which is joined but has yet
    /// to be laid on the area.
    pub open spec fn sound(self, f: ForkView) -> bool {
        match self.outcome {
            Outcome::Missing => self.fork == f,
            Outcome::Kept => self.fork.wf() && self.fork.stands_for(f),
            Outcome::Replaced => {
                &&& self.fork.joined()
                &&& self.fork.parent == f.parent
                &&& self.fork.workspace == f.workspace
            },
            Outcome::Gone => true,
        }
    }
}

/// A joined fork on a valid area is well formed once it is laid on that area.
pub proof fn lemma_refreshed_sound(f: ForkView, q: QueueView)
    requires
        f.joined(),
        f.area.valid(),
    ensures
        f.refreshed(q).outcome == Outcome::Kept,
        f.refreshed(q).fork.wf(),
        f.refreshed(q).fork.stands_for(f),
        f.refreshed(q).sound(f),
{
    lemma_retiled_joined(f, f.area);
    lemma_retiled_tiled(f, f.area);
}

/// A fork stays joined when its branches are exchanged.
pub proof fn lemma_flipped_joined(f: ForkView)
    requires
        f.joined(),
    ensures
        f.flipped().joined(),
        f.flipped().stands_for(f),
{
}

/// A fork stays joined when it is turned.
pub proof fn lemma_turned_joined(f: ForkView)
    requires
        f.joined(),
    ensures
        f.turned().joined(),
        f.turned().stands_for(f),
{
}

/// Dropping a branch of a fork whose other branch is well formed leaves a sound step.
pub proof fn lemma_dropped_sound(f: ForkView, side: Side, q: QueueView)
    requires
        f.rest_wf(side),
    ensures
        f.dropped(side, q).sound(f),
        f.dropped(side, q).outcome != Outcome::Missing,
{
    reveal(ForkView::dropped);
    if !(side == Side::Left && f.right is None) {
        let rest = ForkView {
            left: if side == Side::Left {
                f.right.unwrap()
            } else {
                f.left
            },
            right: None,
            ..f
        };
        match rest.left {
            BranchView::Fork(g) => {},
            _ => {
                lemma_refreshed_sound(rest, q);
            },
        }
    }
}

/// Settling a well-formed fork after a sound step of the fork below leaves a sound step.
pub proof fn lemma_settled_sound(f: ForkView, side: Side, below: Step, q: QueueView)
    requires
        f.wf(),
        side == Side::Right ==> f.right is Some,
        f.child(side) is Fork,
        below.sound(*f.child(side)->Fork_0),
        below.outcome != Outcome::Missing,
    ensures
        f.with_child(side, BranchView::Fork(Box::new(below.fork))).settled(
            side,
            below.outcome,
            q,
        ).sound(f),
{
    reveal(ForkView::settled);
    let g = f.with_child(side, BranchView::Fork(Box::new(below.fork)));
    match below.outcome {
        Outcome::Missing => {},
        Outcome::Kept => {
            assert(g.left_rect() == f.left_rect());
            assert(g.right_rect() == f.right_rect());
        },
        Outcome::Replaced => {
            lemma_refreshed_sound(g, q);
        },
        Outcome::Gone => {
            assert(g.left_rect() == f.left_rect());
            assert(g.right_rect() == f.right_rect());
            lemma_dropped_sound(g, side, q);
        },
    }
}

/// Attaching a window to a stack of a well-formed fork leaves the fork well formed.
pub proof fn lemma_attached_to_stack_sound(f: ForkView, side: Side, n: Window, q: QueueView)
    requires
        f.wf(),
        side == Side::Right ==> f.right is Some,
    ensures
        f.attached_to_stack(side, n, q).sound(f),
{
    reveal(ForkView::attached_to_stack);
    match f.child(side) {
        BranchView::Stack(s) => {
            lemma_with_member_joined(s, n, f.handle, f.workspace);
            lemma_stack_moved_joined(s.with_member(n), s.area, f.handle, f.workspace);
            lemma_stack_moved_tiled(s.with_member(n), s.area);
            let g = f.with_child(
                side,
                BranchView::Stack(s.with_member(n).moved_to(s.area)),
            );
            assert(g.left_rect() == f.left_rect());
            assert(g.right_rect() == f.right_rect());
        },
        _ => {},
    }
}

/// Attaching a window as the right branch of a well-formed fork leaves it well formed.
pub proof fn lemma_attached_right_sound(f: ForkView, n: Window, q: QueueView)
    requires
        f.wf(),
        f.right is None,
    ensures
        f.attached_right(n, q).sound(f),
{
    reveal(ForkView::attached_right);
    let g = ForkView { right: Some(BranchView::Window(f.linked(n))), ..f };
    assert(g.joined());
    assert(g.halved().joined());
    if g.orientation != crate::orientation::preferred(g.area) {
        lemma_turned_joined(g.halved());
    }
    lemma_refreshed_sound(g.reset(), q);
}

/// Putting a new fork in the place of a window of a well-formed fork, to hold that window
/// and a new one, leaves the fork well formed.
pub proof fn lemma_attached_beside_sound(
    f: ForkView,
    side: Side,
    n: Window,
    handle: usize,
    q: QueueView,
)
    requires
        f.wf(),
        f.right is Some,
    ensures
        f.attached_beside(side, n, handle, q).sound(f),
{
    reveal(ForkView::attached_beside);
    match f.child(side) {
        BranchView::Window(a) => {
            let n0 = f.pair(a, n, handle);
            assert(n0.joined());
            let g = f.with_child(side, BranchView::Fork(Box::new(n0)));
            assert(g.joined());
            let q1 = q.fork_update(handle, n0.update());
            lemma_refreshed_sound(g, q1);
            let parent = g.refreshed(q1);
            lemma_retiled_joined(g, g.area);
            match parent.fork.child(side) {
                BranchView::Fork(n1) => {
                    assert(n1.joined());
                    assert(n1.halved().joined());
                    if n1.orientation != crate::orientation::preferred(n1.area) {
                        lemma_turned_joined(n1.halved());
                    }
                    lemma_refreshed_sound(n1.reset(), parent.queue);
                    let n2 = n1.reset().refreshed(parent.queue);
                    let h = parent.fork.with_child(side, BranchView::Fork(Box::new(n2.fork)));
                    assert(h.left_rect() == parent.fork.left_rect());
                    assert(h.right_rect() == parent.fork.right_rect());
                },
                _ => {},
            }
        },
        _ => {},
    }
}

/// Attaching a window beside a branch of a well-formed fork leaves the fork well formed.
pub proof fn lemma_attached_sound(f: ForkView, side: Side, n: Window, handle: usize, q: QueueView)
    requires
        f.wf(),
        side == Side::Right ==> f.right is Some,
    ensures
        f.attached(side, n, handle, q).sound(f),
        f.attached(side, n, handle, q).outcome == Outcome::Kept,
{
    reveal(ForkView::attached);
    reveal(ForkView::attached_to_stack);
    reveal(ForkView::attached_right);
    reveal(ForkView::attached_beside);
    match f.child(side) {
        BranchView::Stack(_) => {
            lemma_attached_to_stack_sound(f, side, n, q);
        },
        BranchView::Window(_) => {
            if f.right is None {
                lemma_attached_right_sound(f, n, q);
            } else {
                lemma_attached_beside_sound(f, side, n, handle, q);
            }
        },
        BranchView::Fork(_) => {},
    }
}

/// Taking a window out of a branch of a well-formed fork leaves a sound step.
pub proof fn lemma_detached_sound(f: ForkView, side: Side, id: WindowID, q: QueueView)
    requires
        f.wf(),
        side == Side::Right ==> f.right is Some,
    ensures
        f.detached(side, id, q).sound(f),
{
    reveal(ForkView::detached);
    match f.child(side) {
        BranchView::Stack(s) => {
            let q1 = s.announce_without(q, id);
            if s.without(id).windows.len() > 0 {
                let area = if side == Side::Left {
                    f.left_rect()
                } else {
                    f.right_rect()
                };
                lemma_without_joined(s, id, f.handle, f.workspace, area);
                let g = f.with_child(side, BranchView::Stack(s.without(id)));
                assert(g.left_rect() == f.left_rect());
                assert(g.right_rect() == f.right_rect());
            } else {
                let g = f.with_child(side, BranchView::Stack(s.without(id)));
                assert(g.left_rect() == f.left_rect());
                assert(g.right_rect() == f.right_rect());
                lemma_dropped_sound(g, side, q1.stack_destroy(s.handle));
            }
        },
        _ => {
            lemma_dropped_sound(f, side, q);
        },
    }
}

/// Putting a window of a well-formed fork into a stack of its own, or taking it out of
/// its stack, leaves the fork well formed.
pub proof fn lemma_stack_toggled_sound(
    f: ForkView,
    side: Side,
    id: WindowID,
    handle: usize,
    q: QueueView,
)
    requires
        f.wf(),
        side == Side::Right ==> f.right is Some,
        f.child(side).holds(id),
    ensures
        f.stack_toggled(side, id, handle, q).sound(f),
{
    reveal(ForkView::stack_toggled);
    let area = if side == Side::Left {
        f.left_rect()
    } else {
        f.right_rect()
    };
    match f.child(side) {
        BranchView::Stack(s) => {
            lemma_index_of_exists(s.windows, id);
            if s.without(id).windows.len() > 0 {
                lemma_without_joined(s, id, f.handle, f.workspace, area);
                let g = f.with_child(side, BranchView::Stack(s.without(id)));
                assert(g.left_rect() == f.left_rect());
                assert(g.right_rect() == f.right_rect());
            } else {
                let w = Window { stack: None, ..s.windows[index_of(s.windows, id)] };
                let g = f.with_child(side, BranchView::Window(w));
                assert(g.left_rect() == f.left_rect());
                assert(g.right_rect() == f.right_rect());
            }
        },
        BranchView::Window(w) => {
            lemma_around_joined(handle, w, f.handle);
            let g = f.with_child(
                side,
                BranchView::Stack(StackView::around(handle, w, f.handle)),
            );
            assert(g.left_rect() == f.left_rect());
            assert(g.right_rect() == f.right_rect());
        },
        BranchView::Fork(_) => {},
    }
}

/// Moving a window of a well-formed fork out of its stack leaves the fork well formed.
pub proof fn lemma_moved_out_sound(
    f: ForkView,
    side: Side,
    id: WindowID,
    direction: Direction,
    handle: usize,
    q: QueueView,
)
    requires
        f.wf(),
        side == Side::Right ==> f.right is Some,
        f.child(side).holds(id),
    ensures
        f.moved_out(side, id, direction, handle, q).sound(f),
{
    reveal(ForkView::moved_out);
    let area = if side == Side::Left {
        f.left_rect()
    } else {
        f.right_rect()
    };
    match f.child(side) {
        BranchView::Stack(s) => {
            lemma_index_of_exists(s.windows, id);
            let w = s.windows[index_of(s.windows, id)];
            if s.windows.len() == 1 {
                let g = f.with_child(side, BranchView::Window(Window { stack: None, ..w }));
                assert(g.joined());
                lemma_refreshed_sound(g, q.stack_destroy(s.handle));
            } else {
                assert(s.without(id).windows.len() > 0);
                lemma_without_joined(s, id, f.handle, f.workspace, area);
                lemma_adopted_joined(s.without(id), handle, f.handle, f.workspace, area);
                let wb = BranchView::Window(
                    Window { stack: None, fork: Some(handle), visible: s.lit(), ..w },
                );
                let sb = BranchView::Stack(s.without(id).adopted(handle));
                let stack_first = direction == Direction::Below || direction == Direction::Right;
                let n0 = ForkView {
                    parent: if f.right is None {
                        f.parent
                    } else {
                        Some(f.handle)
                    },
                    right: Some(
                        if stack_first {
                            wb
                        } else {
                            sb
                        },
                    ),
                    ..ForkView::starting(
                        handle,
                        s.area,
                        if stack_first {
                            sb
                        } else {
                            wb
                        },
                        f.workspace,
                    )
                };
                assert(n0.joined());
                lemma_turned_joined(n0);
                let n1 = n0.oriented(
                    if direction == Direction::Above || direction == Direction::Below {
                        crate::orientation::Orientation::Vertical
                    } else {
                        crate::orientation::Orientation::Horizontal
                    },
                );
                if f.right is Some {
                    let g = f.with_child(side, BranchView::Fork(Box::new(n1)));
                    assert(g.joined());
                    lemma_refreshed_sound(
                        g,
                        crate::action::seen_as(s.announce_without(q, id), w, s.lit()).fork_update(
                            handle,
                            n0.update(),
                        ),
                    );
                }
            }
        },
        _ => {},
    }
}

/// Raising, choosing or shifting a member of a stack of a well-formed fork, or laying the
/// stack out again, leaves the fork well formed.
pub proof fn lemma_stack_steps_sound(f: ForkView, side: Side, id: WindowID, q: QueueView)
    requires
        f.wf(),
        side == Side::Right ==> f.right is Some,
        f.child(side).holds(id),
    ensures
        f.raised(side, id, q).sound(f),
        f.selected(side, true, q).sound(f),
        f.selected(side, false, q).sound(f),
        f.shifted(side, true, q).sound(f),
        f.shifted(side, false, q).sound(f),
        f.renewed(side, q).sound(f),
{
    reveal(ForkView::raised);
    reveal(ForkView::selected);
    reveal(ForkView::shifted);
    reveal(ForkView::renewed);
    let area = if side == Side::Left {
        f.left_rect()
    } else {
        f.right_rect()
    };
    match f.child(side) {
        BranchView::Stack(s) => {
            lemma_raised_joined(s, id, f.handle, f.workspace, area);
            let g = f.with_child(side, BranchView::Stack(s.raised(id)));
            assert(g.left_rect() == f.left_rect());
            assert(g.right_rect() == f.right_rect());
            lemma_index_of_exists(s.windows, s.active);
            if s.left_of_active() is Some {
                let m = s.left_of_active().unwrap();
                lemma_index_of_witness(s.windows, m, index_of(s.windows, s.active) - 1);
                lemma_raised_joined(s, m, f.handle, f.workspace, area);
                let g = f.with_child(side, BranchView::Stack(s.raised(m)));
                assert(g.left_rect() == f.left_rect());
                assert(g.right_rect() == f.right_rect());
            }
            if s.right_of_active() is Some {
                let m = s.right_of_active().unwrap();
                lemma_index_of_witness(s.windows, m, index_of(s.windows, s.active) + 1);
                lemma_raised_joined(s, m, f.handle, f.workspace, area);
                let g = f.with_child(side, BranchView::Stack(s.raised(m)));
                assert(g.left_rect() == f.left_rect());
                assert(g.right_rect() == f.right_rect());
            }
            lemma_shifted_joined(s, f.handle, f.workspace, area);
            let g = f.with_child(side, BranchView::Stack(s.moved_left()));
            assert(g.left_rect() == f.left_rect());
            assert(g.right_rect() == f.right_rect());
            let g = f.with_child(side, BranchView::Stack(s.moved_right()));
            assert(g.left_rect() == f.left_rect());
            assert(g.right_rect() == f.right_rect());
            lemma_stack_moved_joined(s, s.area, f.handle, f.workspace);
            lemma_stack_moved_tiled(s, s.area);
            let g = f.with_child(side, BranchView::Stack(s.moved_to(s.area)));
            assert(g.left_rect() == f.left_rect());
            assert(g.right_rect() == f.right_rect());
        },
        _ => {
            lemma_refreshed_sound(f, q);
        },
    }
}

/// Turning a well-formed fork, exchanging its branches or setting its split leaves it
/// well formed.
pub proof fn lemma_fork_steps_sound(f: ForkView, split: u32, q: QueueView)
    requires
        f.wf(),
    ensures
        f.toggled().wf(),
        f.toggled().stands_for(f),
        f.flipped().refreshed(q).sound(f),
        f.resized(split).wf(),
        f.resized(split).stands_for(f),
{
    lemma_turned_joined(f);
    lemma_retiled_joined(f.turned(), f.area);
    lemma_retiled_tiled(f.turned(), f.area);
    lemma_flipped_joined(f);
    lemma_refreshed_sound(f.flipped(), q);
    let g = ForkView {
        split_handle: if split < f.axis() {
            split
        } else {
            f.axis()
        },
        ..f
    };
    assert(g.joined());
    lemma_retiled_joined(g, f.area);
    lemma_retiled_tiled(g, f.area);
}

/// An action done at a well-formed fork leaves a sound step.
pub proof fn lemma_acted_sound(f: ForkView, target: BranchRef, action: Action, q: QueueView)
    requires
        f.wf(),
    ensures
        f.acted(target, action, q).sound(f),
{
    reveal(ForkView::acted);
    match target {
        BranchRef::Fork(_) => match action {
            Action::Resize(split) => {
                lemma_fork_steps_sound(f, split, q);
            },
            _ => {},
        },
        BranchRef::Stack(_) => {},
        BranchRef::Window(id) => match f.side_of(id) {
            None => {},
            Some(side) => {
                lemma_fork_steps_sound(f, 0, q);
                lemma_stack_steps_sound(f, side, id, q);
                match action {
                    Action::Attach(n, handle) => {
                        lemma_attached_sound(f, side, n, handle, q);
                    },
                    Action::Detach => {
                        lemma_detached_sound(f, side, id, q);
                    },
                    Action::ToggleStack(handle) => {
                        lemma_stack_toggled_sound(f, side, id, handle, q);
                    },
                    Action::MoveOut(direction, handle) => {
                        lemma_moved_out_sound(f, side, id, direction, handle, q);
                    },
                    _ => {},
                }
            },
        },
    }
}

/// An action on a well-formed fork leaves a sound step: the tree stays well formed.
pub proof fn lemma_applied_sound(f: ForkView, target: BranchRef, action: Action, q: QueueView)
    requires
        f.wf(),
    ensures
        f.applied(target, action, q).sound(f),
    decreases f,
{
    if f.here(target) {
        lemma_acted_sound(f, target, action, q);
    } else {
        let left = match f.left {
            BranchView::Fork(g) => g.applied(target, action, q),
            _ => Step { outcome: Outcome::Missing, ..f.kept(q) },
        };
        if left.outcome != Outcome::Missing {
            match f.left {
                BranchView::Fork(g) => {
                    lemma_applied_sound(*g, target, action, q);
                    lemma_settled_sound(f, Side::Left, left, left.queue);
                },
                _ => {},
            }
        } else {
            let right = match f.right {
                Some(BranchView::Fork(g)) => g.applied(target, action, q),
                _ => Step { outcome: Outcome::Missing, ..f.kept(q) },
            };
            if right.outcome != Outcome::Missing {
                match f.right {
                    Some(BranchView::Fork(g)) => {
                        lemma_applied_sound(*g, target, action, q);
                        lemma_settled_sound(f, Side::Right, right, right.queue);
                    },
                    _ => {},
                }
            }
        }
    }
}

/// Showing and hiding the members of a joined and tiled stack leaves it so, with each
/// member visible exactly if the stack is on view and the member is the raised one.
pub proof fn lemma_stack_viewed(s: StackView, on_view: bool, p: usize, ws: u32, area: Rect)
    requires
        s.joined(p, ws),
        s.tiled(area),
    ensures
        s.viewed(on_view).joined(p, ws),
        s.viewed(on_view).tiled(area),
        BranchView::Stack(s.viewed(on_view)).shown(on_view),
{
    let t = s.viewed(on_view);
    lemma_index_of_by_ids(s.windows, t.windows, s.active);
    assert forall|j: int| 0 <= j < t.windows.len() implies {
        &&& (#[trigger] t.windows[j]).fork == Some(p)
        &&& t.windows[j].stack == Some(t.handle)
        &&& t.windows[j].workspace == ws
        &&& t.windows[j].rect == area
    } by {
        assert(s.windows[j].fork == Some(p));
    }
}

/// Showing and hiding the windows of a well-formed branch leaves it well formed, with
/// each window visible as it should be.
pub proof fn lemma_branch_viewed(b: BranchView, on_view: bool, p: usize, ws: u32, area: Rect)
    requires
        b.joined(p, ws),
        b.tiled(area),
    ensures
        b.viewed(on_view).joined(p, ws),
        b.viewed(on_view).tiled(area),
        b.viewed(on_view).shown(on_view),
        b.viewed(on_view) is Fork == b is Fork,
    decreases b,
{
    match b {
        BranchView::Window(w) => {},
        BranchView::Fork(f) => {
            lemma_viewed(*f, on_view);
        },
        BranchView::Stack(s) => {
            lemma_stack_viewed(s, on_view, p, ws, area);
        },
    }
}

/// Showing and hiding the windows of a well-formed fork leaves it well formed, with each
/// window visible exactly if the workspace is on view and the window is not a member of
/// a stack that is not the raised one.
pub proof fn lemma_viewed(f: ForkView, on_view: bool)
    requires
        f.wf(),
    ensures
        f.viewed(on_view).wf(),
        f.viewed(on_view).stands_for(f),
        f.viewed(on_view).shown(on_view),
    decreases f,
{
    let g = f.viewed(on_view);
    assert(g.left_rect() == f.left_rect());
    assert(g.right_rect() == f.right_rect());
    lemma_branch_viewed(f.left, on_view, f.handle, f.workspace, f.left_rect());
    match f.right {
        Some(r) => {
            lemma_branch_viewed(r, on_view, f.handle, f.workspace, f.right_rect());
        },
        None => {},
    }
}

/// Exchanging two names in a joined and tiled stack leaves it so.
pub proof fn lemma_stack_renamed(
    s: StackView,
    a: WindowID,
    b: WindowID,
    p: usize,
    ws: u32,
    area: Rect,
)
    requires
        s.joined(p, ws),
        s.tiled(area),
    ensures
        s.renamed(a, b).joined(p, ws),
        s.renamed(a, b).tiled(area),
{
    let t = s.renamed(a, b);
    lemma_index_of_exists(s.windows, s.active);
    let i = index_of(s.windows, s.active);
    lemma_index_of_witness(t.windows, t.active, i);
    assert forall|j: int| 0 <= j < t.windows.len() implies {
        &&& (#[trigger] t.windows[j]).fork == Some(p)
        &&& t.windows[j].stack == Some(t.handle)
        &&& t.windows[j].workspace == ws
        &&& t.windows[j].rect == area
    } by {
        assert(s.windows[j].fork == Some(p));
    }
}

/// Exchanging two names in a well-formed branch leaves it well formed.
pub proof fn lemma_branch_renamed(
    br: BranchView,
    a: WindowID,
    b: WindowID,
    p: usize,
    ws: u32,
    area: Rect,
)
    requires
        br.joined(p, ws),
        br.tiled(area),
    ensures
        br.renamed(a, b).joined(p, ws),
        br.renamed(a, b).tiled(area),
        br.renamed(a, b) is Fork == br is Fork,
    decreases br,
{
    match br {
        BranchView::Window(w) => {},
        BranchView::Fork(f) => {
            lemma_renamed(*f, a, b);
        },
        BranchView::Stack(s) => {
            lemma_stack_renamed(s, a, b, p, ws, area);
        },
    }
}

/// Exchanging two names in a well-formed fork leaves it well formed.
pub proof fn lemma_renamed(f: ForkView, a: WindowID, b: WindowID)
    requires
        f.wf(),
    ensures
        f.renamed(a, b).wf(),
        f.renamed(a, b).stands_for(f),
    decreases f,
{
    let g = f.renamed(a, b);
    assert(g.left_rect() == f.left_rect());
    assert(g.right_rect() == f.right_rect());
    lemma_branch_renamed(f.left, a, b, f.handle, f.workspace, f.left_rect());
    match f.right {
        Some(r) => {
            lemma_branch_renamed(r, a, b, f.handle, f.workspace, f.right_rect());
        },
        None => {},
    }
}

} // verus!
