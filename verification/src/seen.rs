use vstd::prelude::*;
use crate::action::{Action, Outcome, Side, Step};
use crate::events::QueueView;
use crate::fork::{scale, BranchRef, BranchView, ForkView};
use crate::geom::{Direction, Rect};
use crate::distinct::{
    lemma_applied_distinct, lemma_detach_distinct, lemma_find_total, lemma_total_member,
};
use crate::fork::largest_of;
use crate::search::nearest_of;
use crate::stack::StackView;
use crate::tiler::{
    first_free, lemma_swept_upto, lemma_tiler_applied, lemma_tiler_applied_frame,
    lemma_workspace_index_exists, lemma_workspace_switch_wf, workspace_index, TilerView,
};
use crate::workspace::{Sweep, WorkspaceView};
use crate::window::{
    index_of, lemma_index_of_exists, lemma_occurrences_index, Window, WindowID,
};

verus! {

/// The raised member of a stack whose members are shown as they should be is shown
/// exactly if the stack is on view.
pub proof fn lemma_stack_lit(s: StackView, on_view: bool)
    requires
        s.shown(on_view),
        s.contains(s.active),
    ensures
        s.lit() == on_view,
{
    lemma_index_of_exists(s.windows, s.active);
}

/// What the steps of a stack do to a stack whose members are shown as they should be:
/// they leave them so.
pub proof fn lemma_stack_steps_shown(s: StackView, id: WindowID, on_view: bool, area: Rect, parent: usize)
    requires
        s.shown(on_view),
    ensures
        s.viewed(on_view).shown(on_view),
        s.without(id).shown(on_view),
        s.moved_to(area).shown(on_view),
        s.adopted(parent).shown(on_view),
        s.moved_left().shown(on_view),
        s.moved_right().shown(on_view),
        s.contains(s.active) ==> s.raised(id).shown(on_view),
{
    lemma_index_of_exists(s.windows, id);
    lemma_index_of_exists(s.windows, s.active);
    let i = index_of(s.windows, id);
    if i < s.windows.len() {
        let rest = s.windows.remove(i);
        assert forall|j: int| 0 <= j < rest.len() implies (#[trigger] rest[j]).visible == (on_view
            && rest[j].id == s.active) by {
            if j < i {
                assert(rest[j] == s.windows[j]);
            } else {
                assert(rest[j] == s.windows[j + 1]);
            }
        }
        if s.hands_over(id) {
            assert(s.windows[i].visible == on_view);
        } else if s.active == id {
            assert(rest.len() == 0);
        }
    }
    assert forall|j: int| 0 <= j < s.windows.len() implies (#[trigger] s.moved_to(
        area,
    ).windows[j]).visible == (on_view && s.moved_to(area).windows[j].id == s.active) by {
        assert(s.windows[j].visible == (on_view && s.windows[j].id == s.active));
    }
    assert forall|j: int| 0 <= j < s.windows.len() implies (#[trigger] s.adopted(
        parent,
    ).windows[j]).visible == (on_view && s.adopted(parent).windows[j].id == s.active) by {
        assert(s.windows[j].visible == (on_view && s.windows[j].id == s.active));
    }
    let a = index_of(s.windows, s.active);
    let l = s.moved_left();
    assert forall|j: int| 0 <= j < l.windows.len() implies (#[trigger] l.windows[j]).visible == (
    on_view && l.windows[j].id == l.active) by {
        if 0 < a < s.windows.len() {
            if j == a {
                assert(l.windows[j] == s.windows[a - 1]);
            } else if j == a - 1 {
                assert(l.windows[j] == s.windows[a]);
            } else {
                assert(l.windows[j] == s.windows[j]);
            }
        }
    }
    let r = s.moved_right();
    assert forall|j: int| 0 <= j < r.windows.len() implies (#[trigger] r.windows[j]).visible == (
    on_view && r.windows[j].id == r.active) by {
        if a + 1 < s.windows.len() {
            if j == a {
                assert(r.windows[j] == s.windows[a + 1]);
            } else if j == a + 1 {
                assert(r.windows[j] == s.windows[a]);
            } else {
                assert(r.windows[j] == s.windows[j]);
            }
        }
    }
    if s.contains(s.active) {
        lemma_stack_lit(s, on_view);
    }
}

/// A window that a stack does not hold yet joins it hidden, and leaves the members shown
/// as they should be.
pub proof fn lemma_with_member_shown(s: StackView, n: Window, on_view: bool)
    requires
        s.shown(on_view),
        n.id != s.active,
    ensures
        s.with_member(n).shown(on_view),
{
    let t = s.with_member(n);
    assert forall|j: int| 0 <= j < t.windows.len() implies (#[trigger] t.windows[j]).visible == (
    on_view && t.windows[j].id == t.active) by {
        if j < s.windows.len() {
            assert(t.windows[j] == s.windows[j]);
        }
    }
}

/// An exchange of two names leaves the members of a stack shown as they should be.
pub proof fn lemma_stack_renamed_shown(s: StackView, a: WindowID, b: WindowID, on_view: bool)
    requires
        s.shown(on_view),
    ensures
        s.renamed(a, b).shown(on_view),
{
    let t = s.renamed(a, b);
    assert forall|j: int| 0 <= j < t.windows.len() implies (#[trigger] t.windows[j]).visible == (
    on_view && t.windows[j].id == t.active) by {
        assert(s.windows[j].visible == (on_view && s.windows[j].id == s.active));
    }
}

/// Laying a branch on an area, or exchanging two names in it, leaves its windows shown as
/// they should be.
pub proof fn lemma_branch_laid_shown(br: BranchView, area: Rect, a: WindowID, b: WindowID, on_view: bool)
    requires
        br.shown(on_view),
    ensures
        br.retiled(area).shown(on_view),
        br.renamed(a, b).shown(on_view),
    decreases br,
{
    match br {
        BranchView::Window(w) => {},
        BranchView::Fork(f) => {
            lemma_laid_shown(*f, area, a, b, on_view);
        },
        BranchView::Stack(s) => {
            lemma_stack_steps_shown(s, a, on_view, area, 0);
            lemma_stack_renamed_shown(s, a, b, on_view);
        },
    }
}

/// Laying a fork on an area, or exchanging two names in it, leaves its windows shown as
/// they should be.
pub proof fn lemma_laid_shown(f: ForkView, area: Rect, a: WindowID, b: WindowID, on_view: bool)
    requires
        f.shown(on_view),
    ensures
        f.retiled(area).shown(on_view),
        f.renamed(a, b).shown(on_view),
    decreases f,
{
    let moved = ForkView {
        area,
        split_handle: scale(f.split_handle, f.axis(), f.orientation.axis(area)),
        ..f
    };
    lemma_branch_laid_shown(f.left, moved.left_rect(), a, b, on_view);
    match f.right {
        Some(r) => {
            lemma_branch_laid_shown(r, moved.right_rect(), a, b, on_view);
        },
        None => {},
    }
}

/// Laying a fork out again, turning it, exchanging its branches or setting its split
/// leaves its windows shown as they should be.
pub proof fn lemma_fork_steps_shown(f: ForkView, q: QueueView, split: u32, on_view: bool)
    requires
        f.shown(on_view),
    ensures
        f.refreshed(q).fork.shown(on_view),
        f.flipped().shown(on_view),
        f.turned().shown(on_view),
        f.toggled().shown(on_view),
        f.reset().shown(on_view),
        f.resized(split).shown(on_view),
{
    let w = WindowID(0, 0);
    lemma_laid_shown(f, f.area, w, w, on_view);
    lemma_laid_shown(f.turned(), f.area, w, w, on_view);
    lemma_laid_shown(f.resized_before(split), f.area, w, w, on_view);
}

/// Dropping a branch leaves the windows of what stays shown as they should be.
pub proof fn lemma_dropped_shown(f: ForkView, side: Side, q: QueueView, on_view: bool)
    requires
        match side {
            Side::Left => match f.right {
                Some(r) => r.shown(on_view),
                None => true,
            },
            Side::Right => f.left.shown(on_view),
        },
    ensures
        f.dropped(side, q).outcome != Outcome::Gone ==> f.dropped(side, q).fork.shown(on_view),
{
    reveal(ForkView::dropped);
    if !(side == Side::Left && f.right is None) {
        let rest = ForkView {
            left: if side == Side::Left {
                f.right.unwrap()
            } else {
                f.left
            },
            right: None,
            ..f
        };
        lemma_fork_steps_shown(rest, q, 0, on_view);
    }
}

/// Settling a fork after a step of the fork below leaves the windows shown as they
/// should be.
pub proof fn lemma_settled_shown(f: ForkView, side: Side, below: Step, q: QueueView, on_view: bool)
    requires
        f.shown(on_view),
        side == Side::Right ==> f.right is Some,
        below.outcome != Outcome::Gone ==> below.fork.shown(on_view),
    ensures
        f.with_child(side, BranchView::Fork(Box::new(below.fork))).settled(
            side,
            below.outcome,
            q,
        ).outcome != Outcome::Gone ==> f.with_child(
            side,
            BranchView::Fork(Box::new(below.fork)),
        ).settled(side, below.outcome, q).fork.shown(on_view),
{
    reveal(ForkView::settled);
    let g = f.with_child(side, BranchView::Fork(Box::new(below.fork)));
    match below.outcome {
        Outcome::Gone => {
            lemma_dropped_shown(g, side, q, on_view);
        },
        Outcome::Replaced => {
            lemma_fork_steps_shown(g, q, 0, on_view);
        },
        _ => {},
    }
}

/// Attaching a window that the fork does not hold yet leaves the windows shown as they
/// should be.
pub proof fn lemma_attached_shown(
    f: ForkView,
    side: Side,
    n: Window,
    handle: usize,
    q: QueueView,
    on_view: bool,
)
    requires
        f.wf(),
        f.shown(on_view),
        f.count(n.id) == 0,
        side == Side::Right ==> f.right is Some,
    ensures
        f.attached(side, n, handle, q).fork.shown(on_view),
{
    reveal(ForkView::attached);
    reveal(ForkView::attached_to_stack);
    reveal(ForkView::attached_right);
    reveal(ForkView::attached_beside);
    match f.child(side) {
        BranchView::Stack(s) => {
            lemma_occurrences_index(s.windows, n.id);
            lemma_index_of_exists(s.windows, s.active);
            lemma_with_member_shown(s, n, on_view);
            lemma_stack_steps_shown(s.with_member(n), n.id, on_view, s.area, 0);
        },
        BranchView::Window(a) => {
            if f.right is None {
                let g = ForkView {
                    right: Some(BranchView::Window(f.linked(Window { visible: a.visible, ..n }))),
                    ..f
                };
                lemma_fork_steps_shown(g, q, 0, on_view);
                lemma_fork_steps_shown(g.reset(), crate::action::seen_as(q, n, a.visible), 0, on_view);
            } else {
                let n0 = f.pair(a, n, handle);
                assert(a.visible == on_view);
                assert(n0.left.shown(on_view));
                assert(n0.right.unwrap().shown(on_view));
                assert(n0.shown(on_view));
                let g = f.with_child(side, BranchView::Fork(Box::new(n0)));
                assert(g.shown(on_view));
                let q1 = crate::action::seen_as(q, n, a.visible).fork_update(handle, n0.update());
                lemma_fork_steps_shown(g, q1, 0, on_view);
                let parent = g.refreshed(q1);
                match parent.fork.child(side) {
                    BranchView::Fork(n1) => {
                        lemma_fork_steps_shown(*n1, parent.queue, 0, on_view);
                        lemma_fork_steps_shown(n1.reset(), parent.queue, 0, on_view);
                    },
                    _ => {},
                }
            }
        },
        BranchView::Fork(_) => {},
    }
}

/// Taking a window out, putting it into a stack or taking it out of one, or moving it out
/// of its stack leaves the windows shown as they should be.
pub proof fn lemma_removals_shown(
    f: ForkView,
    side: Side,
    id: WindowID,
    direction: Direction,
    handle: usize,
    q: QueueView,
    on_view: bool,
)
    requires
        f.wf(),
        f.shown(on_view),
        side == Side::Right ==> f.right is Some,
        f.child(side).holds(id),
    ensures
        f.detached(side, id, q).outcome != Outcome::Gone ==> f.detached(side, id, q).fork.shown(
            on_view,
        ),
        f.stack_toggled(side, id, handle, q).fork.shown(on_view),
        f.moved_out(side, id, direction, handle, q).fork.shown(on_view),
{
    reveal(ForkView::detached);
    reveal(ForkView::stack_toggled);
    reveal(ForkView::moved_out);
    match f.child(side) {
        BranchView::Stack(s) => {
            lemma_stack_steps_shown(s, id, on_view, s.area, handle);
            lemma_stack_steps_shown(s.without(id), id, on_view, s.area, handle);
            lemma_index_of_exists(s.windows, id);
            lemma_index_of_exists(s.windows, s.active);
            lemma_stack_lit(s, on_view);
            let w = s.windows[index_of(s.windows, id)];
            let q1 = s.announce_without(q, id);
            let g = f.with_child(side, BranchView::Stack(s.without(id)));
            if s.without(id).windows.len() == 0 {
                lemma_dropped_shown(g, side, q1.stack_destroy(s.handle), on_view);
            }
            if s.windows.len() == 1 {
                assert(w.id == s.active);
                let h = f.with_child(side, BranchView::Window(Window { stack: None, ..w }));
                lemma_fork_steps_shown(h, q.stack_destroy(s.handle), 0, on_view);
            } else {
                let wb = BranchView::Window(
                    Window { stack: None, fork: Some(handle), visible: s.lit(), ..w },
                );
                let sb = BranchView::Stack(s.without(id).adopted(handle));
                let stack_first = direction == Direction::Below || direction == Direction::Right;
                let n0 = ForkView {
                    parent: if f.right is None {
                        f.parent
                    } else {
                        Some(f.handle)
                    },
                    right: Some(
                        if stack_first {
                            wb
                        } else {
                            sb
                        },
                    ),
                    ..ForkView::starting(
                        handle,
                        s.area,
                        if stack_first {
                            sb
                        } else {
                            wb
                        },
                        f.workspace,
                    )
                };
                assert(n0.shown(on_view));
                lemma_fork_steps_shown(n0, q, 0, on_view);
                let n1 = n0.oriented(
                    if direction == Direction::Above || direction == Direction::Below {
                        crate::orientation::Orientation::Vertical
                    } else {
                        crate::orientation::Orientation::Horizontal
                    },
                );
                let q2 = crate::action::seen_as(s.announce_without(q, id), w, s.lit()).fork_update(
                    handle,
                    n0.update(),
                );
                if f.right is Some {
                    let h = f.with_child(side, BranchView::Fork(Box::new(n1)));
                    lemma_fork_steps_shown(h, q2, 0, on_view);
                }
            }
        },
        BranchView::Window(w) => {
            lemma_dropped_shown(f, side, q, on_view);
            let st = StackView::around(handle, w, f.handle);
            assert(st.shown(on_view));
        },
        BranchView::Fork(_) => {},
    }
}

/// Raising, choosing or shifting a member of a stack, or laying a stack out again, leaves
/// the windows shown as they should be.
pub proof fn lemma_stack_acts_shown(f: ForkView, side: Side, id: WindowID, q: QueueView, on_view: bool)
    requires
        f.wf(),
        f.shown(on_view),
        side == Side::Right ==> f.right is Some,
    ensures
        f.raised(side, id, q).fork.shown(on_view),
        f.selected(side, true, q).fork.shown(on_view),
        f.selected(side, false, q).fork.shown(on_view),
        f.shifted(side, true, q).fork.shown(on_view),
        f.shifted(side, false, q).fork.shown(on_view),
        f.renewed(side, q).fork.shown(on_view),
{
    reveal(ForkView::raised);
    reveal(ForkView::selected);
    reveal(ForkView::shifted);
    reveal(ForkView::renewed);
    lemma_fork_steps_shown(f, q, 0, on_view);
    match f.child(side) {
        BranchView::Stack(s) => {
            lemma_stack_steps_shown(s, id, on_view, s.area, 0);
            if s.left_of_active() is Some {
                lemma_stack_steps_shown(s, s.left_of_active().unwrap(), on_view, s.area, 0);
            }
            if s.right_of_active() is Some {
                lemma_stack_steps_shown(s, s.right_of_active().unwrap(), on_view, s.area, 0);
            }
        },
        _ => {},
    }
}

/// An action that is done at a well-formed fork leaves the windows shown as they should be.
pub proof fn lemma_acted_shown(f: ForkView, target: BranchRef, action: Action, q: QueueView, on_view: bool)
    requires
        f.wf(),
        f.shown(on_view),
        action matches Action::Attach(n, _) ==> f.count(n.id) == 0,
    ensures
        f.acted(target, action, q).outcome != Outcome::Gone ==> f.acted(
            target,
            action,
            q,
        ).fork.shown(on_view),
{
    reveal(ForkView::acted);
    lemma_fork_steps_shown(f, q, 0, on_view);
    match target {
        BranchRef::Fork(_) => match action {
            Action::Resize(split) => {
                lemma_fork_steps_shown(f, q, split, on_view);
            },
            _ => {},
        },
        BranchRef::Stack(_) => {},
        BranchRef::Window(id) => match f.side_of(id) {
            None => {},
            Some(side) => {
                lemma_stack_acts_shown(f, side, id, q, on_view);
                lemma_fork_steps_shown(f.flipped(), q, 0, on_view);
                match action {
                    Action::Attach(n, handle) => {
                        lemma_attached_shown(f, side, n, handle, q, on_view);
                    },
                    Action::Detach => {
                        lemma_removals_shown(f, side, id, Direction::Left, 0, q, on_view);
                    },
                    Action::ToggleStack(handle) => {
                        lemma_removals_shown(f, side, id, Direction::Left, handle, q, on_view);
                    },
                    Action::MoveOut(direction, handle) => {
                        lemma_removals_shown(f, side, id, direction, handle, q, on_view);
                    },
                    _ => {},
                }
            },
        },
    }
}

/// An action on a well-formed fork leaves the windows shown as they should be: every
/// window on its own is visible exactly if the workspace is on view, and every member of a
/// stack exactly if it is also the raised one.
pub proof fn lemma_applied_shown(f: ForkView, target: BranchRef, action: Action, q: QueueView, on_view: bool)
    requires
        f.wf(),
        f.shown(on_view),
        action matches Action::Attach(n, _) ==> f.count(n.id) == 0,
    ensures
        f.applied(target, action, q).outcome != Outcome::Gone ==> f.applied(
            target,
            action,
            q,
        ).fork.shown(on_view),
    decreases f,
{
    if f.here(target) {
        lemma_acted_shown(f, target, action, q, on_view);
    } else {
        let left = match f.left {
            BranchView::Fork(g) => g.applied(target, action, q),
            _ => Step { outcome: Outcome::Missing, ..f.kept(q) },
        };
        if left.outcome != Outcome::Missing {
            match f.left {
                BranchView::Fork(g) => {
                    lemma_applied_shown(*g, target, action, q, on_view);
                    lemma_settled_shown(f, Side::Left, left, left.queue, on_view);
                },
                _ => {},
            }
        } else {
            let right = match f.right {
                Some(BranchView::Fork(g)) => g.applied(target, action, q),
                _ => Step { outcome: Outcome::Missing, ..f.kept(q) },
            };
            if right.outcome != Outcome::Missing {
                match f.right {
                    Some(BranchView::Fork(g)) => {
                        lemma_applied_shown(*g, target, action, q, on_view);
                        lemma_settled_shown(f, Side::Right, right, right.queue, on_view);
                    },
                    _ => {},
                }
            }
        }
    }
}

impl TilerView {
    /// Every window in the trees is visible exactly if its workspace is the one on view
    /// and it is not a member of a stack that is not the raised one.
    pub open spec fn shown(self) -> bool {
        forall|i: int|
            0 <= i < self.workspaces.len() ==> (#[trigger] self.workspaces[i]).shown(
                self.workspaces[i].id == self.active_workspace,
            )
    }
}

/// An action leaves the windows of a well-formed workspace shown as they should be.
pub proof fn lemma_workspace_applied_shown(
    w: WorkspaceView,
    target: BranchRef,
    action: Action,
    q: QueueView,
    on_view: bool,
)
    requires
        w.wf(),
        w.shown(on_view),
        action matches Action::Attach(n, _) ==> w.count(n.id) == 0,
    ensures
        w.applied(target, action, q).workspace.shown(on_view),
{
    match w.fork {
        None => {},
        Some(f) => {
            lemma_applied_shown(f, target, action, q, on_view);
            let s = f.applied(target, action, q);
            if s.outcome == Outcome::Replaced {
                lemma_laid_shown(s.fork, w.area, WindowID(0, 0), WindowID(0, 0), on_view);
            }
        },
    }
}

/// An action leaves the windows of a well-formed tiler shown as they should be.
pub proof fn lemma_tiler_applied_shown(t: TilerView, i: int, target: BranchRef, action: Action)
    requires
        t.wf(),
        t.shown(),
        action matches Action::Attach(n, _) ==> t.total(n.id) == 0,
        0 <= i,
    ensures
        t.applied_from(i, target, action).tiler.shown(),
    decreases t.workspaces.len() - i,
{
    if i < t.workspaces.len() {
        let r = t.workspaces[i].applied(target, action, t.queue);
        let on_view = t.workspaces[i].id == t.active_workspace;
        match action {
            Action::Attach(n, _) => {
                lemma_total_member(t.workspaces, i, n.id);
            },
            _ => {},
        }
        assert(t.workspaces[i].wf());
        lemma_workspace_applied_shown(t.workspaces[i], target, action, t.queue, on_view);
        crate::workspace::lemma_workspace_applied(t.workspaces[i], target, action, t.queue);
        if r.found {
            let u = t.applied_from(i, target, action).tiler;
            assert forall|k: int| 0 <= k < u.workspaces.len() implies (#[trigger] u.workspaces[k]).shown(
                u.workspaces[k].id == u.active_workspace,
            ) by {
                if k != i {
                    assert(u.workspaces[k] == t.workspaces[k]);
                }
            }
        } else {
            lemma_tiler_applied_shown(t, i + 1, target, action);
        }
    }
}

/// A tiler with the workspaces of another, and the same workspace on view, shows its
/// windows as the other does.
pub proof fn lemma_same_trees_shown(t: TilerView, u: TilerView)
    requires
        t.shown(),
        u.workspaces == t.workspaces,
        u.active_workspace == t.active_workspace,
    ensures
        u.shown(),
{
    assert forall|k: int| 0 <= k < u.workspaces.len() implies (#[trigger] u.workspaces[k]).shown(
        u.workspaces[k].id == u.active_workspace,
    ) by {
        assert(t.workspaces[k].shown(t.workspaces[k].id == t.active_workspace));
    }
}

/// A new workspace without a tree leaves the windows shown as they should be.
pub proof fn lemma_pushed_shown(t: TilerView, u: TilerView, w: WorkspaceView)
    requires
        t.shown(),
        u.workspaces == t.workspaces.push(w),
        w.fork is None,
        u.active_workspace == t.active_workspace,
    ensures
        u.shown(),
{
    assert forall|k: int| 0 <= k < u.workspaces.len() implies (#[trigger] u.workspaces[k]).shown(
        u.workspaces[k].id == u.active_workspace,
    ) by {
        if k < t.workspaces.len() {
            assert(t.workspaces[k].shown(t.workspaces[k].id == t.active_workspace));
        }
    }
}

/// A sweep that moves workspaces or exchanges two names leaves the windows shown as they
/// should be.
pub proof fn lemma_swept_shown(t: TilerView, sweep: Sweep)
    requires
        t.shown(),
        !(sweep is View),
    ensures
        t.swept(sweep).shown(),
{
    let u = t.swept(sweep);
    lemma_swept_upto(t, t.workspaces.len() as int, sweep);
    assert forall|k: int| 0 <= k < u.workspaces.len() implies (#[trigger] u.workspaces[k]).shown(
        u.workspaces[k].id == u.active_workspace,
    ) by {
        assert(u.workspaces[k] == t.workspaces[k].swept(sweep));
        let on_view = t.workspaces[k].id == t.active_workspace;
        assert(t.workspaces[k].shown(on_view));
        match t.workspaces[k].fork {
            Some(f) => {
                match sweep {
                    Sweep::Move { from, to, area } => {
                        lemma_laid_shown(f, area, WindowID(0, 0), WindowID(0, 0), on_view);
                    },
                    Sweep::Rename(a, b) => {
                        lemma_laid_shown(f, f.area, a, b, on_view);
                    },
                    _ => {},
                }
            },
            None => {},
        }
    }
}

/// Making a window the active one, with the switch of workspaces that goes with it,
/// leaves the windows shown as they should be.
pub proof fn lemma_with_active_shown(t: TilerView, id: WindowID)
    requires
        t.wf(),
        t.shown(),
    ensures
        t.with_active(id).shown(),
        forall|k: u32| #[trigger] t.workspace_switch(k).shown(),
{
    assert forall|k: u32| #[trigger] t.workspace_switch(k).shown() by {
        lemma_workspace_switch_wf(t, k);
    }
    match t.find(id) {
        Some(w) => {
            lemma_same_trees_shown(t.workspace_switch(w.workspace), t.with_active(id));
        },
        None => {},
    }
}

/// Attaching a window that is in no tree beside another leaves the windows shown as they
/// should be.
pub proof fn lemma_attach_to_window_shown(t: TilerView, id: WindowID, anchor: WindowID)
    requires
        t.wf(),
        t.shown(),
        t.total(id) == 0,
    ensures
        t.attach_to_window(id, anchor).shown(),
{
    let action = Action::Attach(Window::fresh(id), first_free(t.forks) as usize);
    lemma_tiler_applied_shown(t, 0, BranchRef::Window(anchor), action);
    lemma_tiler_applied_frame(t, 0, BranchRef::Window(anchor), action);
    lemma_same_trees_shown(
        t.applied(BranchRef::Window(anchor), action).tiler,
        t.attach_to_window(id, anchor),
    );
}

/// Attaching a window that is in no tree leaves the windows shown as they should be.
pub proof fn lemma_attach_shown(t: TilerView, id: WindowID)
    requires
        t.wf(),
        t.distinct(),
        t.shown(),
    ensures
        t.attach(id).shown(),
{
    lemma_find_total(t, id);
    if t.find(id) is None {
        match t.anchor() {
            Some(x) => {
                lemma_attach_to_window_shown(t, id, x);
            },
            None => {
                lemma_workspace_index_exists(t.workspaces, t.active_workspace);
                let i = workspace_index(t.workspaces, t.active_workspace);
                if i < t.workspaces.len() {
                    let w = t.workspaces[i];
                    match largest_of(w.leaves()) {
                        Some(a) => {
                            lemma_attach_to_window_shown(t, id, a.id);
                            lemma_same_trees_shown(
                                t.attach_to_window(id, a.id),
                                t.attach_to_workspace(id),
                            );
                        },
                        None => {
                            let h = first_free(t.forks) as usize;
                            let w0 = WorkspaceView { fork: None, ..w };
                            let root = w0.first_root(Window::fresh(id), h);
                            assert(root.shown(true));
                            lemma_laid_shown(root, w0.area, id, id, true);
                            let u = t.attach_to_workspace(id);
                            assert forall|k: int| 0 <= k < u.workspaces.len() implies (
                            #[trigger] u.workspaces[k]).shown(
                                u.workspaces[k].id == u.active_workspace,
                            ) by {
                                if k != i {
                                    assert(t.workspaces[k].shown(
                                        t.workspaces[k].id == t.active_workspace,
                                    ));
                                }
                            }
                        },
                    }
                }
            },
        }
    }
}

/// Each command that works on a window, and a drain, leave the windows shown as they
/// should be.
pub proof fn lemma_commands_shown(t: TilerView, a: WindowID, b: WindowID, fork: usize, split: u32)
    requires
        t.wf(),
        t.distinct(),
        t.shown(),
    ensures
        t.attach(a).shown(),
        t.detach(a).shown(),
        t.focus(a).shown(),
        t.toggle_orientation().shown(),
        t.stack_toggle().shown(),
        t.swap(a, b).shown(),
        t.fork_resize(fork, split).shown(),
        t.drained().shown(),
{
    lemma_attach_shown(t, a);
    lemma_detach_shown(t, a);
    // focus
    lemma_tiler_applied_shown(t, 0, BranchRef::Window(a), Action::Raise);
    lemma_tiler_applied(t, 0, BranchRef::Window(a), Action::Raise);
    lemma_with_active_shown(t, a);
    lemma_with_active_shown(t.applied(BranchRef::Window(a), Action::Raise).tiler, a);
    match t.active {
        Some(x) => {
            lemma_tiler_applied_shown(t, 0, BranchRef::Window(x), Action::ToggleOrientation);
            let action = Action::ToggleStack(first_free(t.stacks) as usize);
            lemma_tiler_applied_shown(t, 0, BranchRef::Window(x), action);
            lemma_tiler_applied_frame(t, 0, BranchRef::Window(x), action);
            lemma_same_trees_shown(t.applied(BranchRef::Window(x), action).tiler, t.stack_toggle());
        },
        None => {},
    }
    // swap
    lemma_swept_shown(t, Sweep::Rename(a, b));
    crate::tiler::lemma_swept_wf(t, Sweep::Rename(a, b));
    let t1 = t.swept(Sweep::Rename(a, b));
    lemma_tiler_applied_shown(t1, 0, BranchRef::Window(b), Action::Refresh);
    lemma_tiler_applied(t1, 0, BranchRef::Window(b), Action::Refresh);
    lemma_tiler_applied_shown(
        t1.applied(BranchRef::Window(b), Action::Refresh).tiler,
        0,
        BranchRef::Window(a),
        Action::Refresh,
    );
    lemma_tiler_applied_shown(t, 0, BranchRef::Fork(fork), Action::Resize(split));
    lemma_same_trees_shown(t, t.drained());
}

/// Detaching a window leaves the windows shown as they should be.
pub proof fn lemma_detach_shown(t: TilerView, a: WindowID)
    requires
        t.wf(),
        t.shown(),
    ensures
        t.detach(a).shown(),
{
    lemma_tiler_applied_shown(t, 0, BranchRef::Window(a), Action::Detach);
    lemma_tiler_applied_frame(t, 0, BranchRef::Window(a), Action::Detach);
    lemma_same_trees_shown(t.applied(BranchRef::Window(a), Action::Detach).tiler, t.detach(a));
}

/// Focus that goes to a display, in a direction or along a stack leaves the windows shown
/// as they should be.
pub proof fn lemma_focus_shown(t: TilerView, direction: Direction, before: bool)
    requires
        t.wf(),
        t.shown(),
    ensures
        t.focus_display_toward(direction).shown(),
        t.focus_toward(direction).shown(),
        t.focus_in_stack(before).shown(),
{
    lemma_focus_toward_shown(t, direction);
    match t.active {
        Some(a) => {
            let action = if before {
                Action::SelectLeft
            } else {
                Action::SelectRight
            };
            lemma_tiler_applied_shown(t, 0, BranchRef::Window(a), action);
            lemma_tiler_applied(t, 0, BranchRef::Window(a), action);
            let step = t.applied(BranchRef::Window(a), action);
            match step.picked {
                Some(m) => {
                    lemma_with_active_shown(step.tiler, m);
                },
                None => {
                    lemma_focus_toward_shown(
                        step.tiler,
                        if before {
                            Direction::Left
                        } else {
                            Direction::Right
                        },
                    );
                },
            }
        },
        None => {},
    }
}

/// Focus that goes to a display or in a direction leaves the windows shown as they
/// should be.
pub proof fn lemma_focus_toward_shown(t: TilerView, direction: Direction)
    requires
        t.wf(),
        t.shown(),
    ensures
        t.focus_display_toward(direction).shown(),
        t.focus_toward(direction).shown(),
{
    match t.display_in_direction(direction) {
        Some(d) => {
            match d.active {
                Some(k) => {
                    match t.focus_of(k) {
                        Some(f) => {
                            lemma_with_active_shown(t, f);
                        },
                        None => {},
                    }
                },
                None => {},
            }
        },
        None => {},
    }
    match t.window_in_direction(direction) {
        Some(w) => {
            lemma_with_active_shown(t, w.id);
        },
        None => {},
    }
}

/// A move of the active window leaves the windows shown as they should be.
pub proof fn lemma_move_shown(t: TilerView, direction: Direction, before: bool)
    requires
        t.wf(),
        t.distinct(),
        t.shown(),
    ensures
        t.move_toward(direction).shown(),
        t.move_in_stack(before).shown(),
{
    lemma_move_toward_shown(t, direction);
    match t.active {
        Some(a) => {
            let action = if before {
                Action::ShiftLeft
            } else {
                Action::ShiftRight
            };
            lemma_tiler_applied_shown(t, 0, BranchRef::Window(a), action);
            lemma_tiler_applied(t, 0, BranchRef::Window(a), action);
            lemma_applied_distinct(t, BranchRef::Window(a), action);
            lemma_move_toward_shown(
                t.applied(BranchRef::Window(a), action).tiler,
                if before {
                    Direction::Left
                } else {
                    Direction::Right
                },
            );
        },
        None => {},
    }
}

/// A move of the active window in a direction leaves the windows shown as they should be.
pub proof fn lemma_move_toward_shown(t: TilerView, direction: Direction)
    requires
        t.wf(),
        t.distinct(),
        t.shown(),
    ensures
        t.move_toward(direction).shown(),
{
    match t.active {
        Some(a) => {
            let out = Action::MoveOut(direction, first_free(t.forks) as usize);
            lemma_tiler_applied_shown(t, 0, BranchRef::Window(a), out);
            lemma_tiler_applied_frame(t, 0, BranchRef::Window(a), out);
            let step = t.applied(BranchRef::Window(a), out);
            lemma_same_trees_shown(step.tiler, step.tiler.with_fork_made(step.made));
            lemma_tiler_applied_shown(t, 0, BranchRef::Window(a), Action::Flip);
            match t.find(a) {
                Some(w) => {
                    match nearest_of(t.windows(), w, direction) {
                        Some(other) => {
                            lemma_detach_shown(t, a);
                            lemma_detach_distinct(t, a);
                            crate::tiler::lemma_detach_wf(t, a);
                            let d = t.detach(a);
                            lemma_attach_to_window_shown(d, a, other.id);
                            crate::tiler::lemma_attach_to_window_wf(d, a, other.id);
                            lemma_with_active_shown(d.attach_to_window(a, other.id), a);
                        },
                        None => {},
                    }
                },
                None => {},
            }
        },
        None => {},
    }
}

/// A change of the displays or of the place of a workspace leaves the windows shown as
/// they should be.
pub proof fn lemma_topology_shown(t: TilerView, display: u32, area: Rect, workspace: u32)
    requires
        t.shown(),
    ensures
        t.display_update(display, area).shown(),
        t.display_detach(display).shown(),
        t.workspace_update(workspace, display).shown(),
{
    if area.valid() {
        let i = crate::display::display_index(t.displays, display);
        let u = TilerView {
            displays: if i < t.displays.len() {
                t.displays.update(i, crate::display::Display { area, ..t.displays[i] })
            } else {
                t.displays.push(crate::display::Display { id: display, area, active: None })
            },
            ..t
        };
        lemma_same_trees_shown(t, u);
        lemma_swept_shown(u, Sweep::Move { from: display, to: display, area });
    }
    match t.workspace(t.active_workspace) {
        Some(w) => {
            let i = crate::display::display_index(t.displays, display);
            if i < t.displays.len() && w.display != display {
                let u = TilerView { displays: t.displays.remove(i), ..t };
                lemma_same_trees_shown(t, u);
                lemma_swept_shown(u, Sweep::Move { from: display, to: w.display, area: w.area });
            }
        },
        None => {},
    }
    let d = crate::display::display_index(t.displays, display);
    let i = workspace_index(t.workspaces, workspace);
    lemma_workspace_index_exists(t.workspaces, workspace);
    let u = t.workspace_update(workspace, display);
    if d < t.displays.len() {
        if i < t.workspaces.len() {
            if t.workspaces[i].display != display {
                assert forall|k: int| 0 <= k < u.workspaces.len() implies (
                #[trigger] u.workspaces[k]).shown(u.workspaces[k].id == u.active_workspace) by {
                    assert(t.workspaces[k].shown(t.workspaces[k].id == t.active_workspace));
                    if k == i {
                        match t.workspaces[i].fork {
                            Some(f) => {
                                lemma_laid_shown(
                                    f,
                                    t.displays[d].area,
                                    WindowID(0, 0),
                                    WindowID(0, 0),
                                    t.workspaces[i].id == t.active_workspace,
                                );
                            },
                            None => {},
                        }
                    }
                }
            }
        } else {
            lemma_pushed_shown(
                t,
                u,
                WorkspaceView {
                    id: workspace,
                    display,
                    area: t.displays[d].area,
                    fork: None,
                    focus: None,
                },
            );
        }
    }
}

/// A tiler without windows shows its windows as it should.
pub proof fn lemma_empty_shown()
    ensures
        TilerView::empty().shown(),
{
}

} // verus!
