use vstd::prelude::*;
use crate::events::{EventQueue, QueueView, StackMovement};
use crate::fork::{Branch, BranchRef, BranchView, Fork, ForkView};
use crate::geom::{Direction, Rect};
use crate::orientation::Orientation;
use crate::shape::lemma_retiled_tiled;
use crate::stack::{Stack, StackView};
use crate::window::{index_of, position, Window, WindowID};

verus! {

/// One of the two branches of a fork.
#[derive(Copy, Clone, Debug, PartialEq, Eq, Structural)]
pub enum Side {
    Left,
    Right,
}

/// What to do at the fork that holds a window, or at a fork itself.
#[derive(Copy, Clone, Debug)]
pub enum Action {
    /// Attach this window beside the target; the handle is for a fork that may be needed.
    Attach(Window, usize),
    /// Take the target out of the tree.
    Detach,
    /// Turn the fork that holds the target to the other orientation.
    ToggleOrientation,
    /// Put the target into a stack of its own, with this handle, or take it out of its stack.
    ToggleStack(usize),
    /// Move the target out of its stack, to the side of it in this direction; the handle
    /// is for the fork that then holds both.
    MoveOut(Direction, usize),
    /// Exchange the two branches of the fork that holds the target.
    Flip,
    /// Raise the target in its stack.
    Raise,
    /// Raise the member before the raised one in the target's stack.
    SelectLeft,
    /// Raise the member after the raised one in the target's stack.
    SelectRight,
    /// Let the raised member of the target's stack change places with the one before it.
    ShiftLeft,
    /// Let the raised member of the target's stack change places with the one after it.
    ShiftRight,
    /// Set the split of the fork that is the target.
    Resize(u32),
    /// Lay the target's stack, or else the fork that holds the target, on its area again.
    Refresh,
}

/// What became of a fork when an action went through it.
#[derive(Copy, Clone, Debug, PartialEq, Eq, Structural)]
pub enum Outcome {
    /// The target is not below the fork. Nothing changed.
    Missing,
    /// The fork is still there.
    Kept,
    /// The fork was left with a fork as its only branch, which stands in its place now
    /// and has yet to be laid on its area.
    Replaced,
    /// The fork lost its last branch and is to be removed.
    Gone,
}

/// What an action did at a fork.
#[derive(Copy, Clone, Debug)]
pub struct Applied {
    pub outcome: Outcome,
    /// The window that the action chose, where it chooses one.
    pub picked: Option<WindowID>,
    /// Whether the action made the fork or stack for which it was given a handle.
    pub made: bool,
}

/// A fork and a queue after an action, with what the action did.
pub struct Step {
    pub outcome: Outcome,
    pub fork: ForkView,
    pub queue: QueueView,
    pub picked: Option<WindowID>,
    pub made: bool,
}

impl Step {
    /// This step is what a call returned and left behind.
    pub open spec fn is(self, r: Applied, fork: ForkView, queue: QueueView) -> bool {
        &&& r.outcome == self.outcome
        &&& r.picked == self.picked
        &&& r.made == self.made
        &&& fork == self.fork
        &&& queue == self.queue
    }
}

/// The queue after the window `w` was recorded as shown or hidden, where that changes
/// what it was.
pub open spec fn seen_as(q: QueueView, w: Window, shown: bool) -> QueueView {
    if w.visible != shown {
        q.window_visibility(w.id, shown)
    } else {
        q
    }
}

/// The rectangle that a fork has before it is laid out.
pub open spec fn unit_rect() -> Rect {
    Rect { x: 1, y: 1, width: 1, height: 1 }
}

impl BranchView {
    /// Whether the branch is the window `id` or a stack with a member `id`.
    pub open spec fn holds(self, id: WindowID) -> bool {
        match self {
            BranchView::Window(w) => w.id == id,
            BranchView::Fork(_) => false,
            BranchView::Stack(s) => s.contains(id),
        }
    }
}

impl ForkView {
    /// The branch on `side`.
    pub open spec fn child(self, side: Side) -> BranchView
        recommends
            side == Side::Right ==> self.right is Some,
    {
        match side {
            Side::Left => self.left,
            Side::Right => self.right.unwrap(),
        }
    }

    /// The fork with `b` as its branch on `side`.
    pub open spec fn with_child(self, side: Side, b: BranchView) -> ForkView {
        match side {
            Side::Left => ForkView { left: b, ..self },
            Side::Right => ForkView { right: Some(b), ..self },
        }
    }

    /// The side on which the fork itself holds the window `id`, as a window or in a
    /// stack: the left side first.
    pub open spec fn side_of(self, id: WindowID) -> Option<Side> {
        if self.left.holds(id) {
            Some(Side::Left)
        } else if self.right is Some && self.right.unwrap().holds(id) {
            Some(Side::Right)
        } else {
            None
        }
    }

    /// Whether this is the fork at which an action on `target` is done: the fork that
    /// `target` names, or the fork that itself holds the window that it names.
    pub open spec fn here(self, target: BranchRef) -> bool {
        match target {
            BranchRef::Window(id) => self.side_of(id) is Some,
            BranchRef::Fork(handle) => self.handle == handle,
            BranchRef::Stack(_) => false,
        }
    }

    /// The fork, kept as it is.
    pub open spec fn kept(self, q: QueueView) -> Step {
        Step { outcome: Outcome::Kept, fork: self, queue: q, picked: None, made: false }
    }

    /// The fork, laid on its area again and announced.
    pub open spec fn refreshed(self, q: QueueView) -> Step {
        Step {
            outcome: Outcome::Kept,
            fork: self.retiled(self.area),
            queue: self.retiled(self.area).announce(q),
            picked: None,
            made: false,
        }
    }

    /// The fork without its branch on `side`. Where that was its only branch, the fork is
    /// gone. Where a fork is left as its only branch, that fork stands in its place, under
    /// its parent. Else the branch that is left is laid on the whole area. A fork that
    /// does not stay is announced as destroyed.
    #[verifier::opaque]
    pub open spec fn dropped(self, side: Side, q: QueueView) -> Step {
        if side == Side::Left && self.right is None {
            Step {
                outcome: Outcome::Gone,
                fork: self,
                queue: q.fork_destroy(self.handle),
                picked: None,
                made: false,
            }
        } else {
            let rest = ForkView {
                left: if side == Side::Left {
                    self.right.unwrap()
                } else {
                    self.left
                },
                right: None,
                ..self
            };
            match rest.left {
                BranchView::Fork(g) => Step {
                    outcome: Outcome::Replaced,
                    fork: ForkView { parent: self.parent, ..*g },
                    queue: q.fork_destroy(self.handle),
                    picked: None,
                    made: false,
                },
                _ => rest.refreshed(q),
            }
        }
    }

    /// What becomes of the fork after the fork that is its branch on `side` came out of
    /// an action with `outcome`.
    #[verifier::opaque]
    pub open spec fn settled(self, side: Side, outcome: Outcome, q: QueueView) -> Step {
        match outcome {
            Outcome::Missing => Step { outcome: Outcome::Missing, ..self.kept(q) },
            Outcome::Kept => self.kept(q),
            Outcome::Replaced => self.refreshed(q),
            Outcome::Gone => self.dropped(side, q),
        }
    }

    /// The window `n` attached to the stack on `side` as its last member, hidden behind
    /// the raised one.
    #[verifier::opaque]
    pub open spec fn attached_to_stack(self, side: Side, n: Window, q: QueueView) -> Step {
        match self.child(side) {
            BranchView::Stack(s) => {
                let s1 = s.with_member(n).moved_to(s.area);
                Step {
                    outcome: Outcome::Kept,
                    fork: self.with_child(side, BranchView::Stack(s1)),
                    queue: s1.announce(seen_as(q.stack_assign(s.handle, n.id), n, false)),
                    picked: None,
                    made: false,
                }
            },
            _ => self.kept(q),
        }
    }

    /// The window `n` attached as the right branch, shown as the window on the left is,
    /// and the fork's split and orientation reset.
    #[verifier::opaque]
    pub open spec fn attached_right(self, n: Window, q: QueueView) -> Step {
        let shown = match self.left {
            BranchView::Window(a) => a.visible,
            _ => n.visible,
        };
        ForkView {
            right: Some(BranchView::Window(self.linked(Window { visible: shown, ..n }))),
            ..self
        }.reset().refreshed(seen_as(q, n, shown))
    }

    /// The fork with the handle `handle` that holds the window `a` and then the window
    /// `n`, shown as `a` is, under this fork, before it is laid out.
    pub open spec fn pair(self, a: Window, n: Window, handle: usize) -> ForkView {
        ForkView {
            parent: Some(self.handle),
            right: Some(
                BranchView::Window(
                    Window {
                        fork: Some(handle),
                        stack: None,
                        workspace: self.workspace,
                        visible: a.visible,
                        ..n
                    },
                ),
            ),
            ..ForkView::starting(
                handle,
                unit_rect(),
                BranchView::Window(Window { fork: Some(handle), ..a }),
                self.workspace,
            )
        }
    }

    /// The window `n` attached beside the window on `side`: a new fork with the handle
    /// `handle` takes the window's place and holds both. This fork is laid out again,
    /// then the new fork is reset and laid out.
    #[verifier::opaque]
    pub open spec fn attached_beside(self, side: Side, n: Window, handle: usize, q: QueueView)
        -> Step {
        match self.child(side) {
            BranchView::Window(a) => {
                let n0 = self.pair(a, n, handle);
                let parent = self.with_child(side, BranchView::Fork(Box::new(n0))).refreshed(
                    seen_as(q, n, a.visible).fork_update(handle, n0.update()),
                );
                match parent.fork.child(side) {
                    BranchView::Fork(n1) => {
                        let n2 = n1.reset().refreshed(parent.queue);
                        Step {
                            outcome: Outcome::Kept,
                            fork: parent.fork.with_child(side, BranchView::Fork(Box::new(n2.fork))),
                            queue: n2.queue,
                            picked: None,
                            made: true,
                        }
                    },
                    _ => Step { made: true, ..parent },
                }
            },
            _ => self.kept(q),
        }
    }

    /// The window `n` attached beside the branch on `side`. Into a stack it goes as its
    /// last member. Beside a window it becomes the right branch where there is none, and
    /// the fork's split and orientation are reset; else a new fork with the handle
    /// `handle` takes the window's place and holds both.
    #[verifier::opaque]
    pub open spec fn attached(self, side: Side, n: Window, handle: usize, q: QueueView) -> Step {
        match self.child(side) {
            BranchView::Stack(_) => self.attached_to_stack(side, n, q),
            BranchView::Window(_) => {
                if self.right is None {
                    self.attached_right(n, q)
                } else {
                    self.attached_beside(side, n, handle, q)
                }
            },
            BranchView::Fork(_) => self.kept(q),
        }
    }

    /// The window `id` taken out of the branch on `side`, and that branch dropped where
    /// nothing is left of it.
    #[verifier::opaque]
    pub open spec fn detached(self, side: Side, id: WindowID, q: QueueView) -> Step {
        match self.child(side) {
            BranchView::Stack(s) => {
                let q1 = s.announce_without(q, id);
                if s.without(id).windows.len() > 0 {
                    self.with_child(side, BranchView::Stack(s.without(id))).kept(q1)
                } else {
                    self.with_child(side, BranchView::Stack(s.without(id))).dropped(
                        side,
                        q1.stack_destroy(s.handle),
                    )
                }
            },
            _ => self.dropped(side, q),
        }
    }

    /// The window `id` on `side` put into a stack of its own with the handle `handle`,
    /// or taken out of the stack that it was in. A stack that is left empty gives its
    /// place to the window.
    #[verifier::opaque]
    pub open spec fn stack_toggled(self, side: Side, id: WindowID, handle: usize, q: QueueView)
        -> Step {
        match self.child(side) {
            BranchView::Stack(s) => {
                let q1 = s.announce_without(q, id);
                if s.without(id).windows.len() > 0 {
                    self.with_child(side, BranchView::Stack(s.without(id))).kept(q1)
                } else {
                    self.with_child(
                        side,
                        BranchView::Window(
                            Window {
                                stack: None,
                                fork: Some(self.handle),
                                ..s.windows[index_of(s.windows, id)]
                            },
                        ),
                    ).kept(q1.stack_destroy(s.handle))
                }
            },
            BranchView::Window(w) => {
                let s = StackView::around(handle, w, self.handle);
                Step {
                    made: true,
                    ..self.with_child(side, BranchView::Stack(s)).kept(
                        q.stack_update(handle, s.placement()).stack_assign(handle, w.id),
                    )
                }
            },
            BranchView::Fork(_) => self.kept(q),
        }
    }

    /// The window `id` moved out of the stack on `side`, to the side of the stack that
    /// `direction` names. The only member of a stack takes the stack's place. Else a new
    /// fork with the handle `handle` holds the stack and the window: the stack first for
    /// below and right, the window first for above and left; one above the other for above
    /// and below, side by side for left and right. The new fork takes the place of the
    /// stack, or, where the stack was the only branch of this fork, the place of this fork.
    /// The window is shown as the raised member of the stack was.
    #[verifier::opaque]
    pub open spec fn moved_out(
        self,
        side: Side,
        id: WindowID,
        direction: Direction,
        handle: usize,
        q: QueueView,
    ) -> Step {
        match self.child(side) {
            BranchView::Stack(s) => {
                let w = s.windows[index_of(s.windows, id)];
                if s.windows.len() == 1 {
                    self.with_child(
                        side,
                        BranchView::Window(Window { stack: None, ..w }),
                    ).refreshed(q.stack_destroy(s.handle))
                } else {
                    let wb = BranchView::Window(
                        Window { stack: None, fork: Some(handle), visible: s.lit(), ..w },
                    );
                    let sb = BranchView::Stack(s.without(id).adopted(handle));
                    let stack_first = direction == Direction::Below || direction
                        == Direction::Right;
                    let n0 = ForkView {
                        parent: if self.right is None {
                            self.parent
                        } else {
                            Some(self.handle)
                        },
                        right: Some(
                            if stack_first {
                                wb
                            } else {
                                sb
                            },
                        ),
                        ..ForkView::starting(
                            handle,
                            s.area,
                            if stack_first {
                                sb
                            } else {
                                wb
                            },
                            self.workspace,
                        )
                    };
                    let n1 = n0.oriented(
                        if direction == Direction::Above || direction == Direction::Below {
                            Orientation::Vertical
                        } else {
                            Orientation::Horizontal
                        },
                    );
                    let q1 = seen_as(s.announce_without(q, id), w, s.lit()).fork_update(
                        handle,
                        n0.update(),
                    );
                    if self.right is None {
                        Step {
                            outcome: Outcome::Replaced,
                            fork: n1,
                            queue: q1.fork_destroy(self.handle),
                            picked: None,
                            made: true,
                        }
                    } else {
                        Step {
                            made: true,
                            ..self.with_child(side, BranchView::Fork(Box::new(n1))).refreshed(q1)
                        }
                    }
                }
            },
            _ => self.kept(q),
        }
    }

    /// The window `id` raised in the stack on `side`.
    #[verifier::opaque]
    pub open spec fn raised(self, side: Side, id: WindowID, q: QueueView) -> Step {
        match self.child(side) {
            BranchView::Stack(s) => self.with_child(side, BranchView::Stack(s.raised(id))).kept(
                s.announce_raised(q, id),
            ),
            _ => self.kept(q),
        }
    }

    /// The neighbour of the raised member of the stack on `side` raised in its place and
    /// shown as that member was: the one before it, or the one after it. The step tells
    /// which it is.
    #[verifier::opaque]
    pub open spec fn selected(self, side: Side, before: bool, q: QueueView) -> Step {
        match self.child(side) {
            BranchView::Stack(s) => {
                match if before {
                    s.left_of_active()
                } else {
                    s.right_of_active()
                } {
                    Some(m) => Step {
                        picked: Some(m),
                        ..self.with_child(side, BranchView::Stack(s.raised(m))).kept(
                            s.announce_raised(q, m),
                        )
                    },
                    None => self.kept(q),
                }
            },
            _ => self.kept(q),
        }
    }

    /// The raised member of the stack on `side` after it changed places with its
    /// neighbour: the one before it, or the one after it. The step tells the member that
    /// moved, where one did.
    #[verifier::opaque]
    pub open spec fn shifted(self, side: Side, before: bool, q: QueueView) -> Step {
        match self.child(side) {
            BranchView::Stack(s) => {
                if before && s.left_of_active() is Some {
                    Step {
                        picked: Some(s.active),
                        ..self.with_child(side, BranchView::Stack(s.moved_left())).kept(
                            q.stack_movement(s.handle, StackMovement::Left(s.active)),
                        )
                    }
                } else if !before && s.right_of_active() is Some {
                    Step {
                        picked: Some(s.active),
                        ..self.with_child(side, BranchView::Stack(s.moved_right())).kept(
                            q.stack_movement(s.handle, StackMovement::Right(s.active)),
                        )
                    }
                } else {
                    self.kept(q)
                }
            },
            _ => self.kept(q),
        }
    }

    /// The stack on `side` laid on its area again, or else the whole fork.
    #[verifier::opaque]
    pub open spec fn renewed(self, side: Side, q: QueueView) -> Step {
        match self.child(side) {
            BranchView::Stack(s) => self.with_child(
                side,
                BranchView::Stack(s.moved_to(s.area)),
            ).kept(s.moved_to(s.area).announce(q)),
            _ => self.refreshed(q),
        }
    }

    /// What `action` does at this fork, where `target` names it or a window that it holds.
    #[verifier::opaque]
    pub open spec fn acted(self, target: BranchRef, action: Action, q: QueueView) -> Step {
        match target {
            BranchRef::Fork(_) => match action {
                Action::Resize(split) => Step {
                    outcome: Outcome::Kept,
                    fork: self.resized(split),
                    queue: self.resized(split).announce(q),
                    picked: None,
                    made: false,
                },
                _ => self.kept(q),
            },
            BranchRef::Stack(_) => self.kept(q),
            BranchRef::Window(id) => match self.side_of(id) {
                None => self.kept(q),
                Some(side) => match action {
                    Action::Attach(n, handle) => self.attached(side, n, handle, q),
                    Action::Detach => self.detached(side, id, q),
                    Action::ToggleOrientation => Step {
                        outcome: Outcome::Kept,
                        fork: self.toggled(),
                        queue: self.toggled().announce(q),
                        picked: None,
                        made: false,
                    },
                    Action::ToggleStack(handle) => self.stack_toggled(side, id, handle, q),
                    Action::MoveOut(direction, handle) => self.moved_out(
                        side,
                        id,
                        direction,
                        handle,
                        q,
                    ),
                    Action::Flip => self.flipped().refreshed(q),
                    Action::Raise => self.raised(side, id, q),
                    Action::SelectLeft => self.selected(side, true, q),
                    Action::SelectRight => self.selected(side, false, q),
                    Action::ShiftLeft => self.shifted(side, true, q),
                    Action::ShiftRight => self.shifted(side, false, q),
                    Action::Resize(_) => self.kept(q),
                    Action::Refresh => self.renewed(side, q),
                },
            },
        }
    }

    /// What `action` on `target` does to the fork and all below it: it is done at the
    /// first fork, from the top and from the left, that `target` names or that itself
    /// holds the window that `target` names, and every fork above settles what came of
    /// the fork below.
    pub open spec fn applied(self, target: BranchRef, action: Action, q: QueueView) -> Step
        decreases self,
    {
        if self.here(target) {
            self.acted(target, action, q)
        } else {
            let left = match self.left {
                BranchView::Fork(g) => g.applied(target, action, q),
                _ => Step { outcome: Outcome::Missing, ..self.kept(q) },
            };
            if left.outcome != Outcome::Missing {
                Step {
                    picked: left.picked,
                    made: left.made,
                    ..self.with_child(Side::Left, BranchView::Fork(Box::new(left.fork))).settled(
                        Side::Left,
                        left.outcome,
                        left.queue,
                    )
                }
            } else {
                let right = match self.right {
                    Some(BranchView::Fork(g)) => g.applied(target, action, q),
                    _ => Step { outcome: Outcome::Missing, ..self.kept(q) },
                };
                if right.outcome != Outcome::Missing {
                    Step {
                        picked: right.picked,
                        made: right.made,
                        ..self.with_child(
                            Side::Right,
                            BranchView::Fork(Box::new(right.fork)),
                        ).settled(Side::Right, right.outcome, right.queue)
                    }
                } else {
                    Step { outcome: Outcome::Missing, ..self.kept(q) }
                }
            }
        }
    }
}

/// An action that is done at a fork is never missing its target.
pub proof fn lemma_acted_found(f: ForkView, target: BranchRef, action: Action, q: QueueView)
    ensures
        f.acted(target, action, q).outcome != Outcome::Missing,
{
    reveal(ForkView::acted);
    reveal(ForkView::attached);
    reveal(ForkView::attached_to_stack);
    reveal(ForkView::attached_right);
    reveal(ForkView::attached_beside);
    reveal(ForkView::detached);
    reveal(ForkView::dropped);
    reveal(ForkView::stack_toggled);
    reveal(ForkView::moved_out);
    reveal(ForkView::raised);
    reveal(ForkView::selected);
    reveal(ForkView::shifted);
    reveal(ForkView::renewed);
}

/// What comes of a fork below is never missing the target once it is settled above.
pub proof fn lemma_settled_found(f: ForkView, side: Side, outcome: Outcome, q: QueueView)
    requires
        outcome != Outcome::Missing,
    ensures
        f.settled(side, outcome, q).outcome != Outcome::Missing,
{
    reveal(ForkView::settled);
    reveal(ForkView::dropped);
}

/// An action whose target is missing below a fork changes neither the fork nor the queue.
pub proof fn lemma_missing_unchanged(f: ForkView, target: BranchRef, action: Action, q: QueueView)
    ensures
        f.applied(target, action, q).outcome == Outcome::Missing ==> {
            &&& f.applied(target, action, q).fork == f
            &&& f.applied(target, action, q).queue == q
            &&& f.applied(target, action, q).picked is None
            &&& !f.applied(target, action, q).made
        },
    decreases f,
{
    if f.here(target) {
        lemma_acted_found(f, target, action, q);
    } else {
        let left = match f.left {
            BranchView::Fork(g) => g.applied(target, action, q),
            _ => Step { outcome: Outcome::Missing, ..f.kept(q) },
        };
        if left.outcome != Outcome::Missing {
            lemma_settled_found(
                f.with_child(Side::Left, BranchView::Fork(Box::new(left.fork))),
                Side::Left,
                left.outcome,
                left.queue,
            );
        } else {
            let right = match f.right {
                Some(BranchView::Fork(g)) => g.applied(target, action, q),
                _ => Step { outcome: Outcome::Missing, ..f.kept(q) },
            };
            if right.outcome != Outcome::Missing {
                lemma_settled_found(
                    f.with_child(Side::Right, BranchView::Fork(Box::new(right.fork))),
                    Side::Right,
                    right.outcome,
                    right.queue,
                );
            }
        }
    }
}

/// A branch to stand in a place while its branch is worked on.
fn placeholder() -> (b: Branch)
    ensures
        b == Branch::Window(Window::fresh(WindowID(0, 0))),
{
    Branch::Window(Window::new(WindowID(0, 0)))
}

impl Branch {
    /// Whether the branch is the window `id` or a stack with a member `id`.
    pub fn holds(&self, id: WindowID) -> (r: bool)
        ensures
            r == self@.holds(id),
    {
        match self {
            Branch::Window(w) => w.id == id,
            Branch::Fork(_) => false,
            Branch::Stack(s) => position(&s.windows, id) < s.windows.len(),
        }
    }
}

impl Fork {
    /// The side on which the fork itself holds the window `id`.
    pub fn side_of(&self, id: WindowID) -> (r: Option<Side>)
        ensures
            r == self@.side_of(id),
    {
        if self.left.holds(id) {
            return Some(Side::Left);
        }
        match &self.right {
            Some(b) => {
                if b.holds(id) {
                    Some(Side::Right)
                } else {
                    None
                }
            },
            None => None,
        }
    }

    /// Whether this is the fork at which an action on `target` is done.
    pub fn is_here(&self, target: BranchRef) -> (r: bool)
        ensures
            r == self@.here(target),
    {
        match target {
            BranchRef::Window(id) => self.side_of(id).is_some(),
            BranchRef::Fork(handle) => self.handle == handle,
            BranchRef::Stack(_) => false,
        }
    }

    /// The branch on `side`, for writing.
    pub fn slot(&mut self, side: Side) -> (b: &mut Branch)
        requires
            side == Side::Right ==> old(self).right is Some,
        ensures
            b@ == old(self)@.child(side),
            final(self)@ == old(self)@.with_child(side, final(b)@),
    {
        match side {
            Side::Left => &mut self.left,
            Side::Right => match &mut self.right {
                Some(b) => b,
                None => vstd::pervasive::unreached(),
            },
        }
    }

    /// Removes the branch on `side`, and settles what is left of the fork.
    pub fn drop_branch(&mut self, side: Side, queue: &mut EventQueue) -> (r: Applied)
        requires
            old(self).area.valid(),
        ensures
            old(queue)@.wf() ==> final(queue)@.wf(),
            old(self)@.dropped(side, old(queue)@).is(r, final(self)@, final(queue)@),
    {
        proof {
            reveal(ForkView::dropped);
        }
        match side {
            Side::Left => {
                match self.right.take() {
                    Some(b) => {
                        self.left = b;
                    },
                    None => {
                        queue.fork_destroy(self.handle);
                        return Applied { outcome: Outcome::Gone, picked: None, made: false };
                    },
                }
            },
            Side::Right => {
                self.right = None;
            },
        }
        let ghost rest_view = ForkView {
            left: if side == Side::Left {
                old(self)@.right.unwrap()
            } else {
                old(self)@.left
            },
            right: None,
            ..old(self)@
        };
        assert(self@ == rest_view);
        let mut rest = placeholder();
        core::mem::swap(&mut self.left, &mut rest);
        match rest {
            Branch::Fork(g) => {
                let mut g: Fork = *g;
                assert(rest_view.left == BranchView::Fork(Box::new(g@)));
                g.parent = self.parent;
                queue.fork_destroy(self.handle);
                *self = g;
                assert(self@ == (ForkView { parent: old(self).parent, ..*rest_view.left->Fork_0 }));
                Applied { outcome: Outcome::Replaced, picked: None, made: false }
            },
            other => {
                self.left = other;
                assert(self@ == rest_view);
                self.work_area_refresh(queue);
                Applied { outcome: Outcome::Kept, picked: None, made: false }
            },
        }
    }

    /// Settles the fork after the fork that is its branch on `side` came out of an action
    /// with `outcome`.
    pub fn settle(&mut self, side: Side, outcome: Outcome, queue: &mut EventQueue) -> (r: Applied)
        requires
            old(self).area.valid(),
        ensures
            old(queue)@.wf() ==> final(queue)@.wf(),
            old(self)@.settled(side, outcome, old(queue)@).is(r, final(self)@, final(queue)@),
    {
        proof {
            reveal(ForkView::settled);
        }
        match outcome {
            Outcome::Missing => Applied { outcome: Outcome::Missing, picked: None, made: false },
            Outcome::Kept => Applied { outcome: Outcome::Kept, picked: None, made: false },
            Outcome::Replaced => {
                self.work_area_refresh(queue);
                Applied { outcome: Outcome::Kept, picked: None, made: false }
            },
            Outcome::Gone => self.drop_branch(side, queue),
        }
    }
}

/// What a branch is, with the window where it is one.
#[derive(Copy, Clone, Debug)]
pub enum Kind {
    Window(Window),
    Stack,
    Fork,
}

impl Fork {
    /// What the branch on `side` is.
    pub fn kind(&self, side: Side) -> (k: Kind)
        requires
            side == Side::Right ==> self.right is Some,
        ensures
            match self@.child(side) {
                BranchView::Window(w) => k == Kind::Window(w),
                BranchView::Stack(_) => k is Stack,
                BranchView::Fork(_) => k is Fork,
            },
    {
        let b = match side {
            Side::Left => &self.left,
            Side::Right => match &self.right {
                Some(b) => b,
                None => vstd::pervasive::unreached(),
            },
        };
        match b {
            Branch::Window(w) => Kind::Window(*w),
            Branch::Stack(_) => Kind::Stack,
            Branch::Fork(_) => Kind::Fork,
        }
    }

    /// Attaches the window `n` to the stack on `side` as its last member.
    pub fn attach_to_stack(&mut self, side: Side, n: Window, queue: &mut EventQueue) -> (r: Applied)
        requires
            side == Side::Right ==> old(self).right is Some,
        ensures
            old(queue)@.wf() ==> final(queue)@.wf(),
            old(self)@.attached_to_stack(side, n, old(queue)@).is(r, final(self)@, final(queue)@),
    {
        proof {
            reveal(ForkView::attached_to_stack);
        }
        match self.slot(side) {
            Branch::Stack(s) => {
                queue.stack_assign(s.handle, n.id);
                if n.visible {
                    queue.window_visibility(n.id, false);
                }
                s.attach(n);
                s.work_area_refresh(queue);
            },
            _ => {},
        }
        Applied { outcome: Outcome::Kept, picked: None, made: false }
    }

    /// Attaches the window `n` as the right branch, and resets the fork's split and
    /// orientation.
    pub fn attach_right(&mut self, n: Window, queue: &mut EventQueue) -> (r: Applied)
        requires
            old(self).area.valid(),
        ensures
            old(queue)@.wf() ==> final(queue)@.wf(),
            old(self)@.attached_right(n, old(queue)@).is(r, final(self)@, final(queue)@),
    {
        proof {
            reveal(ForkView::attached_right);
        }
        let mut member = n;
        member.fork = Some(self.handle);
        member.stack = None;
        member.workspace = self.workspace;
        match &self.left {
            Branch::Window(a) => {
                member.visible = a.visible;
            },
            _ => {},
        }
        if member.visible != n.visible {
            queue.window_visibility(n.id, member.visible);
        }
        self.right = Some(Branch::Window(member));
        self.reset();
        self.work_area_refresh(queue);
        Applied { outcome: Outcome::Kept, picked: None, made: false }
    }

    /// Puts a new fork with the handle `handle` in the place of the window on `side`, to
    /// hold that window and the window `n`.
    pub fn attach_beside(
        &mut self,
        side: Side,
        n: Window,
        handle: usize,
        queue: &mut EventQueue,
    ) -> (r: Applied)
        requires
            old(self).area.valid(),
            side == Side::Right ==> old(self).right is Some,
            old(self)@.child(side) is Window,
        ensures
            old(queue)@.wf() ==> final(queue)@.wf(),
            old(self)@.attached_beside(side, n, handle, old(queue)@).is(
                r,
                final(self)@,
                final(queue)@,
            ),
    {
        proof {
            reveal(ForkView::attached_beside);
        }
        let own = self.handle;
        let workspace = self.workspace;
        let slot = self.slot(side);
        match slot {
            Branch::Window(a) => {
                let mut anchor = *a;
                anchor.fork = Some(handle);
                let mut member = n;
                member.fork = Some(handle);
                member.stack = None;
                member.workspace = workspace;
                member.visible = anchor.visible;
                if member.visible != n.visible {
                    queue.window_visibility(n.id, member.visible);
                }
                let mut fork = Fork::new(
                    handle,
                    Rect::new(1, 1, 1, 1),
                    Branch::Window(anchor),
                    workspace,
                );
                fork.right = Some(Branch::Window(member));
                fork.parent = Some(own);
                fork.announce_self(queue);
                *slot = Branch::Fork(Box::new(fork));
            },
            _ => {},
        }
        proof {
            lemma_retiled_tiled(self@, self@.area);
        }
        self.work_area_refresh(queue);
        match self.slot(side) {
            Branch::Fork(inner) => {
                inner.reset();
                inner.work_area_refresh(queue);
            },
            _ => {},
        }
        Applied { outcome: Outcome::Kept, picked: None, made: true }
    }

    /// Attaches the window `n` beside the branch on `side`.
    pub fn attach_at(&mut self, side: Side, n: Window, handle: usize, queue: &mut EventQueue) -> (r:
        Applied)
        requires
            old(self)@.tiled(),
            side == Side::Right ==> old(self).right is Some,
        ensures
            old(queue)@.wf() ==> final(queue)@.wf(),
            old(self)@.attached(side, n, handle, old(queue)@).is(r, final(self)@, final(queue)@),
    {
        proof {
            reveal(ForkView::attached);
        }
        match self.kind(side) {
            Kind::Stack => self.attach_to_stack(side, n, queue),
            Kind::Window(_) => {
                if self.right.is_none() {
                    self.attach_right(n, queue)
                } else {
                    self.attach_beside(side, n, handle, queue)
                }
            },
            Kind::Fork => Applied { outcome: Outcome::Kept, picked: None, made: false },
        }
    }

    /// Takes the window `id` out of the branch on `side`.
    pub fn detach_at(&mut self, side: Side, id: WindowID, queue: &mut EventQueue) -> (r: Applied)
        requires
            old(self)@.tiled(),
            side == Side::Right ==> old(self).right is Some,
        ensures
            old(queue)@.wf() ==> final(queue)@.wf(),
            old(self)@.detached(side, id, old(queue)@).is(r, final(self)@, final(queue)@),
    {
        proof {
            reveal(ForkView::detached);
        }
        let mut empty = true;
        match self.slot(side) {
            Branch::Stack(s) => {
                s.detach(id, queue);
                if s.windows.len() > 0 {
                    empty = false;
                } else {
                    queue.stack_destroy(s.handle);
                }
            },
            _ => {},
        }
        if empty {
            self.drop_branch(side, queue)
        } else {
            Applied { outcome: Outcome::Kept, picked: None, made: false }
        }
    }

    /// Puts the window `id` on `side` into a stack of its own, or takes it out of its stack.
    pub fn stack_toggle_at(
        &mut self,
        side: Side,
        id: WindowID,
        handle: usize,
        queue: &mut EventQueue,
    ) -> (r: Applied)
        requires
            side == Side::Right ==> old(self).right is Some,
            old(self)@.child(side).holds(id),
        ensures
            old(queue)@.wf() ==> final(queue)@.wf(),
            old(self)@.stack_toggled(side, id, handle, old(queue)@).is(
                r,
                final(self)@,
                final(queue)@,
            ),
    {
        proof {
            reveal(ForkView::stack_toggled);
        }
        let own = self.handle;
        let mut made = false;
        let slot = self.slot(side);
        let mut b = placeholder();
        core::mem::swap(slot, &mut b);
        match b {
            Branch::Stack(s) => {
                let mut s = s;
                let removed = s.detach(id, queue);
                if s.windows.len() > 0 {
                    *slot = Branch::Stack(s);
                } else {
                    queue.stack_destroy(s.handle);
                    let mut w = removed.unwrap();
                    w.fork = Some(own);
                    *slot = Branch::Window(w);
                }
            },
            Branch::Window(w) => {
                let s = Stack::new(handle, w, own);
                queue.stack_update(
                    handle,
                    crate::events::Placement { area: s.area, workspace: s.workspace },
                );
                queue.stack_assign(handle, w.id);
                *slot = Branch::Stack(s);
                made = true;
            },
            other => {
                *slot = other;
            },
        }
        Applied { outcome: Outcome::Kept, picked: None, made }
    }

    /// Moves the window `id` out of the stack on `side`, to the side that `direction` names.
    pub fn move_out_at(
        &mut self,
        side: Side,
        id: WindowID,
        direction: Direction,
        handle: usize,
        queue: &mut EventQueue,
    ) -> (r: Applied)
        requires
            old(self)@.tiled(),
            side == Side::Right ==> old(self).right is Some,
            old(self)@.child(side).holds(id),
        ensures
            old(queue)@.wf() ==> final(queue)@.wf(),
            old(self)@.moved_out(side, id, direction, handle, old(queue)@).is(
                r,
                final(self)@,
                final(queue)@,
            ),
    {
        proof {
            reveal(ForkView::moved_out);
        }
        let own = self.handle;
        let above = self.parent;
        let workspace = self.workspace;
        let alone = self.right.is_none();
        let slot = self.slot(side);
        let mut b = placeholder();
        core::mem::swap(slot, &mut b);
        match b {
            Branch::Stack(s) => {
                let mut s = s;
                let pos = position(&s.windows, id);
                let mut w = s.windows[pos];
                w.stack = None;
                if s.windows.len() == 1 {
                    queue.stack_destroy(s.handle);
                    *slot = Branch::Window(w);
                    self.work_area_refresh(queue);
                    return Applied { outcome: Outcome::Kept, picked: None, made: false };
                }
                w.fork = Some(handle);
                let area = s.area;
                let lit = s.is_lit();
                s.detach(id, queue);
                if w.visible != lit {
                    queue.window_visibility(w.id, lit);
                    w.visible = lit;
                }
                s.adopt(handle);
                let stack_first = match direction {
                    Direction::Below => true,
                    Direction::Right => true,
                    _ => false,
                };
                let orientation = match direction {
                    Direction::Above => Orientation::Vertical,
                    Direction::Below => Orientation::Vertical,
                    _ => Orientation::Horizontal,
                };
                let mut fork = if stack_first {
                    let mut f = Fork::new(handle, area, Branch::Stack(s), workspace);
                    f.right = Some(Branch::Window(w));
                    f
                } else {
                    let mut f = Fork::new(handle, area, Branch::Window(w), workspace);
                    f.right = Some(Branch::Stack(s));
                    f
                };
                fork.parent = if alone {
                    above
                } else {
                    Some(own)
                };
                fork.announce_self(queue);
                fork.orient(orientation);
                if alone {
                    queue.fork_destroy(own);
                    *self = fork;
                    Applied { outcome: Outcome::Replaced, picked: None, made: true }
                } else {
                    *slot = Branch::Fork(Box::new(fork));
                    self.work_area_refresh(queue);
                    Applied { outcome: Outcome::Kept, picked: None, made: true }
                }
            },
            other => {
                *slot = other;
                Applied { outcome: Outcome::Kept, picked: None, made: false }
            },
        }
    }

    /// Raises the window `id` in the stack on `side`.
    pub fn raise_at(&mut self, side: Side, id: WindowID, queue: &mut EventQueue) -> (r: Applied)
        requires
            side == Side::Right ==> old(self).right is Some,
        ensures
            old(queue)@.wf() ==> final(queue)@.wf(),
            old(self)@.raised(side, id, old(queue)@).is(r, final(self)@, final(queue)@),
    {
        proof {
            reveal(ForkView::raised);
        }
        match self.slot(side) {
            Branch::Stack(s) => {
                s.raise(id, queue);
            },
            _ => {},
        }
        Applied { outcome: Outcome::Kept, picked: None, made: false }
    }

    /// Raises the neighbour of the raised member of the stack on `side`.
    pub fn select_at(&mut self, side: Side, before: bool, queue: &mut EventQueue) -> (r: Applied)
        requires
            side == Side::Right ==> old(self).right is Some,
        ensures
            old(queue)@.wf() ==> final(queue)@.wf(),
            old(self)@.selected(side, before, old(queue)@).is(r, final(self)@, final(queue)@),
    {
        proof {
            reveal(ForkView::selected);
        }
        let mut picked: Option<WindowID> = None;
        match self.slot(side) {
            Branch::Stack(s) => {
                picked = if before {
                    s.select_left()
                } else {
                    s.select_right()
                };
                match picked {
                    Some(m) => {
                        s.raise(m, queue);
                    },
                    None => {},
                }
            },
            _ => {},
        }
        Applied { outcome: Outcome::Kept, picked, made: false }
    }

    /// Lets the raised member of the stack on `side` change places with a neighbour.
    pub fn shift_at(&mut self, side: Side, before: bool, queue: &mut EventQueue) -> (r: Applied)
        requires
            side == Side::Right ==> old(self).right is Some,
        ensures
            old(queue)@.wf() ==> final(queue)@.wf(),
            old(self)@.shifted(side, before, old(queue)@).is(r, final(self)@, final(queue)@),
    {
        proof {
            reveal(ForkView::shifted);
        }
        let mut picked: Option<WindowID> = None;
        match self.slot(side) {
            Branch::Stack(s) => {
                let moved = if before {
                    s.move_left()
                } else {
                    s.move_right()
                };
                match moved {
                    Some(movement) => {
                        queue.stack_movement(s.handle, movement);
                        picked = Some(s.active);
                    },
                    None => {},
                }
            },
            _ => {},
        }
        Applied { outcome: Outcome::Kept, picked, made: false }
    }

    /// Lays the stack on `side` on its area again, or else the whole fork.
    pub fn renew_at(&mut self, side: Side, queue: &mut EventQueue) -> (r: Applied)
        requires
            old(self).area.valid(),
            side == Side::Right ==> old(self).right is Some,
        ensures
            old(queue)@.wf() ==> final(queue)@.wf(),
            old(self)@.renewed(side, old(queue)@).is(r, final(self)@, final(queue)@),
    {
        proof {
            reveal(ForkView::renewed);
        }
        let mut done = false;
        match self.slot(side) {
            Branch::Stack(s) => {
                s.work_area_refresh(queue);
                done = true;
            },
            _ => {},
        }
        if !done {
            self.work_area_refresh(queue);
        }
        Applied { outcome: Outcome::Kept, picked: None, made: false }
    }

    /// Does `action` at this fork, which `target` names or which holds the window that
    /// `target` names.
    pub fn act(&mut self, target: BranchRef, action: Action, queue: &mut EventQueue) -> (r: Applied)
        requires
            old(self)@.tiled(),
        ensures
            old(queue)@.wf() ==> final(queue)@.wf(),
            old(self)@.acted(target, action, old(queue)@).is(r, final(self)@, final(queue)@),
    {
        proof {
            reveal(ForkView::acted);
        }
        let kept = Applied { outcome: Outcome::Kept, picked: None, made: false };
        match target {
            BranchRef::Fork(_) => match action {
                Action::Resize(split) => {
                    self.resize(split, queue);
                    kept
                },
                _ => kept,
            },
            BranchRef::Stack(_) => kept,
            BranchRef::Window(id) => match self.side_of(id) {
                None => kept,
                Some(side) => match action {
                    Action::Attach(n, handle) => self.attach_at(side, n, handle, queue),
                    Action::Detach => self.detach_at(side, id, queue),
                    Action::ToggleOrientation => {
                        self.toggle_orientation(queue);
                        kept
                    },
                    Action::ToggleStack(handle) => self.stack_toggle_at(side, id, handle, queue),
                    Action::MoveOut(direction, handle) => self.move_out_at(
                        side,
                        id,
                        direction,
                        handle,
                        queue,
                    ),
                    Action::Flip => {
                        self.flip();
                        self.work_area_refresh(queue);
                        kept
                    },
                    Action::Raise => self.raise_at(side, id, queue),
                    Action::SelectLeft => self.select_at(side, true, queue),
                    Action::SelectRight => self.select_at(side, false, queue),
                    Action::ShiftLeft => self.shift_at(side, true, queue),
                    Action::ShiftRight => self.shift_at(side, false, queue),
                    Action::Resize(_) => kept,
                    Action::Refresh => self.renew_at(side, queue),
                },
            },
        }
    }

    /// Does `action` on `target` below this fork: at the first fork, from the top and from
    /// the left, that `target` names or that itself holds the window that `target` names.
    /// Every fork above then settles what came of the fork below it.
    pub fn apply(&mut self, target: BranchRef, action: Action, queue: &mut EventQueue) -> (r:
        Applied)
        requires
            old(self)@.tiled(),
        ensures
            old(queue)@.wf() ==> final(queue)@.wf(),
            old(self)@.applied(target, action, old(queue)@).is(r, final(self)@, final(queue)@),
        decreases *old(self),
    {
        if self.is_here(target) {
            return self.act(target, action, queue);
        }
        let mut res = Applied { outcome: Outcome::Missing, picked: None, made: false };
        match &mut self.left {
            Branch::Fork(g) => {
                proof {
                    lemma_missing_unchanged(g@, target, action, queue@);
                }
                res = g.apply(target, action, queue);
            },
            _ => {},
        }
        if res.outcome != Outcome::Missing {
            let mut settled = self.settle(Side::Left, res.outcome, queue);
            settled.picked = res.picked;
            settled.made = res.made;
            return settled;
        }
        match &mut self.right {
            Some(Branch::Fork(g)) => {
                proof {
                    lemma_missing_unchanged(g@, target, action, queue@);
                }
                res = g.apply(target, action, queue);
            },
            _ => {},
        }
        if res.outcome != Outcome::Missing {
            let mut settled = self.settle(Side::Right, res.outcome, queue);
            settled.picked = res.picked;
            settled.made = res.made;
            return settled;
        }
        res
    }
}

} // verus!
