use vstd::prelude::*;
use crate::action::{Action, Outcome, Side, Step};
use crate::events::QueueView;
use crate::fork::{BranchRef, BranchView, ForkView};
use crate::shape::{lemma_occurrences_by_ids, lemma_retiled_count};
use crate::stack::{exchange, StackView};
use crate::window::{
    index_of, lemma_index_of_exists, lemma_occurrences_index, occurrences, Window, WindowID,
};

verus! {

/// One if the two IDs are the same, else zero.
pub open spec fn one_if(a: WindowID, b: WindowID) -> nat {
    if a == b {
        1
    } else {
        0
    }
}

/// A list without the window at `i` holds that window's ID once less, and every other
/// ID as often as before.
pub proof fn lemma_occurrences_remove(s: Seq<Window>, i: int, id: WindowID)
    requires
        0 <= i < s.len(),
    ensures
        occurrences(s.remove(i), id) + one_if(s[i].id, id) == occurrences(s, id),
    decreases s.len(),
{
    if i == s.len() - 1 {
        assert(s.remove(i) =~= s.drop_last());
    } else {
        assert(s.remove(i).drop_last() =~= s.drop_last().remove(i));
        assert(s.remove(i).last() == s.last());
        lemma_occurrences_remove(s.drop_last(), i, id);
    }
}

/// A list with another window at `i` holds the ID of the former window once less and
/// that of the new one once more.
pub proof fn lemma_occurrences_update(s: Seq<Window>, i: int, w: Window, id: WindowID)
    requires
        0 <= i < s.len(),
    ensures
        occurrences(s.update(i, w), id) + one_if(s[i].id, id) == occurrences(s, id) + one_if(
            w.id,
            id,
        ),
    decreases s.len(),
{
    if i == s.len() - 1 {
        assert(s.update(i, w).drop_last() =~= s.drop_last());
    } else {
        assert(s.update(i, w).drop_last() =~= s.drop_last().update(i, w));
        assert(s.update(i, w).last() == s.last());
        lemma_occurrences_update(s.drop_last(), i, w, id);
    }
}

/// A list holds an ID as often as its two parts together.
pub proof fn lemma_occurrences_concat(a: Seq<Window>, b: Seq<Window>, id: WindowID)
    ensures
        occurrences(a + b, id) == occurrences(a, id) + occurrences(b, id),
    decreases b.len(),
{
    if b.len() == 0 {
        assert(a + b =~= a);
    } else {
        assert((a + b).drop_last() =~= a + b.drop_last());
        assert((a + b).last() == b.last());
        lemma_occurrences_concat(a, b.drop_last(), id);
    }
}

/// A list with one more window holds that window's ID once more.
pub proof fn lemma_occurrences_push(s: Seq<Window>, w: Window, id: WindowID)
    ensures
        occurrences(s.push(w), id) == occurrences(s, id) + one_if(w.id, id),
{
    assert(s.push(w).drop_last() =~= s);
}

/// A list after two names were exchanged holds each ID as often as it held the ID that
/// the exchange gives for it.
pub proof fn lemma_occurrences_renamed(s: Seq<Window>, a: WindowID, b: WindowID, id: WindowID)
    ensures
        occurrences(s.map_values(|w: Window| Window { id: exchange(w.id, a, b), ..w }), id)
            == occurrences(s, exchange(id, a, b)),
    decreases s.len(),
{
    let t = s.map_values(|w: Window| Window { id: exchange(w.id, a, b), ..w });
    if s.len() > 0 {
        assert(t.drop_last() =~= s.drop_last().map_values(
            |w: Window| Window { id: exchange(w.id, a, b), ..w },
        ));
        lemma_occurrences_renamed(s.drop_last(), a, b, id);
    }
}

/// A list of one window holds that window's ID once.
pub proof fn lemma_occurrences_single(w: Window, id: WindowID)
    ensures
        occurrences(seq![w], id) == one_if(w.id, id),
{
    assert(seq![w] =~= Seq::<Window>::empty().push(w));
    lemma_occurrences_push(Seq::<Window>::empty(), w, id);
}

/// What the steps of a stack do to how often it holds an ID.
pub proof fn lemma_stack_counts(s: StackView, other: WindowID, n: Window, id: WindowID)
    ensures
        occurrences(s.without(other).windows, id) + (if s.contains(other) {
            one_if(other, id)
        } else {
            0
        }) == occurrences(s.windows, id),
        occurrences(s.with_member(n).windows, id) == occurrences(s.windows, id) + one_if(n.id, id),
        occurrences(s.moved_to(s.area).windows, id) == occurrences(s.windows, id),
        occurrences(s.raised(other).windows, id) == occurrences(s.windows, id),
        occurrences(s.moved_left().windows, id) == occurrences(s.windows, id),
        occurrences(s.moved_right().windows, id) == occurrences(s.windows, id),
{
    lemma_index_of_exists(s.windows, other);
    let i = index_of(s.windows, other);
    if i < s.windows.len() {
        lemma_occurrences_remove(s.windows, i, id);
    }
    lemma_occurrences_by_ids(s.without(other).windows, s.shed(other).windows, id);
    lemma_occurrences_push(s.windows, Window { visible: false, ..s.linked(n) }, id);
    lemma_occurrences_by_ids(s.moved_to(s.area).windows, s.windows, id);
    lemma_occurrences_by_ids(s.raised(other).windows, s.windows, id);
    lemma_index_of_exists(s.windows, s.active);
    let a = index_of(s.windows, s.active);
    if 0 < a < s.windows.len() {
        lemma_occurrences_update(s.windows, a, s.windows[a - 1], id);
        lemma_occurrences_update(s.windows.update(a, s.windows[a - 1]), a - 1, s.windows[a], id);
    }
    if a + 1 < s.windows.len() {
        lemma_occurrences_update(s.windows, a, s.windows[a + 1], id);
        lemma_occurrences_update(s.windows.update(a, s.windows[a + 1]), a + 1, s.windows[a], id);
    }
}

/// A stack under another fork holds every ID as often as before.
pub proof fn lemma_adopted_count(s: StackView, parent: usize, id: WindowID)
    ensures
        occurrences(s.adopted(parent).windows, id) == occurrences(s.windows, id),
{
    lemma_occurrences_by_ids(s.adopted(parent).windows, s.windows, id);
}

impl Step {
    /// How often the fork of this step holds `id`, set against how often the fork `f`
    /// held it before `action` was done on `target`: an attached window is held once
    /// more, a detached one once less, one that was taken out of its stack at most as
    /// often as before, and every other as often as before. A fork that is gone held
    /// the detached window and no other.
    pub open spec fn counted(self, f: ForkView, target: BranchRef, action: Action, id: WindowID)
        -> bool {
        match self.outcome {
            Outcome::Missing => true,
            Outcome::Gone => match target {
                BranchRef::Window(w) => action is Detach && f.count(id) == one_if(w, id),
                _ => false,
            },
            _ => match action {
                Action::Attach(n, _) => match target {
                    BranchRef::Window(_) => self.fork.count(id) == f.count(id) + one_if(n.id, id),
                    _ => self.fork.count(id) == f.count(id),
                },
                Action::Detach => match target {
                    BranchRef::Window(w) => self.fork.count(id) + one_if(w, id) == f.count(id),
                    _ => self.fork.count(id) == f.count(id),
                },
                Action::ToggleStack(_) => match target {
                    BranchRef::Window(w) => if w == id {
                        self.fork.count(id) <= f.count(id)
                    } else {
                        self.fork.count(id) == f.count(id)
                    },
                    _ => self.fork.count(id) == f.count(id),
                },
                _ => self.fork.count(id) == f.count(id),
            },
        }
    }
}

/// A fork holds an ID as often as its branches do, whichever branch is looked at first.
pub proof fn lemma_count_sides(f: ForkView, side: Side, b: BranchView, id: WindowID)
    requires
        side == Side::Right ==> f.right is Some,
    ensures
        f.with_child(side, b).count(id) + f.child(side).count(id) == f.count(id) + b.count(id),
{
}

/// A fork that is laid on its area again holds every ID as often as before.
pub proof fn lemma_refreshed_count(f: ForkView, q: QueueView, id: WindowID)
    ensures
        f.refreshed(q).fork.count(id) == f.count(id),
        f.flipped().count(id) == f.count(id),
        f.turned().count(id) == f.count(id),
        f.toggled().count(id) == f.count(id),
        f.halved().count(id) == f.count(id),
        f.reset().count(id) == f.count(id),
        f.resized(0).count(id) == f.count(id),
{
    lemma_retiled_count(f, f.area, id);
    lemma_retiled_count(f.turned(), f.area, id);
    lemma_retiled_count(f.resized_before(0), f.area, id);
}

/// What dropping a branch does to how often a fork holds an ID: the fork that stays, or
/// the fork that replaces it, holds what the other branch held; a fork that is gone had
/// no other branch.
pub proof fn lemma_dropped_count(f: ForkView, side: Side, q: QueueView, id: WindowID)
    requires
        side == Side::Right ==> f.right is Some,
    ensures
        f.dropped(side, q).outcome != Outcome::Missing,
        f.dropped(side, q).outcome != Outcome::Gone ==> f.dropped(side, q).fork.count(id)
            + f.child(side).count(id) == f.count(id),
        f.dropped(side, q).outcome == Outcome::Gone ==> f.child(side).count(id) == f.count(id),
{
    reveal(ForkView::dropped);
    if !(side == Side::Left && f.right is None) {
        let rest = ForkView {
            left: if side == Side::Left {
                f.right.unwrap()
            } else {
                f.left
            },
            right: None,
            ..f
        };
        lemma_refreshed_count(rest, q, id);
        match rest.left {
            BranchView::Fork(g) => {
                let h = ForkView { parent: f.parent, ..*g };
                assert(h.count(id) == g.count(id));
                assert(rest.left.count(id) == g.count(id));
            },
            _ => {},
        }
        assert(rest.count(id) == rest.left.count(id));
    }
}

/// A window that is attached to a stack is held once more.
pub proof fn lemma_attached_to_stack_count(f: ForkView, side: Side, n: Window, q: QueueView, id: WindowID)
    requires
        side == Side::Right ==> f.right is Some,
        f.child(side) is Stack,
    ensures
        f.attached_to_stack(side, n, q).outcome == Outcome::Kept,
        f.attached_to_stack(side, n, q).fork.count(id) == f.count(id) + one_if(n.id, id),
{
    reveal(ForkView::attached_to_stack);
    match f.child(side) {
        BranchView::Stack(s) => {
            lemma_stack_counts(s, id, n, id);
            lemma_stack_counts(s.with_member(n), id, n, id);
            let s1 = s.with_member(n).moved_to(s.area);
            assert(s1 == s.with_member(n).moved_to(s.with_member(n).area));
            lemma_count_sides(f, side, BranchView::Stack(s1), id);
        },
        _ => {},
    }
}

/// A window that is attached as the right branch is held once more.
pub proof fn lemma_attached_right_count(f: ForkView, n: Window, q: QueueView, id: WindowID)
    requires
        f.right is None,
    ensures
        f.attached_right(n, q).outcome == Outcome::Kept,
        f.attached_right(n, q).fork.count(id) == f.count(id) + one_if(n.id, id),
{
    reveal(ForkView::attached_right);
    let g = ForkView { right: Some(BranchView::Window(f.linked(n))), ..f };
    assert(g.count(id) == f.count(id) + one_if(n.id, id));
    lemma_refreshed_count(g, q, id);
    lemma_refreshed_count(g.reset(), q, id);
}

/// A window that is attached beside a window is held once more.
pub proof fn lemma_attached_beside_count(
    f: ForkView,
    side: Side,
    n: Window,
    handle: usize,
    q: QueueView,
    id: WindowID,
)
    requires
        side == Side::Right ==> f.right is Some,
        f.child(side) is Window,
    ensures
        f.attached_beside(side, n, handle, q).outcome == Outcome::Kept,
        f.attached_beside(side, n, handle, q).fork.count(id) == f.count(id) + one_if(n.id, id),
{
    reveal(ForkView::attached_beside);
    match f.child(side) {
        BranchView::Window(a) => {
            let n0 = f.pair(a, n, handle);
            assert(n0.count(id) == one_if(a.id, id) + one_if(n.id, id));
            let g = f.with_child(side, BranchView::Fork(Box::new(n0)));
            lemma_count_sides(f, side, BranchView::Fork(Box::new(n0)), id);
            let q1 = q.fork_update(handle, n0.update());
            lemma_refreshed_count(g, q1, id);
            let parent = g.refreshed(q1);
            crate::laws::lemma_retiled_ids(g, g.area);
            match parent.fork.child(side) {
                BranchView::Fork(n1) => {
                    lemma_refreshed_count(*n1, parent.queue, id);
                    lemma_refreshed_count(n1.reset(), parent.queue, id);
                    let n2 = n1.reset().refreshed(parent.queue);
                    lemma_count_sides(
                        parent.fork,
                        side,
                        BranchView::Fork(Box::new(n2.fork)),
                        id,
                    );
                },
                _ => {},
            }
        },
        _ => {},
    }
}

/// An attached window is held once more, every other as often as before.
pub proof fn lemma_attached_count(
    f: ForkView,
    side: Side,
    n: Window,
    handle: usize,
    q: QueueView,
    id: WindowID,
)
    requires
        side == Side::Right ==> f.right is Some,
        !(f.child(side) is Fork),
    ensures
        f.attached(side, n, handle, q).outcome == Outcome::Kept,
        f.attached(side, n, handle, q).fork.count(id) == f.count(id) + one_if(n.id, id),
{
    reveal(ForkView::attached);
    match f.child(side) {
        BranchView::Stack(s) => {
            lemma_attached_to_stack_count(f, side, n, q, id);
        },
        BranchView::Window(a) => {
            if f.right is None {
                lemma_attached_right_count(f, n, q, id);
            } else {
                lemma_attached_beside_count(f, side, n, handle, q, id);
            }
        },
        BranchView::Fork(_) => {},
    }
}

/// A detached window is held once less, every other as often as before.
pub proof fn lemma_detached_count(f: ForkView, side: Side, w: WindowID, q: QueueView, id: WindowID)
    requires
        side == Side::Right ==> f.right is Some,
        f.child(side).holds(w),
    ensures
        f.detached(side, w, q).outcome != Outcome::Missing,
        f.detached(side, w, q).outcome != Outcome::Gone ==> f.detached(side, w, q).fork.count(id)
            + one_if(w, id) == f.count(id),
        f.detached(side, w, q).outcome == Outcome::Gone ==> f.count(id) == one_if(w, id),
{
    reveal(ForkView::detached);
    match f.child(side) {
        BranchView::Stack(s) => {
            lemma_stack_counts(s, w, s.windows[0], id);
            let q1 = s.announce_without(q, w);
            let g = f.with_child(side, BranchView::Stack(s.without(w)));
            lemma_count_sides(f, side, BranchView::Stack(s.without(w)), id);
            if s.without(w).windows.len() == 0 {
                lemma_dropped_count(g, side, q1.stack_destroy(s.handle), id);
            }
        },
        _ => {
            lemma_dropped_count(f, side, q, id);
        },
    }
}

/// A window that is put into a stack or taken out of one is held at most as often as
/// before, every other as often as before.
pub proof fn lemma_stack_toggled_count(
    f: ForkView,
    side: Side,
    w: WindowID,
    handle: usize,
    q: QueueView,
    id: WindowID,
)
    requires
        side == Side::Right ==> f.right is Some,
        f.child(side).holds(w),
    ensures
        f.stack_toggled(side, w, handle, q).outcome == Outcome::Kept,
        f.stack_toggled(side, w, handle, q).fork.count(id) <= f.count(id),
        w != id ==> f.stack_toggled(side, w, handle, q).fork.count(id) == f.count(id),
{
    reveal(ForkView::stack_toggled);
    match f.child(side) {
        BranchView::Stack(s) => {
            lemma_stack_counts(s, w, s.windows[0], id);
            lemma_index_of_exists(s.windows, w);
            lemma_count_sides(f, side, BranchView::Stack(s.without(w)), id);
            let x = Window { stack: None, ..s.windows[index_of(s.windows, w)] };
            lemma_count_sides(f, side, BranchView::Window(x), id);
        },
        BranchView::Window(x) => {
            let st = StackView::around(handle, x, f.handle);
            lemma_occurrences_single(Window { fork: Some(f.handle), stack: Some(handle), ..x }, id);
            assert(occurrences(st.windows, id) == one_if(x.id, id));
            lemma_count_sides(f, side, BranchView::Stack(st), id);
        },
        BranchView::Fork(_) => {},
    }
}

/// A window that moves out of its stack is held as often as before, like every other.
pub proof fn lemma_moved_out_count(
    f: ForkView,
    side: Side,
    w: WindowID,
    direction: crate::geom::Direction,
    handle: usize,
    q: QueueView,
    id: WindowID,
)
    requires
        side == Side::Right ==> f.right is Some,
        f.child(side).holds(w),
    ensures
        f.moved_out(side, w, direction, handle, q).outcome != Outcome::Missing,
        f.moved_out(side, w, direction, handle, q).outcome != Outcome::Gone,
        f.moved_out(side, w, direction, handle, q).fork.count(id) == f.count(id),
{
    reveal(ForkView::moved_out);
    match f.child(side) {
        BranchView::Stack(s) => {
            lemma_index_of_exists(s.windows, w);
            let x = s.windows[index_of(s.windows, w)];
            lemma_stack_counts(s, w, x, id);
            if s.windows.len() == 1 {
                assert(s.windows =~= seq![x]);
                lemma_occurrences_single(x, id);
                let g = f.with_child(side, BranchView::Window(Window { stack: None, ..x }));
                lemma_count_sides(f, side, BranchView::Window(Window { stack: None, ..x }), id);
                lemma_refreshed_count(g, q.stack_destroy(s.handle), id);
            } else {
                lemma_adopted_count(s.without(w), handle, id);
                let wb = BranchView::Window(
                    Window { stack: None, fork: Some(handle), visible: s.lit(), ..x },
                );
                let sb = BranchView::Stack(s.without(w).adopted(handle));
                let stack_first = direction == crate::geom::Direction::Below || direction
                    == crate::geom::Direction::Right;
                let n0 = ForkView {
                    parent: if f.right is None {
                        f.parent
                    } else {
                        Some(f.handle)
                    },
                    right: Some(
                        if stack_first {
                            wb
                        } else {
                            sb
                        },
                    ),
                    ..ForkView::starting(
                        handle,
                        s.area,
                        if stack_first {
                            sb
                        } else {
                            wb
                        },
                        f.workspace,
                    )
                };
                assert(n0.count(id) == occurrences(s.windows, id));
                lemma_refreshed_count(n0, q, id);
                let n1 = n0.oriented(
                    if direction == crate::geom::Direction::Above || direction
                        == crate::geom::Direction::Below {
                        crate::orientation::Orientation::Vertical
                    } else {
                        crate::orientation::Orientation::Horizontal
                    },
                );
                let q1 = crate::action::seen_as(s.announce_without(q, w), x, s.lit()).fork_update(
                    handle,
                    n0.update(),
                );
                if f.right is Some {
                    let g = f.with_child(side, BranchView::Fork(Box::new(n1)));
                    lemma_count_sides(f, side, BranchView::Fork(Box::new(n1)), id);
                    lemma_refreshed_count(g, q1, id);
                }
            }
        },
        _ => {},
    }
}

/// The steps that raise, choose or shift a member of a stack, or lay a stack out again,
/// leave every window where it is.
pub proof fn lemma_stack_steps_count(f: ForkView, side: Side, w: WindowID, q: QueueView, id: WindowID)
    requires
        side == Side::Right ==> f.right is Some,
    ensures
        f.raised(side, w, q).fork.count(id) == f.count(id),
        f.selected(side, true, q).fork.count(id) == f.count(id),
        f.selected(side, false, q).fork.count(id) == f.count(id),
        f.shifted(side, true, q).fork.count(id) == f.count(id),
        f.shifted(side, false, q).fork.count(id) == f.count(id),
        f.renewed(side, q).fork.count(id) == f.count(id),
        f.raised(side, w, q).outcome == Outcome::Kept,
        f.selected(side, true, q).outcome == Outcome::Kept,
        f.selected(side, false, q).outcome == Outcome::Kept,
        f.shifted(side, true, q).outcome == Outcome::Kept,
        f.shifted(side, false, q).outcome == Outcome::Kept,
        f.renewed(side, q).outcome == Outcome::Kept,
{
    reveal(ForkView::raised);
    reveal(ForkView::selected);
    reveal(ForkView::shifted);
    reveal(ForkView::renewed);
    lemma_refreshed_count(f, q, id);
    match f.child(side) {
        BranchView::Stack(s) => {
            lemma_stack_counts(s, w, s.windows[0], id);
            lemma_count_sides(f, side, BranchView::Stack(s.raised(w)), id);
            lemma_count_sides(f, side, BranchView::Stack(s.moved_left()), id);
            lemma_count_sides(f, side, BranchView::Stack(s.moved_right()), id);
            lemma_count_sides(f, side, BranchView::Stack(s.moved_to(s.area)), id);
            if s.left_of_active() is Some {
                let m = s.left_of_active().unwrap();
                lemma_stack_counts(s, m, s.windows[0], id);
                lemma_count_sides(f, side, BranchView::Stack(s.raised(m)), id);
            }
            if s.right_of_active() is Some {
                let m = s.right_of_active().unwrap();
                lemma_stack_counts(s, m, s.windows[0], id);
                lemma_count_sides(f, side, BranchView::Stack(s.raised(m)), id);
            }
        },
        _ => {},
    }
}

/// What an action that is done at a fork does to how often the fork holds an ID.
pub proof fn lemma_acted_count(f: ForkView, target: BranchRef, action: Action, q: QueueView, id: WindowID)
    requires
        f.here(target),
    ensures
        f.acted(target, action, q).counted(f, target, action, id),
        f.acted(target, action, q).outcome != Outcome::Missing,
{
    reveal(ForkView::acted);
    lemma_refreshed_count(f, q, id);
    match target {
        BranchRef::Fork(_) => {
            match action {
                Action::Resize(split) => {
                    lemma_retiled_count(f.resized_before(split), f.area, id);
                    assert(f.resized_before(split).count(id) == f.count(id));
                    assert(f.acted(target, action, q).fork == f.resized(split));
                },
                _ => {},
            }
        },
        BranchRef::Stack(_) => {},
        BranchRef::Window(w) => match f.side_of(w) {
            None => {},
            Some(side) => {
                lemma_stack_steps_count(f, side, w, q, id);
                lemma_refreshed_count(f.flipped(), q, id);
                match action {
                    Action::Attach(n, handle) => {
                        assert(f.child(side).holds(w));
                        lemma_attached_count(f, side, n, handle, q, id);
                    },
                    Action::Detach => {
                        lemma_detached_count(f, side, w, q, id);
                    },
                    Action::ToggleStack(handle) => {
                        lemma_stack_toggled_count(f, side, w, handle, q, id);
                    },
                    Action::MoveOut(direction, handle) => {
                        lemma_moved_out_count(f, side, w, direction, handle, q, id);
                    },
                    _ => {},
                }
            },
        },
    }
}

/// What a step of the fork below does to how often the fork above holds an ID, once the
/// fork above has settled it.
pub proof fn lemma_settled_count(
    f: ForkView,
    side: Side,
    below: Step,
    q: QueueView,
    target: BranchRef,
    action: Action,
    id: WindowID,
)
    requires
        side == Side::Right ==> f.right is Some,
        f.child(side) is Fork,
        below.counted(*f.child(side)->Fork_0, target, action, id),
        below.outcome != Outcome::Missing,
    ensures
        (Step {
            picked: below.picked,
            made: below.made,
            ..f.with_child(side, BranchView::Fork(Box::new(below.fork))).settled(
                side,
                below.outcome,
                q,
            )
        }).counted(f, target, action, id),
{
    reveal(ForkView::settled);
    let g = f.with_child(side, BranchView::Fork(Box::new(below.fork)));
    lemma_count_sides(f, side, BranchView::Fork(Box::new(below.fork)), id);
    lemma_refreshed_count(g, q, id);
    lemma_dropped_count(g, side, q, id);
}

/// What an action does to how often a fork holds an ID.
pub proof fn lemma_applied_count(f: ForkView, target: BranchRef, action: Action, q: QueueView, id: WindowID)
    ensures
        f.applied(target, action, q).counted(f, target, action, id),
    decreases f,
{
    if f.here(target) {
        lemma_acted_count(f, target, action, q, id);
    } else {
        let left = match f.left {
            BranchView::Fork(g) => g.applied(target, action, q),
            _ => Step { outcome: Outcome::Missing, ..f.kept(q) },
        };
        if left.outcome != Outcome::Missing {
            match f.left {
                BranchView::Fork(g) => {
                    lemma_applied_count(*g, target, action, q, id);
                    lemma_settled_count(f, Side::Left, left, left.queue, target, action, id);
                },
                _ => {},
            }
        } else {
            let right = match f.right {
                Some(BranchView::Fork(g)) => g.applied(target, action, q),
                _ => Step { outcome: Outcome::Missing, ..f.kept(q) },
            };
            if right.outcome != Outcome::Missing {
                match f.right {
                    Some(BranchView::Fork(g)) => {
                        lemma_applied_count(*g, target, action, q, id);
                        lemma_settled_count(f, Side::Right, right, right.queue, target, action, id);
                    },
                    _ => {},
                }
            }
        }
    }
}

/// A branch that does not hold a window as a window or in a stack holds it as often as
/// the fork that it is.
pub proof fn lemma_count_held(b: BranchView, w: WindowID)
    requires
        !b.holds(w),
    ensures
        b.count(w) == match b {
            BranchView::Fork(g) => g.count(w),
            _ => 0,
        },
{
    match b {
        BranchView::Stack(s) => {
            lemma_occurrences_index(s.windows, w);
        },
        _ => {},
    }
}

/// An action on a window that a fork holds finds the window.
pub proof fn lemma_applied_found(f: ForkView, w: WindowID, action: Action, q: QueueView)
    requires
        f.count(w) > 0,
    ensures
        f.applied(BranchRef::Window(w), action, q).outcome != Outcome::Missing,
    decreases f,
{
    let target = BranchRef::Window(w);
    if f.here(target) {
        crate::action::lemma_acted_found(f, target, action, q);
    } else {
        lemma_count_held(f.left, w);
        match f.right {
            Some(r) => {
                lemma_count_held(r, w);
            },
            None => {},
        }
        let left = match f.left {
            BranchView::Fork(g) => g.applied(target, action, q),
            _ => Step { outcome: Outcome::Missing, ..f.kept(q) },
        };
        if left.outcome != Outcome::Missing {
            crate::action::lemma_settled_found(
                f.with_child(Side::Left, BranchView::Fork(Box::new(left.fork))),
                Side::Left,
                left.outcome,
                left.queue,
            );
        } else {
            match f.left {
                BranchView::Fork(g) => {
                    if g.count(w) > 0 {
                        lemma_applied_found(*g, w, action, q);
                    }
                },
                _ => {},
            }
            match f.right {
                Some(BranchView::Fork(g)) => {
                    lemma_applied_found(*g, w, action, q);
                    let right = g.applied(target, action, q);
                    crate::action::lemma_settled_found(
                        f.with_child(Side::Right, BranchView::Fork(Box::new(right.fork))),
                        Side::Right,
                        right.outcome,
                        right.queue,
                    );
                },
                _ => {},
            }
        }
    }
}

/// A branch holds an ID as often as the list of its windows does.
pub proof fn lemma_branch_leaves_count(b: BranchView, id: WindowID)
    ensures
        occurrences(b.leaves(), id) == b.count(id),
    decreases b,
{
    match b {
        BranchView::Window(w) => {
            lemma_occurrences_single(w, id);
        },
        BranchView::Fork(f) => {
            lemma_leaves_count(*f, id);
        },
        BranchView::Stack(s) => {},
    }
}

/// A fork holds an ID as often as the list of its windows does.
pub proof fn lemma_leaves_count(f: ForkView, id: WindowID)
    ensures
        occurrences(f.leaves(), id) == f.count(id),
    decreases f,
{
    lemma_branch_leaves_count(f.left, id);
    match f.right {
        Some(r) => {
            lemma_branch_leaves_count(r, id);
            lemma_occurrences_concat(f.left.leaves(), r.leaves(), id);
        },
        None => {
            lemma_occurrences_concat(f.left.leaves(), Seq::empty(), id);
        },
    }
}

/// A branch whose windows are shown or hidden holds every ID as often as before; one
/// in which two names were exchanged holds each ID as often as it held the ID that the
/// exchange gives for it.
pub proof fn lemma_branch_swept_count(br: BranchView, on_view: bool, a: WindowID, b: WindowID, id: WindowID)
    ensures
        br.viewed(on_view).count(id) == br.count(id),
        br.renamed(a, b).count(id) == br.count(exchange(id, a, b)),
    decreases br,
{
    match br {
        BranchView::Window(w) => {},
        BranchView::Fork(f) => {
            lemma_swept_count(*f, on_view, a, b, id);
        },
        BranchView::Stack(s) => {
            lemma_occurrences_by_ids(s.viewed(on_view).windows, s.windows, id);
            lemma_occurrences_renamed(s.windows, a, b, id);
        },
    }
}

/// A fork whose windows are shown or hidden holds every ID as often as before; one in
/// which two names were exchanged holds each ID as often as it held the ID that the
/// exchange gives for it.
pub proof fn lemma_swept_count(f: ForkView, on_view: bool, a: WindowID, b: WindowID, id: WindowID)
    ensures
        f.viewed(on_view).count(id) == f.count(id),
        f.renamed(a, b).count(id) == f.count(exchange(id, a, b)),
    decreases f,
{
    lemma_branch_swept_count(f.left, on_view, a, b, id);
    match f.right {
        Some(r) => {
            lemma_branch_swept_count(r, on_view, a, b, id);
        },
        None => {},
    }
}

} // verus!
