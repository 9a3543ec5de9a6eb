use vstd::prelude::*;
use crate::action::{unit_rect, Action, Outcome, Side};
use crate::distinct::{
    lemma_applied_distinct, lemma_commands_distinct, lemma_empty_distinct,
    lemma_focus_in_stack_distinct, lemma_focus_toward_distinct, lemma_move_in_stack_distinct,
    lemma_move_toward_distinct, lemma_topology_distinct, lemma_workspace_switch_distinct,
};
use crate::geom::Direction;
use crate::seen::{
    lemma_commands_shown, lemma_empty_shown, lemma_focus_shown, lemma_move_shown,
    lemma_topology_shown, lemma_with_active_shown,
};
use crate::ordered::{lemma_value_after_with, lemma_with_twice};
use crate::service::Request;
use crate::events::{
    fork_entry_events, fork_events, membership_events, stack_entry_events, stack_events,
    window_events, Event, ForkEvents, Membership, Placement, QueueView, StackEvents,
    WindowEvents,
};
use crate::fork::{BranchRef, BranchView, ForkView};
use crate::tiler::{
    all_leaves, is_workspace_index, lemma_commands_wf, lemma_display_detach_wf,
    lemma_display_update_wf, lemma_focus_wf, lemma_move_wf, lemma_tiler_applied,
    lemma_workspace_index_exists, lemma_workspace_switch_wf, lemma_workspace_update_wf,
    workspace_index, TilerView,
};
use crate::window::{Window, WindowID};
use crate::workspace::WorkspaceView;

verus! {

/// Laying a branch on an area keeps what it is.
pub proof fn lemma_branch_retiled_id(b: BranchView, area: crate::geom::Rect)
    ensures
        b.retiled(area).id() == b.id(),
    decreases b,
{
    match b {
        BranchView::Fork(f) => {
            lemma_retiled_ids(*f, area);
        },
        _ => {},
    }
}

/// Laying a fork on an area keeps its handle, its orientation, and which node each of
/// its branches holds.
pub proof fn lemma_retiled_ids(f: ForkView, area: crate::geom::Rect)
    ensures
        f.retiled(area).handle == f.handle,
        f.retiled(area).orientation == f.orientation,
        f.retiled(area).orientation_toggled == f.orientation_toggled,
        f.retiled(area).area == area,
        f.retiled(area).left.id() == f.left.id(),
        f.retiled(area).right is Some == f.right is Some,
        f.right is Some ==> f.retiled(area).right.unwrap().id() == f.right.unwrap().id(),
    decreases f,
{
    let moved = ForkView {
        area,
        split_handle: crate::fork::scale(f.split_handle, f.axis(), f.orientation.axis(area)),
        ..f
    };
    lemma_branch_retiled_id(f.left, moved.left_rect());
    match f.right {
        Some(r) => {
            lemma_branch_retiled_id(r, moved.right_rect());
        },
        None => {},
    }
}

/// Two turns of a fork restore its orientation. They restore the order of its branches
/// where it has one branch; where it has two, the two have changed places.
pub proof fn lemma_toggle_twice(f: ForkView)
    ensures
        f.toggled().toggled().orientation == f.orientation,
        f.toggled().toggled().orientation_toggled == f.orientation_toggled,
        f.toggled().toggled().area == f.area,
        f.right is None ==> f.toggled().toggled().left.id() == f.left.id()
            && f.toggled().toggled().right is None,
        f.right is Some ==> f.toggled().toggled().left.id() == f.right.unwrap().id()
            && f.toggled().toggled().right is Some && f.toggled().toggled().right.unwrap().id()
            == f.left.id(),
{
    lemma_retiled_ids(f.turned(), f.area);
    let g = f.toggled();
    lemma_retiled_ids(g.turned(), g.area);
}

/// Four turns of a fork restore its orientation and the order of its branches.
pub proof fn lemma_toggle_four_times(f: ForkView)
    ensures
        f.toggled().toggled().toggled().toggled().orientation == f.orientation,
        f.toggled().toggled().toggled().toggled().left.id() == f.left.id(),
        f.toggled().toggled().toggled().toggled().right is Some == f.right is Some,
        f.right is Some ==> f.toggled().toggled().toggled().toggled().right.unwrap().id()
            == f.right.unwrap().id(),
{
    lemma_toggle_twice(f);
    lemma_toggle_twice(f.toggled().toggled());
}

/// Every window below a joined fork lies on the workspace of that fork, and refers
/// to a fork below it or to the fork itself.
pub proof fn lemma_leaf_workspace(f: ForkView, i: int)
    requires
        f.joined(),
        0 <= i < f.leaves().len(),
    ensures
        f.leaves()[i].workspace == f.workspace,
        f.leaves()[i].fork is Some,
    decreases f,
{
    let l = f.left.leaves();
    if i < l.len() {
        lemma_branch_leaf_workspace(f.left, f.handle, f.workspace, i);
    } else {
        match f.right {
            Some(r) => {
                lemma_branch_leaf_workspace(r, f.handle, f.workspace, i - l.len());
            },
            None => {},
        }
    }
}

/// Every window of a joined branch lies on the workspace of the fork that holds the branch.
pub proof fn lemma_branch_leaf_workspace(b: BranchView, parent: usize, workspace: u32, i: int)
    requires
        b.joined(parent, workspace),
        0 <= i < b.leaves().len(),
    ensures
        b.leaves()[i].workspace == workspace,
        b.leaves()[i].fork is Some,
    decreases b,
{
    match b {
        BranchView::Window(w) => {},
        BranchView::Fork(f) => {
            lemma_leaf_workspace(*f, i);
        },
        BranchView::Stack(s) => {},
    }
}

/// A drain of a tiler that was just drained gives no events.
pub proof fn lemma_drained_is_silent(t: TilerView)
    ensures
        t.drained().events() == Seq::<Event>::empty(),
{
    let q = QueueView::empty();
    assert(fork_events(q.forks) =~= Seq::<Event>::empty());
    assert(stack_events(q.stacks, q.assignments) =~= Seq::<Event>::empty());
    assert(window_events(q.windows) =~= Seq::<Event>::empty());
    assert(q.drained() =~= Seq::<Event>::empty());
    assert(t.drained().events() =~= Seq::<Event>::empty());
}

/// A switch to the workspace that is on view changes nothing, and so emits no events.
pub proof fn lemma_switch_to_same_workspace(t: TilerView)
    ensures
        t.workspace_switch(t.active_workspace) == t,
        t.drained().workspace_switch(t.drained().active_workspace).events() == Seq::<
            Event,
        >::empty(),
{
    lemma_drained_is_silent(t);
}

/// A swap of a window with itself changes nothing, and so emits no events.
pub proof fn lemma_swap_with_itself(t: TilerView, a: WindowID)
    ensures
        t.swap(a, a) == t,
        t.drained().swap(a, a).events() == Seq::<Event>::empty(),
{
    lemma_drained_is_silent(t);
}

impl TilerView {
    /// The window `w` is the only window of the tiler: the root of the workspace at `j`
    /// holds it alone, as a window or as the only member of a stack, and no other
    /// workspace has a tree.
    pub open spec fn holds_only(self, j: int, w: WindowID) -> bool {
        &&& 0 <= j < self.workspaces.len()
        &&& forall|i: int|
            0 <= i < self.workspaces.len() && i != j ==> (#[trigger] self.workspaces[i]).fork is None
        &&& self.workspaces[j].fork is Some
        &&& self.workspaces[j].fork.unwrap().right is None
        &&& match self.workspaces[j].fork.unwrap().left {
            BranchView::Window(x) => x.id == w,
            BranchView::Stack(s) => s.windows.len() == 1 && s.windows[0].id == w,
            BranchView::Fork(_) => false,
        }
    }

    /// The root of the workspace at `j` holds the window `w` alone, as a window, and no
    /// other workspace has a tree.
    pub open spec fn holds_alone(self, j: int, w: WindowID) -> bool {
        &&& self.holds_only(j, w)
        &&& self.workspaces[j].fork.unwrap().left is Window
    }
}

/// Workspaces without trees have no windows.
pub proof fn lemma_no_trees_no_windows(s: Seq<WorkspaceView>)
    requires
        forall|i: int| 0 <= i < s.len() ==> (#[trigger] s[i]).fork is None,
    ensures
        all_leaves(s) == Seq::<Window>::empty(),
    decreases s.len(),
{
    if s.len() > 0 {
        assert forall|i: int| 0 <= i < s.drop_last().len() implies (#[trigger] s.drop_last()[i]).fork is None by {
            assert(s[i].fork is None);
        }
        lemma_no_trees_no_windows(s.drop_last());
        assert(s.last().fork is None);
        assert(all_leaves(s) =~= Seq::<Window>::empty());
    }
}

/// Detaching the only window of a tiler leaves it without trees and without an active
/// window.
pub proof fn lemma_detach_only(t: TilerView, j: int, w: WindowID, i: int)
    requires
        t.holds_only(j, w),
        0 <= i <= j,
    ensures
        t.applied_from(i, BranchRef::Window(w), Action::Detach).found,
        t.applied_from(i, BranchRef::Window(w), Action::Detach).tiler.workspaces
            == t.workspaces.update(j, WorkspaceView { fork: None, ..t.workspaces[j] }),
        t.applied_from(i, BranchRef::Window(w), Action::Detach).tiler.active == t.active,
        t.applied_from(i, BranchRef::Window(w), Action::Detach).tiler.active_workspace
            == t.active_workspace,
        t.applied_from(i, BranchRef::Window(w), Action::Detach).tiler.displays == t.displays,
    decreases j - i,
{
    if i < j {
        assert(t.workspaces[i].fork is None);
        lemma_detach_only(t, j, w, i + 1);
    } else {
        let root = t.workspaces[j].fork.unwrap();
        reveal(ForkView::acted);
        reveal(ForkView::detached);
        reveal(ForkView::dropped);
        match root.left {
            BranchView::Stack(s) => {
                crate::shape::lemma_index_of_witness(s.windows, w, 0);
                crate::window::lemma_index_of_exists(s.windows, w);
            },
            _ => {},
        }
        assert(root.side_of(w) == Some(Side::Left));
        assert(root.here(BranchRef::Window(w)));
        assert(root.applied(BranchRef::Window(w), Action::Detach, t.queue).outcome
            == Outcome::Gone);
    }
}

/// A joined branch has a window, and a joined fork as many as its branches together.
pub proof fn lemma_branch_has_windows(b: BranchView, parent: usize, workspace: u32)
    requires
        b.joined(parent, workspace),
    ensures
        b.leaves().len() >= 1,
    decreases b,
{
    match b {
        BranchView::Fork(f) => {
            lemma_has_windows(*f);
        },
        _ => {},
    }
}

/// A joined fork has a window; one with two branches, or with a fork as a branch, has two.
pub proof fn lemma_has_windows(f: ForkView)
    requires
        f.joined(),
    ensures
        f.leaves().len() >= 1,
        f.right is Some || f.left is Fork ==> f.leaves().len() >= 2,
    decreases f,
{
    lemma_branch_has_windows(f.left, f.handle, f.workspace);
    match f.right {
        Some(r) => {
            lemma_branch_has_windows(r, f.handle, f.workspace);
        },
        None => {},
    }
}

/// Every window of a well-formed tiler lies on the workspace in whose tree it is.
pub proof fn lemma_windows_on_their_workspace(t: TilerView, i: int, k: int)
    requires
        t.wf(),
        0 <= i < t.workspaces.len(),
        0 <= k < t.workspaces[i].leaves().len(),
    ensures
        t.workspaces[i].leaves()[k].workspace == t.workspaces[i].id,
{
    assert(t.workspaces[i].wf());
    lemma_leaf_workspace(t.workspaces[i].fork.unwrap(), k);
}

/// A well-formed tiler with one window holds it at the root of one workspace, and has
/// no other tree.
pub proof fn lemma_only_window(s: Seq<WorkspaceView>) -> (j: int)
    requires
        forall|i: int| 0 <= i < s.len() ==> (#[trigger] s[i]).wf(),
        all_leaves(s).len() == 1,
    ensures
        0 <= j < s.len(),
        forall|i: int| 0 <= i < s.len() && i != j ==> (#[trigger] s[i]).fork is None,
        s[j].leaves() == all_leaves(s),
        s[j].fork is Some,
        s[j].fork.unwrap().right is None,
        !(s[j].fork.unwrap().left is Fork),
    decreases s.len(),
{
    let rest = s.drop_last();
    assert(s.last().wf());
    match s.last().fork {
        Some(f) => {
            lemma_has_windows(f);
            assert(all_leaves(rest).len() == 0);
            assert forall|i: int| 0 <= i < rest.len() implies (#[trigger] rest[i]).wf() by {
                assert(s[i].wf());
            }
            assert forall|i: int| 0 <= i < s.len() && i != s.len() - 1 implies (
            #[trigger] s[i]).fork is None by {
                lemma_empty_has_no_trees(rest, i);
                assert(rest[i] == s[i]);
            }
            assert(all_leaves(s) =~= s.last().leaves());
            s.len() - 1
        },
        None => {
            assert(all_leaves(s) =~= all_leaves(rest));
            assert forall|i: int| 0 <= i < rest.len() implies (#[trigger] rest[i]).wf() by {
                assert(s[i].wf());
            }
            let j = lemma_only_window(rest);
            assert forall|i: int| 0 <= i < s.len() && i != j implies (#[trigger] s[i]).fork is None by {
                if i < rest.len() {
                    assert(rest[i].fork is None);
                }
            }
            j
        },
    }
}

/// Well-formed workspaces without windows have no trees.
pub proof fn lemma_empty_has_no_trees(s: Seq<WorkspaceView>, i: int)
    requires
        forall|k: int| 0 <= k < s.len() ==> (#[trigger] s[k]).wf(),
        all_leaves(s).len() == 0,
        0 <= i < s.len(),
    ensures
        s[i].fork is None,
    decreases s.len(),
{
    assert(s.last().wf());
    match s.last().fork {
        Some(f) => {
            lemma_has_windows(f);
        },
        None => {},
    }
    if i < s.len() - 1 {
        assert forall|k: int| 0 <= k < s.drop_last().len() implies (#[trigger] s.drop_last()[k]).wf() by {
            assert(s[k].wf());
        }
        lemma_empty_has_no_trees(s.drop_last(), i);
    }
}

/// Detach followed by attach of the only window of a tiler leaves that window alone at
/// a root fork: on the workspace on view, without a parent, on the whole area of the
/// workspace, and as the active window.
pub proof fn lemma_detach_then_attach_only_window(t: TilerView, w: WindowID)
    requires
        t.wf(),
        t.windows().len() == 1,
        t.windows()[0].id == w,
        t.workspace(t.active_workspace) is Some,
    ensures
        t.detach(w).attach(w).wf(),
        t.detach(w).attach(w).active == Some(w),
        t.detach(w).attach(w).windows().len() == 1,
        t.detach(w).attach(w).windows()[0].id == w,
        t.detach(w).attach(w).windows()[0].rect == t.workspace(t.active_workspace).unwrap().area,
        t.detach(w).attach(w).holds_alone(workspace_index(t.workspaces, t.active_workspace), w),
        t.detach(w).attach(w).workspaces[workspace_index(
            t.workspaces,
            t.active_workspace,
        )].fork.unwrap().parent is None,
{
    let j = lemma_only_window(t.workspaces);
    let root = t.workspaces[j].fork.unwrap();
    assert(t.workspaces[j].wf());
    assert(root.leaves() =~= root.left.leaves());
    lemma_detach_then_attach(t, j, w);
    let u = t.detach(w).attach(w);
    let k = workspace_index(t.workspaces, t.active_workspace);
    lemma_workspace_index_exists(t.workspaces, t.active_workspace);
    lemma_only_window_of(u, k, w);
}

/// A tiler whose only tree holds one window alone has that window as its only window.
pub proof fn lemma_only_window_of(t: TilerView, j: int, w: WindowID)
    requires
        t.holds_alone(j, w),
    ensures
        t.windows() == t.workspaces[j].leaves(),
        t.windows().len() == 1,
        t.windows()[0] == t.workspaces[j].fork.unwrap().left->Window_0,
{
    lemma_one_tree(t.workspaces, j);
    let root = t.workspaces[j].fork.unwrap();
    assert(root.leaves() =~= root.left.leaves());
}

/// The windows of workspaces of which one has a tree are the windows of that tree.
pub proof fn lemma_one_tree(s: Seq<WorkspaceView>, j: int)
    requires
        0 <= j < s.len(),
        forall|i: int| 0 <= i < s.len() && i != j ==> (#[trigger] s[i]).fork is None,
    ensures
        all_leaves(s) == s[j].leaves(),
    decreases s.len(),
{
    let rest = s.drop_last();
    if j == s.len() - 1 {
        assert forall|i: int| 0 <= i < rest.len() implies (#[trigger] rest[i]).fork is None by {
            assert(s[i].fork is None);
        }
        lemma_no_trees_no_windows(rest);
        assert(all_leaves(s) =~= s[j].leaves());
    } else {
        assert(s.last().fork is None);
        assert forall|i: int| 0 <= i < rest.len() && i != j implies (#[trigger] rest[i]).fork is None by {
            assert(s[i].fork is None);
        }
        lemma_one_tree(rest, j);
        assert(all_leaves(s) =~= s[j].leaves());
    }
}

/// Detach of the only window of a tiler followed by attach of that window restores a
/// root fork that holds the window alone: on the workspace that is on view, without a
/// parent, on the whole area of the workspace, with the window as the active one.
pub proof fn lemma_detach_then_attach(t: TilerView, j: int, w: WindowID)
    requires
        t.wf(),
        t.holds_only(j, w),
        t.workspace(t.active_workspace) is Some,
    ensures
        t.detach(w).attach(w).wf(),
        t.detach(w).attach(w).active == Some(w),
        t.detach(w).attach(w).holds_alone(workspace_index(t.workspaces, t.active_workspace), w),
        t.detach(w).attach(w).workspaces[workspace_index(
            t.workspaces,
            t.active_workspace,
        )].fork.unwrap().parent is None,
        t.detach(w).attach(w).workspaces[workspace_index(
            t.workspaces,
            t.active_workspace,
        )].fork.unwrap().left->Window_0.rect == t.workspaces[workspace_index(
            t.workspaces,
            t.active_workspace,
        )].area,
{
    lemma_detach_only(t, j, w, 0);
    let d = t.detach(w);
    assert forall|i: int| 0 <= i < d.workspaces.len() implies (#[trigger] d.workspaces[i]).fork is None by {
        if i != j {
            assert(t.workspaces[i].fork is None);
        }
    }
    lemma_no_trees_no_windows(d.workspaces);
    crate::window::lemma_index_of_exists(d.windows(), w);
    assert(d.find(w) is None);
    match d.active {
        Some(a) => {
            crate::window::lemma_index_of_exists(d.windows(), a);
        },
        None => {},
    }
    assert(d.anchor() is None);
    lemma_workspace_index_exists(t.workspaces, t.active_workspace);
    let k = workspace_index(t.workspaces, t.active_workspace);
    assert(is_workspace_index(d.workspaces, t.active_workspace, k)) by {
        assert forall|m: int| 0 <= m < k implies (#[trigger] d.workspaces[m]).id
            != t.active_workspace by {
            assert(t.workspaces[m].id != t.active_workspace);
        }
    }
    crate::tiler::lemma_workspace_index_unique(d.workspaces, t.active_workspace, k);
    lemma_commands_wf(t, w, w);
    lemma_commands_wf(d, w, w);
    assert(d.workspaces[k].leaves() =~= Seq::<Window>::empty());
    let u = d.attach(w);
    assert(u == d.attach_to_workspace(w));
    assert(t.workspaces[k].wf());
}

/// Of several placements of one window between two drains, the last one counts.
pub proof fn lemma_place_coalesces(q: QueueView, id: WindowID, first: Placement, last: Placement)
    ensures
        q.window_place(id, first).window_place(id, last) == q.window_place(id, last),
{
    let e = WindowEvents { place: Some(first), ..q.window_entry(id) };
    lemma_value_after_with(q.windows, id, e);
    lemma_with_twice(
        q.windows,
        id,
        e,
        WindowEvents { place: Some(last), ..q.window_entry(id) },
    );
}

/// Of several changes of the visibility of one window between two drains, the last
/// one counts.
pub proof fn lemma_visibility_coalesces(q: QueueView, id: WindowID, first: bool, last: bool)
    ensures
        q.window_visibility(id, first).window_visibility(id, last) == q.window_visibility(
            id,
            last,
        ),
{
    let e = WindowEvents { visibility: Some(first), ..q.window_entry(id) };
    lemma_value_after_with(q.windows, id, e);
    lemma_with_twice(
        q.windows,
        id,
        e,
        WindowEvents { visibility: Some(last), ..q.window_entry(id) },
    );
}

/// Of several assignments of one window to one stack and detachments from it between
/// two drains, the last one counts.
pub proof fn lemma_membership_coalesces(
    q: QueueView,
    handle: usize,
    id: WindowID,
    first: bool,
    last: bool,
)
    ensures
        q.stack_membership(handle, id, first).stack_membership(handle, id, last)
            == q.stack_membership(handle, id, last),
{
    lemma_value_after_with(q.stacks, handle, q.stack_entry(handle));
    lemma_with_twice(q.stacks, handle, q.stack_entry(handle), q.stack_entry(handle));
    lemma_with_twice(q.assignments, Membership { stack: handle, window: id }, first, last);
}

/// A fork that was destroyed gives no update when the queue is drained, and a stack that
/// was destroyed gives neither its placement, its visibility nor a window to raise.
pub proof fn lemma_destroy_suppresses(
    handle: usize,
    fork: ForkEvents,
    stack: StackEvents,
    assignments: Seq<(Membership, bool)>,
)
    requires
        fork.destroy,
        stack.destroy,
    ensures
        fork_entry_events(handle, fork) == seq![Event::ForkDestroy(handle)],
        stack_entry_events(handle, stack, assignments) == seq![Event::StackDestroy(handle)]
            + membership_events(assignments, handle),
{
    assert(stack_entry_events(handle, stack, assignments) =~= seq![Event::StackDestroy(handle)]
        + membership_events(assignments, handle));
}

/// Every request leaves a well-formed tiler well formed: in every state that requests
/// lead to from the empty tiler, every window lies on the workspace of the fork or stack
/// that holds it, every fork and stack refers back to its parent, the branches of every
/// fork tile its area, every stack has members and a raised one among them, no two
/// windows have one ID, the active window is in a tree, and a window is visible exactly if
/// its workspace is on view and it is not a member of a stack that is not the raised one.
pub proof fn lemma_requests_keep_invariants(t: TilerView, request: Request)
    requires
        t.wf(),
        t.distinct(),
        t.shown(),
    ensures
        TilerView::empty().wf(),
        TilerView::empty().distinct(),
        TilerView::empty().shown(),
        t.handled(request).wf(),
        t.handled(request).distinct(),
        t.handled(request).shown(),
        t.handled(request).drained().wf(),
        t.handled(request).drained().distinct(),
        t.handled(request).drained().shown(),
{
    lemma_empty_distinct();
    lemma_empty_shown();
    match request {
        Request::Attach(id) => {
            lemma_commands_wf(t, id, id);
            lemma_commands_distinct(t, id, id);
            lemma_commands_shown(t, id, id, 0, 0);
        },
        Request::Detach(id) => {
            lemma_commands_wf(t, id, id);
            lemma_commands_distinct(t, id, id);
            lemma_commands_shown(t, id, id, 0, 0);
        },
        Request::DisplayUpdate { display, rect } => {
            lemma_display_update_wf(t, display, rect);
            lemma_topology_distinct(t, display, rect, 0);
            lemma_topology_shown(t, display, rect, 0);
        },
        Request::DisplayDetach(display) => {
            lemma_display_detach_wf(t, display);
            lemma_topology_distinct(t, display, unit_rect(), 0);
            lemma_topology_shown(t, display, unit_rect(), 0);
        },
        Request::Focus(id) => {
            lemma_commands_wf(t, id, id);
            lemma_commands_distinct(t, id, id);
            lemma_commands_shown(t, id, id, 0, 0);
        },
        Request::FocusAbove => {
            lemma_focus_wf(t, Direction::Above, true);
            lemma_focus_toward_distinct(t, Direction::Above);
            lemma_focus_shown(t, Direction::Above, true);
        },
        Request::FocusBelow => {
            lemma_focus_wf(t, Direction::Below, true);
            lemma_focus_toward_distinct(t, Direction::Below);
            lemma_focus_shown(t, Direction::Below, true);
        },
        Request::FocusLeft => {
            lemma_focus_wf(t, Direction::Left, true);
            lemma_focus_in_stack_distinct(t, true);
            lemma_focus_shown(t, Direction::Left, true);
        },
        Request::FocusRight => {
            lemma_focus_wf(t, Direction::Right, false);
            lemma_focus_in_stack_distinct(t, false);
            lemma_focus_shown(t, Direction::Left, false);
        },
        Request::FocusDisplayAbove => {
            lemma_focus_wf(t, Direction::Above, true);
            lemma_focus_toward_distinct(t, Direction::Above);
            lemma_focus_shown(t, Direction::Above, true);
        },
        Request::FocusDisplayBelow => {
            lemma_focus_wf(t, Direction::Below, true);
            lemma_focus_toward_distinct(t, Direction::Below);
            lemma_focus_shown(t, Direction::Below, true);
        },
        Request::FocusDisplayLeft => {
            lemma_focus_wf(t, Direction::Left, true);
            lemma_focus_toward_distinct(t, Direction::Left);
            lemma_focus_shown(t, Direction::Left, true);
        },
        Request::FocusDisplayRight => {
            lemma_focus_wf(t, Direction::Right, true);
            lemma_focus_toward_distinct(t, Direction::Right);
            lemma_focus_shown(t, Direction::Right, true);
        },
        Request::MoveAbove => {
            lemma_move_wf(t, Direction::Above, true);
            lemma_move_toward_distinct(t, Direction::Above);
            lemma_move_shown(t, Direction::Above, true);
        },
        Request::MoveBelow => {
            lemma_move_wf(t, Direction::Below, true);
            lemma_move_toward_distinct(t, Direction::Below);
            lemma_move_shown(t, Direction::Below, true);
        },
        Request::MoveLeft => {
            lemma_move_wf(t, Direction::Left, true);
            lemma_move_in_stack_distinct(t, true);
            lemma_move_shown(t, Direction::Left, true);
        },
        Request::MoveRight => {
            lemma_move_wf(t, Direction::Right, false);
            lemma_move_in_stack_distinct(t, false);
            lemma_move_shown(t, Direction::Left, false);
        },
        Request::ToggleOrientation => {
            lemma_commands_wf(t, WindowID(0, 0), WindowID(0, 0));
            lemma_commands_distinct(t, WindowID(0, 0), WindowID(0, 0));
            lemma_commands_shown(t, WindowID(0, 0), WindowID(0, 0), 0, 0);
        },
        Request::ToggleStack => {
            lemma_commands_wf(t, WindowID(0, 0), WindowID(0, 0));
            lemma_commands_distinct(t, WindowID(0, 0), WindowID(0, 0));
            lemma_commands_shown(t, WindowID(0, 0), WindowID(0, 0), 0, 0);
        },
        Request::Resize(fork, split) => {
            lemma_tiler_applied(t, 0, BranchRef::Fork(fork), Action::Resize(split));
            lemma_applied_distinct(t, BranchRef::Fork(fork), Action::Resize(split));
            lemma_commands_shown(t, WindowID(0, 0), WindowID(0, 0), fork, split);
        },
        Request::Swap(a, b) => {
            lemma_commands_wf(t, a, b);
            lemma_commands_distinct(t, a, b);
            lemma_commands_shown(t, a, b, 0, 0);
        },
        Request::WorkspaceSwitch(workspace) => {
            lemma_workspace_switch_wf(t, workspace);
            lemma_workspace_switch_distinct(t, workspace);
            lemma_with_active_shown(t, WindowID(0, 0));
        },
        Request::WorkspaceUpdate { workspace, display } => {
            lemma_workspace_update_wf(t, workspace, display);
            lemma_topology_distinct(t, display, unit_rect(), workspace);
            lemma_topology_shown(t, display, unit_rect(), workspace);
        },
    }
    let u = t.handled(request);
    lemma_commands_wf(u, WindowID(0, 0), WindowID(0, 0));
    lemma_commands_distinct(u, WindowID(0, 0), WindowID(0, 0));
}


} // verus!
