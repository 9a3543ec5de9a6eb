use vstd::prelude::*;
use crate::action::{Action, Outcome};
use crate::count::{
    lemma_applied_count, lemma_applied_found, lemma_leaves_count, lemma_occurrences_concat,
    lemma_swept_count, one_if,
};
use crate::events::QueueView;
use crate::fork::{largest_of, BranchRef};
use crate::geom::{Direction, Rect};
use crate::search::nearest_of;
use crate::shape::lemma_retiled_count;
use crate::stack::exchange;
use crate::tiler::{
    all_leaves, first_free, lemma_swept_upto, lemma_tiler_applied_frame,
    lemma_workspace_index_exists,
    workspace_index, TilerStep, TilerView,
};
use crate::window::{
    lemma_times_forget, lemma_times_push, times,lemma_index_of_exists, lemma_occurrences_index, occurrences, Window, WindowID};
use crate::workspace::{Rooted, Sweep, WorkspaceView};

verus! {

impl WorkspaceView {
    /// How many windows of the workspace have `id`.
    pub open spec fn count(self, id: WindowID) -> nat {
        match self.fork {
            Some(f) => f.count(id),
            None => 0,
        }
    }
}

/// How many windows of the workspaces `s` have `id`.
pub open spec fn total(s: Seq<WorkspaceView>, id: WindowID) -> nat
    decreases s.len(),
{
    if s.len() == 0 {
        0
    } else {
        total(s.drop_last(), id) + s.last().count(id)
    }
}

impl TilerView {
    /// How many windows in the trees of the tiler have `id`.
    pub open spec fn total(self, id: WindowID) -> nat {
        total(self.workspaces, id)
    }

    /// No two windows in the trees of the tiler have one ID, the registry holds exactly
    /// the windows that are in the trees, each once, and the active window is in a tree.
    pub open spec fn distinct(self) -> bool {
        &&& forall|id: WindowID| #[trigger] self.total(id) <= 1
        &&& forall|id: WindowID| #[trigger] times(self.registry, id) == self.total(id)
        &&& match self.active {
            Some(a) => self.total(a) == 1,
            None => true,
        }
    }
}

/// The workspaces hold an ID as often as the list of all their windows does.
pub proof fn lemma_total_leaves(s: Seq<WorkspaceView>, id: WindowID)
    ensures
        occurrences(all_leaves(s), id) == total(s, id),
    decreases s.len(),
{
    if s.len() > 0 {
        lemma_total_leaves(s.drop_last(), id);
        lemma_occurrences_concat(all_leaves(s.drop_last()), s.last().leaves(), id);
        match s.last().fork {
            Some(f) => {
                lemma_leaves_count(f, id);
            },
            None => {},
        }
    }
}

/// The registry of a well-formed tiler holds exactly the windows that are in its trees:
/// a window is registered exactly if the tiler finds it below the root of a workspace,
/// and no window is registered twice.
pub proof fn lemma_registry_holds_the_windows(t: TilerView, id: WindowID)
    requires
        t.distinct(),
    ensures
        t.registered(id) == (t.find(id) is Some),
        times(t.registry, id) == occurrences(t.windows(), id),
        times(t.registry, id) <= 1,
{
    lemma_find_total(t, id);
    lemma_total_leaves(t.workspaces, id);
    crate::window::lemma_place_of_exists(t.registry, id);
    assert(times(t.registry, id) == t.total(id));
    assert(t.total(id) <= 1);
}

/// The tiler finds a window exactly if a tree holds its ID, and finds it under that ID.
pub proof fn lemma_find_total(t: TilerView, id: WindowID)
    ensures
        t.find(id) is Some == (t.total(id) > 0),
        t.find(id) is Some ==> t.find(id).unwrap().id == id,
{
    lemma_total_leaves(t.workspaces, id);
    lemma_occurrences_index(t.windows(), id);
    lemma_index_of_exists(t.windows(), id);
}

/// Workspaces with another workspace at `i` hold an ID as often as before, less what
/// the former workspace held, plus what the new one holds.
pub proof fn lemma_total_update(s: Seq<WorkspaceView>, i: int, w: WorkspaceView, id: WindowID)
    requires
        0 <= i < s.len(),
    ensures
        total(s.update(i, w), id) + s[i].count(id) == total(s, id) + w.count(id),
    decreases s.len(),
{
    if i == s.len() - 1 {
        assert(s.update(i, w).drop_last() =~= s.drop_last());
    } else {
        assert(s.update(i, w).drop_last() =~= s.drop_last().update(i, w));
        assert(s.update(i, w).last() == s.last());
        lemma_total_update(s.drop_last(), i, w, id);
    }
}

/// Workspaces with one more workspace hold an ID as often as before, plus what the new
/// one holds.
pub proof fn lemma_total_push(s: Seq<WorkspaceView>, w: WorkspaceView, id: WindowID)
    ensures
        total(s.push(w), id) == total(s, id) + w.count(id),
{
    assert(s.push(w).drop_last() =~= s);
}

/// Two lists of workspaces of which each workspace of the second holds `id` as often as
/// its fellow in the first holds `other` hold the two equally often.
pub proof fn lemma_total_pointwise(s: Seq<WorkspaceView>, t: Seq<WorkspaceView>, id: WindowID, other: WindowID)
    requires
        s.len() == t.len(),
        forall|i: int| 0 <= i < s.len() ==> (#[trigger] t[i]).count(id) == s[i].count(other),
    ensures
        total(t, id) == total(s, other),
    decreases s.len(),
{
    if s.len() > 0 {
        assert(t.last().count(id) == s.last().count(other));
        assert forall|i: int| 0 <= i < s.drop_last().len() implies (#[trigger] t.drop_last()[i]).count(
            id,
        ) == s.drop_last()[i].count(other) by {
            assert(t[i].count(id) == s[i].count(other));
        }
        lemma_total_pointwise(s.drop_last(), t.drop_last(), id, other);
    }
}

/// The workspaces hold an ID at least as often as one of them does.
pub proof fn lemma_total_member(s: Seq<WorkspaceView>, i: int, id: WindowID)
    requires
        0 <= i < s.len(),
    ensures
        total(s, id) >= s[i].count(id),
    decreases s.len(),
{
    if i < s.len() - 1 {
        lemma_total_member(s.drop_last(), i, id);
    }
}

/// Workspaces that hold an ID have one among them that holds it.
pub proof fn lemma_total_witness(s: Seq<WorkspaceView>, id: WindowID) -> (i: int)
    requires
        total(s, id) > 0,
    ensures
        0 <= i < s.len(),
        s[i].count(id) > 0,
    decreases s.len(),
{
    if s.last().count(id) > 0 {
        s.len() - 1
    } else {
        lemma_total_witness(s.drop_last(), id)
    }
}

impl Rooted {
    /// How often the workspace of this step holds `id`, set against how often the
    /// workspace `w` held it before `action` was done on `target`.
    pub open spec fn counted(self, w: WorkspaceView, target: BranchRef, action: Action, id: WindowID)
        -> bool {
        if !self.found {
            self.workspace == w
        } else {
            match (action, target) {
                (Action::Attach(n, _), BranchRef::Window(_)) => self.workspace.count(id)
                    == w.count(id) + one_if(n.id, id),
                (Action::Detach, BranchRef::Window(x)) => self.workspace.count(id) + one_if(x, id)
                    == w.count(id),
                (Action::ToggleStack(_), BranchRef::Window(x)) => if x == id {
                    self.workspace.count(id) <= w.count(id)
                } else {
                    self.workspace.count(id) == w.count(id)
                },
                _ => self.workspace.count(id) == w.count(id),
            }
        }
    }
}

impl TilerStep {
    /// How often the tiler of this step holds `id`, set against how often the tiler `t`
    /// held it before `action` was done on `target`.
    pub open spec fn counted(self, t: TilerView, target: BranchRef, action: Action, id: WindowID)
        -> bool {
        if !self.found {
            self.tiler == t
        } else {
            match (action, target) {
                (Action::Attach(n, _), BranchRef::Window(_)) => self.tiler.total(id) == t.total(id)
                    + one_if(n.id, id),
                (Action::Detach, BranchRef::Window(x)) => self.tiler.total(id) + one_if(x, id)
                    == t.total(id),
                (Action::ToggleStack(_), BranchRef::Window(x)) => if x == id {
                    self.tiler.total(id) <= t.total(id)
                } else {
                    self.tiler.total(id) == t.total(id)
                },
                _ => self.tiler.total(id) == t.total(id),
            }
        }
    }
}

/// What an action does to how often a workspace holds an ID.
pub proof fn lemma_workspace_applied_count(
    w: WorkspaceView,
    target: BranchRef,
    action: Action,
    q: QueueView,
    id: WindowID,
)
    ensures
        w.applied(target, action, q).counted(w, target, action, id),
        target matches BranchRef::Window(x) && w.count(x) > 0 ==> w.applied(target, action, q).found,
{
    match w.fork {
        None => {},
        Some(f) => {
            lemma_applied_count(f, target, action, q, id);
            let s = f.applied(target, action, q);
            if s.outcome == Outcome::Replaced {
                lemma_retiled_count(s.fork, w.area, id);
            }
            match target {
                BranchRef::Window(x) => {
                    if f.count(x) > 0 {
                        lemma_applied_found(f, x, action, q);
                    }
                },
                _ => {},
            }
        },
    }
}

/// What an action does to how often a tiler holds an ID.
pub proof fn lemma_tiler_applied_count(t: TilerView, i: int, target: BranchRef, action: Action, id: WindowID)
    requires
        0 <= i,
    ensures
        t.applied_from(i, target, action).counted(t, target, action, id),
    decreases t.workspaces.len() - i,
{
    if i < t.workspaces.len() {
        let r = t.workspaces[i].applied(target, action, t.queue);
        lemma_workspace_applied_count(t.workspaces[i], target, action, t.queue, id);
        if r.found {
            lemma_total_update(t.workspaces, i, r.workspace, id);
        } else {
            lemma_tiler_applied_count(t, i + 1, target, action, id);
        }
    }
}

/// An action on a window that a workspace from `i` on holds finds the window.
pub proof fn lemma_tiler_applied_found(t: TilerView, i: int, j: int, w: WindowID, action: Action)
    requires
        0 <= i <= j < t.workspaces.len(),
        t.workspaces[j].count(w) > 0,
    ensures
        t.applied_from(i, BranchRef::Window(w), action).found,
    decreases j - i,
{
    let r = t.workspaces[i].applied(BranchRef::Window(w), action, t.queue);
    if !r.found {
        lemma_workspace_applied_count(t.workspaces[i], BranchRef::Window(w), action, t.queue, w);
        lemma_tiler_applied_found(t, i + 1, j, w, action);
    }
}

/// An action on a window that the tiler finds is done.
pub proof fn lemma_applied_to_found(t: TilerView, w: WindowID, action: Action)
    requires
        t.total(w) > 0,
    ensures
        t.applied(BranchRef::Window(w), action).found,
{
    let j = lemma_total_witness(t.workspaces, w);
    lemma_tiler_applied_found(t, 0, j, w, action);
}

/// A sweep leaves every window in its workspace; an exchange of two names gives each
/// workspace the windows that it had, under the names that the exchange gives them.
pub proof fn lemma_swept_total(t: TilerView, sweep: Sweep, id: WindowID)
    ensures
        t.swept(sweep).total(id) == t.total(
            match sweep {
                Sweep::Rename(a, b) => exchange(id, a, b),
                _ => id,
            },
        ),
{
    let u = t.swept(sweep);
    lemma_swept_upto(t, t.workspaces.len() as int, sweep);
    let other = match sweep {
        Sweep::Rename(a, b) => exchange(id, a, b),
        _ => id,
    };
    assert forall|i: int| 0 <= i < t.workspaces.len() implies (#[trigger] u.workspaces[i]).count(id)
        == t.workspaces[i].count(other) by {
        assert(u.workspaces[i] == t.workspaces[i].swept(sweep));
        match t.workspaces[i].fork {
            Some(f) => {
                match sweep {
                    Sweep::Move { from, to, area } => {
                        lemma_retiled_count(f, area, id);
                    },
                    Sweep::View(k) => {
                        lemma_swept_count(f, t.workspaces[i].id == k, id, id, id);
                    },
                    Sweep::Rename(a, b) => {
                        lemma_swept_count(f, true, a, b, id);
                    },
                }
            },
            None => {},
        }
    }
    lemma_total_pointwise(t.workspaces, u.workspaces, id, other);
}

/// A sweep that moves workspaces or shows and hides windows keeps the windows distinct.
pub proof fn lemma_swept_distinct(t: TilerView, sweep: Sweep)
    requires
        t.distinct(),
        !(sweep is Rename),
    ensures
        t.swept(sweep).distinct(),
        forall|id: WindowID| #[trigger] t.swept(sweep).total(id) == t.total(id),
{
    let u = t.swept(sweep);
    lemma_swept_upto(t, t.workspaces.len() as int, sweep);
    assert forall|id: WindowID| #[trigger] u.total(id) == t.total(id) by {
        lemma_swept_total(t, sweep, id);
    }
    assert forall|id: WindowID| #[trigger] u.total(id) <= 1 by {
        assert(t.total(id) <= 1);
    }
}

/// Whatever changes nothing but the queue, the handles, the displays and the marks of
/// change keeps the windows distinct.
pub proof fn lemma_same_trees_distinct(t: TilerView, u: TilerView)
    requires
        t.distinct(),
        u.workspaces == t.workspaces,
        u.registry == t.registry,
        u.active == t.active,
    ensures
        u.distinct(),
{
    assert forall|id: WindowID| #[trigger] u.total(id) <= 1 by {
        assert(t.total(id) <= 1);
    }
    assert forall|id: WindowID| #[trigger] times(u.registry, id) == u.total(id) by {
        assert(times(t.registry, id) == t.total(id));
    }
}

/// A new workspace without a tree keeps the windows distinct.
pub proof fn lemma_pushed_distinct(t: TilerView, u: TilerView, w: WorkspaceView)
    requires
        t.distinct(),
        u.workspaces == t.workspaces.push(w),
        w.fork is None,
        u.registry == t.registry,
        u.active == t.active,
    ensures
        u.distinct(),
        forall|id: WindowID| #[trigger] u.total(id) == t.total(id),
{
    assert forall|id: WindowID| #[trigger] u.total(id) == t.total(id) by {
        lemma_total_push(t.workspaces, w, id);
    }
    assert forall|id: WindowID| #[trigger] u.total(id) <= 1 by {
        assert(t.total(id) <= 1);
    }
    assert forall|id: WindowID| #[trigger] times(u.registry, id) == u.total(id) by {
        assert(times(t.registry, id) == t.total(id));
    }
}

/// A switch of workspaces keeps the windows distinct, and every window in its tree.
pub proof fn lemma_workspace_switch_distinct(t: TilerView, k: u32)
    requires
        t.distinct(),
    ensures
        t.workspace_switch(k).distinct(),
        forall|id: WindowID| #[trigger] t.workspace_switch(k).total(id) == t.total(id),
{
    if k != t.active_workspace {
        lemma_swept_distinct(t, Sweep::View(k));
        let s = t.swept(Sweep::View(k));
        lemma_swept_upto(t, t.workspaces.len() as int, Sweep::View(k));
        let v = s.with_workspace(k);
        match s.workspace(s.active_workspace) {
            Some(home) => {
                if s.workspace(k) is None {
                    lemma_pushed_distinct(
                        s,
                        v,
                        WorkspaceView {
                            id: k,
                            display: home.display,
                            area: home.area,
                            fork: None,
                            focus: None,
                        },
                    );
                }
            },
            None => {},
        }
        let u = TilerView { active_workspace: k, active_workspace_changed: true, ..v };
        lemma_same_trees_distinct(v, u);
        assert forall|id: WindowID| #[trigger] t.workspace_switch(k).total(id) == t.total(id) by {
            assert(v.total(id) == s.total(id));
            assert(s.total(id) == t.total(id));
        }
        match u.focus_of(k) {
            Some(f) => {
                lemma_find_total(u, f);
                assert(u.total(f) <= 1);
            },
            None => {},
        }
        assert forall|id: WindowID| #[trigger] t.workspace_switch(k).total(id) <= 1 by {
            assert(t.total(id) <= 1);
        }
    }
}

/// Making a window the active one keeps the windows distinct, and every window in its tree.
pub proof fn lemma_with_active_distinct(t: TilerView, id: WindowID)
    requires
        t.distinct(),
    ensures
        t.with_active(id).distinct(),
        forall|x: WindowID| #[trigger] t.with_active(id).total(x) == t.total(x),
{
    lemma_find_total(t, id);
    match t.find(id) {
        Some(w) => {
            lemma_workspace_switch_distinct(t, w.workspace);
            let s = t.workspace_switch(w.workspace);
            assert(s.total(id) == t.total(id));
            assert(t.total(id) <= 1);
            assert(t.with_active(id).workspaces == s.workspaces);
            assert forall|x: WindowID| #[trigger] t.with_active(id).total(x) == t.total(x) by {
                assert(s.total(x) == t.total(x));
            }
            assert forall|x: WindowID| #[trigger] t.with_active(id).total(x) <= 1 by {
                assert(s.total(x) <= 1);
            }
        },
        None => {},
    }
}

/// An action that leaves every window in its tree keeps the windows distinct.
pub proof fn lemma_applied_distinct(t: TilerView, target: BranchRef, action: Action)
    requires
        t.distinct(),
        !(action is Attach),
        !(action is Detach),
        !(action is ToggleStack),
    ensures
        t.applied(target, action).tiler.distinct(),
        forall|id: WindowID| #[trigger] t.applied(target, action).tiler.total(id) == t.total(id),
{
    let u = t.applied(target, action).tiler;
    lemma_tiler_applied_frame(t, 0, target, action);
    assert forall|id: WindowID| #[trigger] u.total(id) == t.total(id) by {
        lemma_tiler_applied_count(t, 0, target, action, id);
    }
    assert forall|id: WindowID| #[trigger] u.total(id) <= 1 by {
        assert(t.total(id) <= 1);
    }
}

/// Attaching a window that is in no tree beside another keeps the windows distinct. The
/// window is in a tree afterwards if the other was.
pub proof fn lemma_attach_to_window_distinct(t: TilerView, id: WindowID, anchor: WindowID)
    requires
        t.distinct(),
        t.total(id) == 0,
    ensures
        t.attach_to_window(id, anchor).distinct(),
        t.total(anchor) > 0 ==> t.attach_to_window(id, anchor).total(id) == 1,
        forall|x: WindowID| x != id ==> #[trigger] t.attach_to_window(id, anchor).total(x) == t.total(x),
        t.attach_to_window(id, anchor).active == t.active,
{
    let action = Action::Attach(Window::fresh(id), first_free(t.forks) as usize);
    let step = t.applied(BranchRef::Window(anchor), action);
    let u = t.attach_to_window(id, anchor);
    lemma_tiler_applied_frame(t, 0, BranchRef::Window(anchor), action);
    assert forall|x: WindowID| #[trigger] u.total(x) <= 1 && (x != id ==> u.total(x) == t.total(x)) by {
        lemma_tiler_applied_count(t, 0, BranchRef::Window(anchor), action, x);
        assert(t.total(x) <= 1);
    }
    lemma_tiler_applied_count(t, 0, BranchRef::Window(anchor), action, id);
    if t.total(anchor) > 0 {
        lemma_applied_to_found(t, anchor, action);
    }
    assert forall|x: WindowID| #[trigger] times(u.registry, x) == u.total(x) by {
        lemma_tiler_applied_count(t, 0, BranchRef::Window(anchor), action, x);
        lemma_times_push(t.registry, id, x);
        assert(times(t.registry, x) == t.total(x));
    }
    match t.active {
        Some(a) => {
            assert(t.total(a) == 1);
            assert(u.total(a) == t.total(a));
        },
        None => {},
    }
}

/// Attaching a window that is in no tree to the workspace on view keeps the windows
/// distinct.
pub proof fn lemma_attach_to_workspace_distinct(t: TilerView, id: WindowID)
    requires
        t.distinct(),
        t.total(id) == 0,
    ensures
        t.attach_to_workspace(id).distinct(),
{
    lemma_workspace_index_exists(t.workspaces, t.active_workspace);
    let i = workspace_index(t.workspaces, t.active_workspace);
    if i < t.workspaces.len() {
        let w = t.workspaces[i];
        match largest_of(w.leaves()) {
            Some(a) => {
                lemma_attach_to_window_distinct(t, id, a.id);
                match w.fork {
                    Some(f) => {
                        let k = crate::fork::lemma_largest_exists(w.leaves());
                        lemma_leaves_count(f, a.id);
                        crate::shape::lemma_index_of_witness(w.leaves(), a.id, k);
                        lemma_occurrences_index(w.leaves(), a.id);
                    },
                    None => {},
                }
                lemma_total_member(t.workspaces, i, a.id);
                let v = t.attach_to_window(id, a.id);
                assert forall|x: WindowID| #[trigger] t.attach_to_workspace(id).total(x) <= 1 by {
                    assert(v.total(x) <= 1);
                }
                assert forall|x: WindowID| #[trigger] times(t.attach_to_workspace(id).registry, x)
                    == t.attach_to_workspace(id).total(x) by {
                    assert(times(v.registry, x) == v.total(x));
                }
            },
            None => {
                let h = first_free(t.forks) as usize;
                let w0 = WorkspaceView { fork: None, ..w };
                let p = w0.planted(Window::fresh(id), h);
                let u = t.attach_to_workspace(id);
                match w.fork {
                    Some(f) => {
                        if f.leaves().len() > 0 {
                            crate::fork::lemma_largest_exists(f.leaves());
                        }
                        assert forall|x: WindowID| f.count(x) == 0 by {
                            lemma_leaves_count(f, x);
                            assert(f.leaves() =~= Seq::<Window>::empty());
                        }
                    },
                    None => {},
                }
                assert forall|x: WindowID| #[trigger] u.total(x) == t.total(x) + one_if(id, x) by {
                    lemma_total_update(t.workspaces, i, p, x);
                    lemma_retiled_count(w0.first_root(Window::fresh(id), h), w0.area, x);
                    assert(w.count(x) == 0);
                }
                assert forall|x: WindowID| #[trigger] u.total(x) <= 1 by {
                    assert(u.total(x) == t.total(x) + one_if(id, x));
                    assert(t.total(x) <= 1);
                }
                assert forall|x: WindowID| #[trigger] times(u.registry, x) == u.total(x) by {
                    assert(u.total(x) == t.total(x) + one_if(id, x));
                    lemma_times_push(t.registry, id, x);
                    assert(times(t.registry, x) == t.total(x));
                }
                assert(u.total(id) == t.total(id) + one_if(id, id));
            },
        }
    }
}

/// Each command that works on a window keeps the windows distinct and the active window
/// in a tree.
pub proof fn lemma_commands_distinct(t: TilerView, a: WindowID, b: WindowID)
    requires
        t.distinct(),
    ensures
        t.attach(a).distinct(),
        t.detach(a).distinct(),
        t.focus(a).distinct(),
        t.toggle_orientation().distinct(),
        t.stack_toggle().distinct(),
        t.swap(a, b).distinct(),
        t.fork_resize(0, 0).distinct(),
        t.drained().distinct(),
{
    lemma_find_total(t, a);
    lemma_find_total(t, b);
    // attach
    if t.find(a) is None {
        match t.anchor() {
            Some(x) => {
                lemma_attach_to_window_distinct(t, a, x);
            },
            None => {
                lemma_attach_to_workspace_distinct(t, a);
            },
        }
    }
    lemma_detach_distinct(t, a);
    // focus
    lemma_applied_distinct(t, BranchRef::Window(a), Action::Raise);
    lemma_with_active_distinct(t, a);
    lemma_with_active_distinct(t.applied(BranchRef::Window(a), Action::Raise).tiler, a);
    // toggle orientation, resize
    match t.active {
        Some(x) => {
            lemma_applied_distinct(t, BranchRef::Window(x), Action::ToggleOrientation);
        },
        None => {},
    }
    lemma_applied_distinct(t, BranchRef::Fork(0), Action::Resize(0));
    lemma_stack_toggle_distinct(t);
    lemma_swap_distinct(t, a, b);
    lemma_same_trees_distinct(t, t.drained());
}

/// Detaching a window keeps the windows distinct, takes the window out of the trees and
/// leaves every other in its tree.
pub proof fn lemma_detach_distinct(t: TilerView, a: WindowID)
    requires
        t.distinct(),
    ensures
        t.detach(a).distinct(),
        t.detach(a).total(a) == 0,
        forall|x: WindowID| x != a ==> #[trigger] t.detach(a).total(x) == t.total(x),
        t.active != Some(a) ==> t.detach(a).active == t.active,
{
    let step = t.applied(BranchRef::Window(a), Action::Detach);
    let u = t.detach(a);
    lemma_tiler_applied_frame(t, 0, BranchRef::Window(a), Action::Detach);
    assert forall|x: WindowID| #[trigger] u.total(x) <= 1 && (x != a ==> u.total(x) == t.total(x)) by {
        lemma_tiler_applied_count(t, 0, BranchRef::Window(a), Action::Detach, x);
        assert(t.total(x) <= 1);
    }
    lemma_tiler_applied_count(t, 0, BranchRef::Window(a), Action::Detach, a);
    assert(t.total(a) <= 1);
    if t.total(a) > 0 {
        lemma_applied_to_found(t, a, Action::Detach);
    }
    assert forall|x: WindowID| #[trigger] times(u.registry, x) == u.total(x) by {
        lemma_tiler_applied_count(t, 0, BranchRef::Window(a), Action::Detach, x);
        lemma_times_forget(t.registry, a, x);
        assert(times(t.registry, x) == t.total(x));
        assert(times(t.registry, a) == t.total(a));
    }
    match t.active {
        Some(x) => {
            assert(t.total(x) == 1);
            if x != a {
                assert(u.total(x) == t.total(x));
            } else {
                lemma_applied_to_found(t, a, Action::Detach);
            }
        },
        None => {},
    }
}

/// Putting the active window into a stack or taking it out of one keeps the windows
/// distinct.
pub proof fn lemma_stack_toggle_distinct(t: TilerView)
    requires
        t.distinct(),
    ensures
        t.stack_toggle().distinct(),
{
    match t.active {
        Some(a) => {
            let action = Action::ToggleStack(first_free(t.stacks) as usize);
            let step = t.applied(BranchRef::Window(a), action);
            lemma_tiler_applied_frame(t, 0, BranchRef::Window(a), action);
            let v = step.tiler.with_stack_made(step.made);
            assert forall|x: WindowID| #[trigger] v.total(x) <= 1 by {
                lemma_tiler_applied_count(t, 0, BranchRef::Window(a), action, x);
                assert(t.total(x) <= 1);
            }
            lemma_find_total(v, a);
            assert(v.total(a) <= 1);
            assert forall|x: WindowID| #[trigger] t.stack_toggle().total(x) <= 1 by {
                assert(v.total(x) <= 1);
            }
            assert(t.total(a) == 1);
            assert(times(t.registry, a) == t.total(a));
            assert forall|x: WindowID| #[trigger] times(t.stack_toggle().registry, x)
                == t.stack_toggle().total(x) by {
                lemma_tiler_applied_count(t, 0, BranchRef::Window(a), action, x);
                lemma_times_forget(t.registry, a, x);
                assert(times(t.registry, x) == t.total(x));
            }
        },
        None => {},
    }
}

/// A swap of two windows keeps the windows distinct.
pub proof fn lemma_swap_distinct(t: TilerView, a: WindowID, b: WindowID)
    requires
        t.distinct(),
    ensures
        t.swap(a, b).distinct(),
{
    lemma_find_total(t, a);
    lemma_find_total(t, b);
    if !(a == b || t.find(a) is None || t.find(b) is None) {
        let s = t.swept(Sweep::Rename(a, b));
        lemma_swept_upto(t, t.workspaces.len() as int, Sweep::Rename(a, b));
        assert forall|x: WindowID| #[trigger] s.total(x) <= 1 by {
            lemma_swept_total(t, Sweep::Rename(a, b), x);
            assert(t.total(exchange(x, a, b)) <= 1);
        }
        assert(t.total(a) <= 1);
        assert(t.total(b) <= 1);
        assert forall|x: WindowID| #[trigger] times(s.registry, x) == s.total(x) by {
            lemma_swept_total(t, Sweep::Rename(a, b), x);
            assert(times(t.registry, x) == t.total(x));
        }
        match t.active {
            Some(x) => {
                lemma_swept_total(t, Sweep::Rename(a, b), x);
                assert(t.total(x) == 1);
                assert(t.total(a) <= 1);
                assert(t.total(b) <= 1);
            },
            None => {},
        }
        assert(s.distinct());
        lemma_applied_distinct(s, BranchRef::Window(b), Action::Refresh);
        let s1 = s.applied(BranchRef::Window(b), Action::Refresh).tiler;
        lemma_tiler_applied_frame(s, 0, BranchRef::Window(b), Action::Refresh);
        lemma_applied_distinct(s1, BranchRef::Window(a), Action::Refresh);
    }
}

/// Focus that goes to a display or in a direction keeps the windows distinct.
pub proof fn lemma_focus_toward_distinct(t: TilerView, direction: Direction)
    requires
        t.distinct(),
    ensures
        t.focus_display_toward(direction).distinct(),
        t.focus_toward(direction).distinct(),
{
    match t.display_in_direction(direction) {
        Some(d) => {
            match d.active {
                Some(k) => {
                    match t.focus_of(k) {
                        Some(f) => {
                            lemma_with_active_distinct(t, f);
                        },
                        None => {},
                    }
                },
                None => {},
            }
        },
        None => {},
    }
    match t.window_in_direction(direction) {
        Some(w) => {
            lemma_with_active_distinct(t, w.id);
        },
        None => {},
    }
}

/// Focus that goes left or right with regard to stacks keeps the windows distinct.
pub proof fn lemma_focus_in_stack_distinct(t: TilerView, before: bool)
    requires
        t.distinct(),
    ensures
        t.focus_in_stack(before).distinct(),
{
    match t.active {
        Some(a) => {
            let action = if before {
                Action::SelectLeft
            } else {
                Action::SelectRight
            };
            lemma_applied_distinct(t, BranchRef::Window(a), action);
            let step = t.applied(BranchRef::Window(a), action);
            match step.picked {
                Some(m) => {
                    lemma_with_active_distinct(step.tiler, m);
                },
                None => {
                    lemma_focus_toward_distinct(
                        step.tiler,
                        if before {
                            Direction::Left
                        } else {
                            Direction::Right
                        },
                    );
                },
            }
        },
        None => {},
    }
}

/// A move of the active window in a direction keeps the windows distinct.
pub proof fn lemma_move_toward_distinct(t: TilerView, direction: Direction)
    requires
        t.distinct(),
    ensures
        t.move_toward(direction).distinct(),
{
    match t.active {
        Some(a) => {
            let out = Action::MoveOut(direction, first_free(t.forks) as usize);
            lemma_applied_distinct(t, BranchRef::Window(a), out);
            let step = t.applied(BranchRef::Window(a), out);
            lemma_tiler_applied_frame(t, 0, BranchRef::Window(a), out);
            lemma_same_trees_distinct(step.tiler, step.tiler.with_fork_made(step.made));
            lemma_applied_distinct(t, BranchRef::Window(a), Action::Flip);
            match t.find(a) {
                Some(w) => {
                    match nearest_of(t.windows(), w, direction) {
                        Some(other) => {
                            lemma_detach_distinct(t, a);
                            let d = t.detach(a);
                            lemma_attach_to_window_distinct(d, a, other.id);
                            lemma_with_active_distinct(d.attach_to_window(a, other.id), a);
                        },
                        None => {},
                    }
                },
                None => {},
            }
        },
        None => {},
    }
}

/// A move of the active window left or right with regard to stacks keeps the windows
/// distinct.
pub proof fn lemma_move_in_stack_distinct(t: TilerView, before: bool)
    requires
        t.distinct(),
    ensures
        t.move_in_stack(before).distinct(),
{
    match t.active {
        Some(a) => {
            let action = if before {
                Action::ShiftLeft
            } else {
                Action::ShiftRight
            };
            lemma_applied_distinct(t, BranchRef::Window(a), action);
            let step = t.applied(BranchRef::Window(a), action);
            lemma_move_toward_distinct(
                step.tiler,
                if before {
                    Direction::Left
                } else {
                    Direction::Right
                },
            );
        },
        None => {},
    }
}

/// A change of the displays or of the place of a workspace keeps the windows distinct.
pub proof fn lemma_topology_distinct(t: TilerView, display: u32, area: Rect, workspace: u32)
    requires
        t.distinct(),
    ensures
        t.display_update(display, area).distinct(),
        t.display_detach(display).distinct(),
        t.workspace_update(workspace, display).distinct(),
{
    // display_update
    if area.valid() {
        let i = crate::display::display_index(t.displays, display);
        let u = TilerView {
            displays: if i < t.displays.len() {
                t.displays.update(i, crate::display::Display { area, ..t.displays[i] })
            } else {
                t.displays.push(crate::display::Display { id: display, area, active: None })
            },
            ..t
        };
        lemma_same_trees_distinct(t, u);
        lemma_swept_distinct(u, Sweep::Move { from: display, to: display, area });
    }
    // display_detach
    match t.workspace(t.active_workspace) {
        Some(w) => {
            let i = crate::display::display_index(t.displays, display);
            if i < t.displays.len() && w.display != display {
                let u = TilerView { displays: t.displays.remove(i), ..t };
                lemma_same_trees_distinct(t, u);
                lemma_swept_distinct(u, Sweep::Move { from: display, to: w.display, area: w.area });
            }
        },
        None => {},
    }
    // workspace_update
    let d = crate::display::display_index(t.displays, display);
    let i = workspace_index(t.workspaces, workspace);
    lemma_workspace_index_exists(t.workspaces, workspace);
    let u = t.workspace_update(workspace, display);
    if d < t.displays.len() {
        if i < t.workspaces.len() {
            if t.workspaces[i].display != display {
                let moved = t.workspaces[i].moved_to(display, t.displays[d].area);
                assert forall|x: WindowID| #[trigger] u.total(x) == t.total(x) by {
                    lemma_total_update(t.workspaces, i, moved, x);
                    match t.workspaces[i].fork {
                        Some(f) => {
                            lemma_retiled_count(f, t.displays[d].area, x);
                        },
                        None => {},
                    }
                }
                assert forall|x: WindowID| #[trigger] u.total(x) <= 1 by {
                    assert(t.total(x) <= 1);
                }
            }
        } else {
            lemma_pushed_distinct(
                t,
                u,
                WorkspaceView {
                    id: workspace,
                    display,
                    area: t.displays[d].area,
                    fork: None,
                    focus: None,
                },
            );
        }
    }
}

/// A tiler without windows has distinct windows.
pub proof fn lemma_empty_distinct()
    ensures
        TilerView::empty().distinct(),
{
}

} // verus!
