use vstd::prelude::*;
use crate::action::{Action, Applied, Outcome};
use crate::display::{display_index, find_display, is_display_index, Display};
use crate::events::{Event, EventQueue, ForkEvents, QueueView, StackEvents};
use crate::fork::{largest, largest_of, BranchRef};
use crate::geom::{Direction, Rect};
use crate::search::{nearest, nearest_display, nearest_display_of, nearest_of};
use crate::window::{
    find_id, forget, forget_id, index_of, place_of, position, Window, WindowID,
};
use crate::display::{lemma_display_index_exists, lemma_display_index_unique};
use crate::seen::{
    lemma_commands_shown, lemma_empty_shown, lemma_focus_shown, lemma_move_shown,
    lemma_topology_shown, lemma_with_active_shown,
};
use crate::distinct::{
    lemma_applied_distinct, lemma_commands_distinct, lemma_empty_distinct,
    lemma_focus_in_stack_distinct, lemma_focus_toward_distinct, lemma_move_in_stack_distinct,
    lemma_move_toward_distinct, lemma_topology_distinct, lemma_workspace_switch_distinct,
};
use crate::workspace::{
    lemma_workspace_applied, lemma_workspace_planted, lemma_workspace_swept, Sweep, Workspace,
    WorkspaceView,
};

verus! {

/// A tiling window manager.
#[derive(Debug)]
pub struct Tiler {
    event_queue: EventQueue,
    active_changed: bool,
    active: Option<WindowID>,
    active_workspace: u32,
    active_workspace_changed: bool,
    registry: Vec<WindowID>,
    forks: Vec<bool>,
    stacks: Vec<bool>,
    displays: Vec<Display>,
    workspaces: Vec<Workspace>,
}

/// What a tiler holds.
pub struct TilerView {
    /// The events that wait to be drained.
    pub queue: QueueView,
    /// Whether the active window changed since the last drain.
    pub active_changed: bool,
    /// The window that has the focus.
    pub active: Option<WindowID>,
    /// The ID of the workspace that is on view.
    pub active_workspace: u32,
    /// Whether the workspace on view changed since the last drain.
    pub active_workspace_changed: bool,
    /// The IDs of the windows that are attached, in the order in which they were attached.
    pub registry: Seq<WindowID>,
    /// For each fork handle, whether it is in use.
    pub forks: Seq<bool>,
    /// For each stack handle, whether it is in use.
    pub stacks: Seq<bool>,
    pub displays: Seq<Display>,
    pub workspaces: Seq<WorkspaceView>,
}

/// A tiler after an action, with what the action did.
pub struct TilerStep {
    pub tiler: TilerView,
    /// Whether the target of the action is in a tree of the tiler.
    pub found: bool,
    pub picked: Option<WindowID>,
    pub made: bool,
}

/// What each of the workspaces `s` holds.
pub open spec fn workspace_views(s: Seq<Workspace>) -> Seq<WorkspaceView> {
    Seq::new(s.len(), |i: int| s[i]@)
}

/// Index `i` is the place of the workspace with `id` in `s`, or the length of `s`.
pub open spec fn is_workspace_index(s: Seq<WorkspaceView>, id: u32, i: int) -> bool {
    &&& 0 <= i <= s.len()
    &&& forall|j: int| 0 <= j < i ==> (#[trigger] s[j]).id != id
    &&& (i < s.len() ==> s[i].id == id)
}

/// The place of the first workspace with `id` in `s`, or the length of `s`.
pub open spec fn workspace_index(s: Seq<WorkspaceView>, id: u32) -> int {
    choose|i: int| is_workspace_index(s, id, i)
}

pub proof fn lemma_workspace_index_unique(s: Seq<WorkspaceView>, id: u32, i: int)
    requires
        is_workspace_index(s, id, i),
    ensures
        workspace_index(s, id) == i,
{
    let c = workspace_index(s, id);
    assert(is_workspace_index(s, id, c));
    if c < i {
        assert(s[c].id != id);
    }
    if i < c {
        assert(s[i].id != id);
    }
}

/// Every list has such an index for every ID.
pub proof fn lemma_workspace_index_exists(s: Seq<WorkspaceView>, id: u32)
    ensures
        is_workspace_index(s, id, workspace_index(s, id)),
    decreases s.len(),
{
    if s.len() == 0 {
        assert(is_workspace_index(s, id, 0));
    } else {
        let t = s.drop_last();
        lemma_workspace_index_exists(t, id);
        let c = workspace_index(t, id);
        if c < t.len() {
            assert(is_workspace_index(s, id, c)) by {
                assert forall|j: int| 0 <= j < c implies (#[trigger] s[j]).id != id by {
                    assert(t[j] == s[j]);
                }
                assert(t[c] == s[c]);
            }
        } else if s.last().id == id {
            assert(is_workspace_index(s, id, t.len() as int)) by {
                assert forall|j: int| 0 <= j < t.len() implies (#[trigger] s[j]).id != id by {
                    assert(t[j] == s[j]);
                }
            }
        } else {
            assert(is_workspace_index(s, id, s.len() as int)) by {
                assert forall|j: int| 0 <= j < s.len() implies (#[trigger] s[j]).id != id by {
                    if j < t.len() {
                        assert(t[j] == s[j]);
                    }
                }
            }
        }
    }
}

/// The windows of the workspaces `s`, workspace by workspace, each from left to right.
pub open spec fn all_leaves(s: Seq<WorkspaceView>) -> Seq<Window>
    decreases s.len(),
{
    if s.len() == 0 {
        Seq::empty()
    } else {
        all_leaves(s.drop_last()) + s.last().leaves()
    }
}

/// Index `i` is the first free handle of `s`: the place of its first `false`, or its length.
pub open spec fn is_first_free(s: Seq<bool>, i: int) -> bool {
    &&& 0 <= i <= s.len()
    &&& forall|j: int| 0 <= j < i ==> #[trigger] s[j]
    &&& (i < s.len() ==> !s[i])
}

/// The first free handle of `s`.
pub open spec fn first_free(s: Seq<bool>) -> int {
    choose|i: int| is_first_free(s, i)
}

pub proof fn lemma_first_free_unique(s: Seq<bool>, i: int)
    requires
        is_first_free(s, i),
    ensures
        first_free(s) == i,
{
    let c = first_free(s);
    if c < i {
        assert(s[c]);
    }
    if i < c {
        assert(s[i]);
    }
}

/// The handles `s` with the first free one taken.
pub open spec fn taken(s: Seq<bool>) -> Seq<bool> {
    if first_free(s) < s.len() {
        s.update(first_free(s), true)
    } else {
        s.push(true)
    }
}

/// The handles `s` with those of the forks that `entries` names as destroyed set free.
pub open spec fn without_forks(s: Seq<bool>, entries: Seq<(usize, ForkEvents)>) -> Seq<bool>
    decreases entries.len(),
{
    if entries.len() == 0 {
        s
    } else {
        let before = without_forks(s, entries.drop_last());
        if entries.last().1.destroy && entries.last().0 < before.len() {
            before.update(entries.last().0 as int, false)
        } else {
            before
        }
    }
}

/// The handles `s` with those of the stacks that `entries` names as destroyed set free.
pub open spec fn without_stacks(s: Seq<bool>, entries: Seq<(usize, StackEvents)>) -> Seq<bool>
    decreases entries.len(),
{
    if entries.len() == 0 {
        s
    } else {
        let before = without_stacks(s, entries.drop_last());
        if entries.last().1.destroy && entries.last().0 < before.len() {
            before.update(entries.last().0 as int, false)
        } else {
            before
        }
    }
}

impl TilerView {
    /// A tiler without displays, workspaces and windows, with workspace 0 on view.
    pub open spec fn empty() -> TilerView {
        TilerView {
            queue: QueueView::empty(),
            active_changed: false,
            active: None,
            active_workspace: 0,
            active_workspace_changed: false,
            registry: Seq::empty(),
            forks: Seq::empty(),
            stacks: Seq::empty(),
            displays: Seq::empty(),
            workspaces: Seq::empty(),
        }
    }

    /// The tiler is well formed: every workspace is; no two workspaces and no two
    /// displays share an ID; every display has a valid area; and every workspace is on a
    /// display of the tiler and has the area of that display.
    pub open spec fn wf(self) -> bool {
        &&& forall|i: int| 0 <= i < self.workspaces.len() ==> (#[trigger] self.workspaces[i]).wf()
        &&& forall|i: int, j: int|
            0 <= i < j < self.workspaces.len() ==> (#[trigger] self.workspaces[i]).id != (
            #[trigger] self.workspaces[j]).id
        &&& forall|i: int, j: int|
            0 <= i < j < self.displays.len() ==> (#[trigger] self.displays[i]).id != (
            #[trigger] self.displays[j]).id
        &&& forall|i: int| 0 <= i < self.displays.len() ==> (#[trigger] self.displays[i]).area.valid()
        &&& forall|i: int|
            0 <= i < self.workspaces.len() ==> self.hosted(#[trigger] self.workspaces[i])
    }

    /// The workspace `w` is on a display of the tiler and has the area of that display.
    pub open spec fn hosted(self, w: WorkspaceView) -> bool {
        &&& display_index(self.displays, w.display) < self.displays.len()
        &&& self.displays[display_index(self.displays, w.display)].area == w.area
    }

    /// The windows in the trees of the tiler: workspace by workspace, each from left to right.
    pub open spec fn windows(self) -> Seq<Window> {
        all_leaves(self.workspaces)
    }

    /// The window `id` as it is in the trees.
    pub open spec fn find(self, id: WindowID) -> Option<Window> {
        if index_of(self.windows(), id) < self.windows().len() {
            Some(self.windows()[index_of(self.windows(), id)])
        } else {
            None
        }
    }

    /// The workspace with `id`, if the tiler has it.
    pub open spec fn workspace(self, id: u32) -> Option<WorkspaceView> {
        if workspace_index(self.workspaces, id) < self.workspaces.len() {
            Some(self.workspaces[workspace_index(self.workspaces, id)])
        } else {
            None
        }
    }

    /// The display with `id`, if the tiler has it.
    pub open spec fn display(self, id: u32) -> Option<Display> {
        if display_index(self.displays, id) < self.displays.len() {
            Some(self.displays[display_index(self.displays, id)])
        } else {
            None
        }
    }

    /// What `action` on `target` does in the first of the workspaces from `i` on that
    /// has the target.
    pub open spec fn applied_from(self, i: int, target: BranchRef, action: Action) -> TilerStep
        decreases self.workspaces.len() - i,
    {
        if i < 0 || i >= self.workspaces.len() {
            TilerStep { tiler: self, found: false, picked: None, made: false }
        } else {
            let r = self.workspaces[i].applied(target, action, self.queue);
            if r.found {
                TilerStep {
                    tiler: TilerView {
                        workspaces: self.workspaces.update(i, r.workspace),
                        queue: r.queue,
                        ..self
                    },
                    found: true,
                    picked: r.picked,
                    made: r.made,
                }
            } else {
                self.applied_from(i + 1, target, action)
            }
        }
    }

    /// What `action` on `target` does in the first workspace that has the target.
    pub open spec fn applied(self, target: BranchRef, action: Action) -> TilerStep {
        self.applied_from(0, target, action)
    }
}

impl TilerView {
    /// The tiler after `sweep` came over its first `n` workspaces.
    pub open spec fn swept_upto(self, n: int, sweep: Sweep) -> TilerView
        decreases n,
    {
        if n <= 0 || n > self.workspaces.len() {
            self
        } else {
            let t = self.swept_upto(n - 1, sweep);
            TilerView {
                workspaces: t.workspaces.update(n - 1, t.workspaces[n - 1].swept(sweep)),
                queue: t.workspaces[n - 1].announce_swept(t.queue, sweep),
                ..t
            }
        }
    }

    /// The tiler after `sweep` came over all its workspaces, in their order.
    pub open spec fn swept(self, sweep: Sweep) -> TilerView {
        self.swept_upto(self.workspaces.len() as int, sweep)
    }

    /// Like `wf`, but the workspaces of the display `from` need not be on a display of
    /// the tiler.
    pub open spec fn wf_but(self, from: u32) -> bool {
        &&& forall|i: int| 0 <= i < self.workspaces.len() ==> (#[trigger] self.workspaces[i]).wf()
        &&& forall|i: int, j: int|
            0 <= i < j < self.workspaces.len() ==> (#[trigger] self.workspaces[i]).id != (
            #[trigger] self.workspaces[j]).id
        &&& forall|i: int, j: int|
            0 <= i < j < self.displays.len() ==> (#[trigger] self.displays[i]).id != (
            #[trigger] self.displays[j]).id
        &&& forall|i: int| 0 <= i < self.displays.len() ==> (#[trigger] self.displays[i]).area.valid()
        &&& forall|i: int|
            0 <= i < self.workspaces.len() ==> (#[trigger] self.workspaces[i]).display == from
                || self.hosted(self.workspaces[i])
    }

    /// The tiler after the display `display` was given the area `area`: the display is
    /// new if the tiler did not have it, and every workspace on it is laid on the area.
    /// An area that is not valid changes nothing.
    pub open spec fn display_update(self, display: u32, area: Rect) -> TilerView {
        if !area.valid() {
            self
        } else {
            let i = display_index(self.displays, display);
            TilerView {
                displays: if i < self.displays.len() {
                    self.displays.update(i, Display { area, ..self.displays[i] })
                } else {
                    self.displays.push(Display { id: display, area, active: None })
                },
                ..self
            }.swept(Sweep::Move { from: display, to: display, area })
        }
    }

    /// The tiler after the display `display` was removed: its workspaces go to the
    /// display of the workspace on view. Nothing changes where the tiler does not have
    /// the display, where it does not have the workspace on view, or where that
    /// workspace is on the display itself.
    pub open spec fn display_detach(self, display: u32) -> TilerView {
        let i = display_index(self.displays, display);
        match self.workspace(self.active_workspace) {
            Some(w) => if i < self.displays.len() && w.display != display {
                TilerView { displays: self.displays.remove(i), ..self }.swept(
                    Sweep::Move { from: display, to: w.display, area: w.area },
                )
            } else {
                self
            },
            None => self,
        }
    }

    /// The tiler after the workspace `workspace` was assigned to the display `display`:
    /// a workspace that the tiler has moves there and is laid on the display's area; one
    /// that it does not have is made, and is the one that the display shows if it
    /// showed none. Nothing changes where the tiler does not have the display.
    pub open spec fn workspace_update(self, workspace: u32, display: u32) -> TilerView {
        let d = display_index(self.displays, display);
        let i = workspace_index(self.workspaces, workspace);
        if d >= self.displays.len() {
            self
        } else if i < self.workspaces.len() {
            if self.workspaces[i].display == display {
                self
            } else {
                TilerView {
                    workspaces: self.workspaces.update(
                        i,
                        self.workspaces[i].moved_to(display, self.displays[d].area),
                    ),
                    queue: self.workspaces[i].moved_to(display, self.displays[d].area).announce(
                        self.queue,
                    ),
                    ..self
                }
            }
        } else {
            TilerView {
                workspaces: self.workspaces.push(
                    WorkspaceView {
                        id: workspace,
                        display,
                        area: self.displays[d].area,
                        fork: None,
                        focus: None,
                    },
                ),
                displays: if self.displays[d].active is None {
                    self.displays.update(d, Display { active: Some(workspace), ..self.displays[d] })
                } else {
                    self.displays
                },
                ..self
            }
        }
    }

    /// The window that has the focus of the workspace `k`, if it is still a window of
    /// that workspace.
    pub open spec fn focus_of(self, k: u32) -> Option<WindowID> {
        match self.workspace(k) {
            Some(w) => match w.focus {
                Some(f) => match self.find(f) {
                    Some(window) => if window.workspace == k {
                        Some(f)
                    } else {
                        None
                    },
                    None => None,
                },
                None => None,
            },
            None => None,
        }
    }

    /// The tiler with the workspace `k` made beside the workspace on view, on the same
    /// display, where the tiler has the second and not the first.
    pub open spec fn with_workspace(self, k: u32) -> TilerView {
        match self.workspace(self.active_workspace) {
            Some(home) => if self.workspace(k) is None {
                TilerView {
                    workspaces: self.workspaces.push(
                        WorkspaceView {
                            id: k,
                            display: home.display,
                            area: home.area,
                            fork: None,
                            focus: None,
                        },
                    ),
                    ..self
                }
            } else {
                self
            },
            None => self,
        }
    }

    /// The tiler after a switch to the workspace `k`. Nothing changes where `k` is on
    /// view already. Else every window of another workspace is hidden, every window of
    /// `k` is shown unless it is a member of a stack that is not the raised one, and each
    /// change is recorded; the workspace is made if need be; `k` is on view; and the
    /// window that has the focus of `k` is the active one.
    pub open spec fn workspace_switch(self, k: u32) -> TilerView {
        if k == self.active_workspace {
            self
        } else {
            let t = TilerView {
                active_workspace: k,
                active_workspace_changed: true,
                ..self.swept(Sweep::View(k)).with_workspace(k)
            };
            match t.focus_of(k) {
                Some(f) => TilerView { active: Some(f), active_changed: true, ..t },
                None => t,
            }
        }
    }

    /// The tiler with the window `id` as the active one, after a switch to the workspace
    /// of that window. A window that is in no tree changes nothing.
    pub open spec fn with_active(self, id: WindowID) -> TilerView {
        match self.find(id) {
            Some(w) => TilerView {
                active: Some(id),
                active_changed: true,
                ..self.workspace_switch(w.workspace)
            },
            None => self,
        }
    }
}

/// What a sweep leaves as it was, and what it does to each workspace.
pub proof fn lemma_swept_upto(t: TilerView, n: int, sweep: Sweep)
    requires
        n <= t.workspaces.len(),
    ensures
        t.swept_upto(n, sweep) == (TilerView {
            workspaces: t.swept_upto(n, sweep).workspaces,
            queue: t.swept_upto(n, sweep).queue,
            ..t
        }),
        t.swept_upto(n, sweep).workspaces.len() == t.workspaces.len(),
        forall|k: int|
            0 <= k < t.workspaces.len() ==> #[trigger] t.swept_upto(n, sweep).workspaces[k] == if k
                < n {
                t.workspaces[k].swept(sweep)
            } else {
                t.workspaces[k]
            },
    decreases n,
{
    if n > 0 {
        lemma_swept_upto(t, n - 1, sweep);
    }
}

/// A display keeps its index when the displays before it keep their IDs.
pub proof fn lemma_display_index_kept(s: Seq<Display>, t: Seq<Display>, id: u32)
    requires
        display_index(s, id) < s.len(),
        t.len() >= s.len(),
        forall|j: int| 0 <= j < s.len() ==> (#[trigger] s[j]).id == t[j].id,
    ensures
        display_index(t, id) == display_index(s, id),
{
    lemma_display_index_exists(s, id);
    let c = display_index(s, id);
    assert(is_display_index(t, id, c)) by {
        assert forall|j: int| 0 <= j < c implies (#[trigger] t[j]).id != id by {
            assert(s[j].id != id);
        }
        assert(s[c].id == t[c].id);
    }
    lemma_display_index_unique(t, id, c);
}

/// A sweep that moves the workspaces of a display to a display of the tiler leaves the
/// tiler well formed, with its displays.
pub proof fn lemma_moved_wf(t: TilerView, from: u32, to: u32, area: Rect)
    requires
        t.wf_but(from),
        area.valid(),
        display_index(t.displays, to) < t.displays.len(),
        t.displays[display_index(t.displays, to)].area == area,
    ensures
        t.swept(Sweep::Move { from, to, area }).wf(),
        t.swept(Sweep::Move { from, to, area }).displays == t.displays,
{
    let sweep = Sweep::Move { from, to, area };
    let u = t.swept(sweep);
    lemma_swept_upto(t, t.workspaces.len() as int, sweep);
    assert forall|k: int| 0 <= k < u.workspaces.len() implies (#[trigger] u.workspaces[k]).wf()
        && u.hosted(u.workspaces[k]) by {
        lemma_workspace_swept(t.workspaces[k], sweep);
        assert(u.workspaces[k] == t.workspaces[k].swept(sweep));
    }
    assert forall|k: int, j: int| 0 <= k < j < u.workspaces.len() implies (
    #[trigger] u.workspaces[k]).id != (#[trigger] u.workspaces[j]).id by {
        lemma_workspace_swept(t.workspaces[k], sweep);
        lemma_workspace_swept(t.workspaces[j], sweep);
        assert(t.workspaces[k].id != t.workspaces[j].id);
    }
}

/// A sweep that shows and hides windows, or exchanges two names, leaves the tiler well
/// formed. After the first, every window is visible exactly if it is on the workspace
/// that the sweep names and is not a member of a stack that is not the raised one.
pub proof fn lemma_swept_wf(t: TilerView, sweep: Sweep)
    requires
        t.wf(),
        !(sweep is Move),
    ensures
        t.swept(sweep).wf(),
        t.swept(sweep).displays == t.displays,
        t.swept(sweep).workspaces.len() == t.workspaces.len(),
        forall|k: int|
            0 <= k < t.workspaces.len() ==> (#[trigger] t.swept(sweep).workspaces[k]).id
                == t.workspaces[k].id,
        sweep matches Sweep::View(on_view) ==> forall|k: int|
            0 <= k < t.workspaces.len() ==> (#[trigger] t.swept(sweep).workspaces[k]).shown(
                t.workspaces[k].id == on_view,
            ),
{
    let u = t.swept(sweep);
    lemma_swept_upto(t, t.workspaces.len() as int, sweep);
    assert forall|k: int| 0 <= k < u.workspaces.len() implies (#[trigger] u.workspaces[k]).wf()
        && u.hosted(u.workspaces[k]) && u.workspaces[k].id == t.workspaces[k].id && (
    sweep matches Sweep::View(on_view) ==> u.workspaces[k].shown(t.workspaces[k].id == on_view)) by {
        lemma_workspace_swept(t.workspaces[k], sweep);
        assert(u.workspaces[k] == t.workspaces[k].swept(sweep));
        assert(t.hosted(t.workspaces[k]));
    }
    assert forall|k: int, j: int| 0 <= k < j < u.workspaces.len() implies (
    #[trigger] u.workspaces[k]).id != (#[trigger] u.workspaces[j]).id by {
        assert(t.workspaces[k].id != t.workspaces[j].id);
    }
}


/// Giving a display an area, or a new display, and laying its workspaces on the area
/// leaves the tiler well formed.
pub proof fn lemma_display_update_wf(t: TilerView, display: u32, area: Rect)
    requires
        t.wf(),
    ensures
        t.display_update(display, area).wf(),
{
    if area.valid() {
        lemma_display_index_exists(t.displays, display);
        let i = display_index(t.displays, display);
        let displays = if i < t.displays.len() {
            t.displays.update(i, Display { area, ..t.displays[i] })
        } else {
            t.displays.push(Display { id: display, area, active: None })
        };
        let u = TilerView { displays, ..t };
        assert(is_display_index(displays, display, i)) by {
            assert forall|j: int| 0 <= j < i implies (#[trigger] displays[j]).id != display by {
                assert(t.displays[j].id != display);
            }
        }
        lemma_display_index_unique(displays, display, i);
        assert forall|k: int| 0 <= k < u.workspaces.len() implies (#[trigger] u.workspaces[k]).display
            == display || u.hosted(u.workspaces[k]) by {
            let w = t.workspaces[k];
            assert(t.hosted(w));
            if w.display != display {
                lemma_display_index_exists(t.displays, w.display);
                lemma_display_index_kept(t.displays, displays, w.display);
                let j = display_index(t.displays, w.display);
                assert(j != i);
                assert(displays[j] == t.displays[j]);
            }
        }
        assert forall|a: int, b: int| 0 <= a < b < displays.len() implies (#[trigger] displays[a]).id
            != (#[trigger] displays[b]).id by {
            if b < t.displays.len() {
                assert(t.displays[a].id != t.displays[b].id);
            } else {
                assert(t.displays[a].id != display);
            }
        }
        assert(u.wf_but(display));
        lemma_moved_wf(u, display, display, area);
    }
}

/// A display keeps its area, and stays a display of the list, when another is removed.
pub proof fn lemma_display_removed(s: Seq<Display>, i: int, id: u32)
    requires
        0 <= i < s.len(),
        s[i].id != id,
        display_index(s, id) < s.len(),
    ensures
        display_index(s.remove(i), id) < s.remove(i).len(),
        s.remove(i)[display_index(s.remove(i), id)].area == s[display_index(s, id)].area,
{
    lemma_display_index_exists(s, id);
    let t = s.remove(i);
    let j = display_index(s, id);
    let c = if j < i {
        j
    } else {
        j - 1
    };
    assert(is_display_index(t, id, c)) by {
        assert forall|m: int| 0 <= m < c implies (#[trigger] t[m]).id != id by {
            if m < i {
                assert(t[m] == s[m]);
            } else {
                assert(t[m] == s[m + 1]);
            }
        }
    }
    lemma_display_index_unique(t, id, c);
}

/// Removing a display and moving its workspaces to the display of the workspace on view
/// leaves the tiler well formed.
pub proof fn lemma_display_detach_wf(t: TilerView, display: u32)
    requires
        t.wf(),
    ensures
        t.display_detach(display).wf(),
{
    lemma_display_index_exists(t.displays, display);
    lemma_workspace_index_exists(t.workspaces, t.active_workspace);
    let i = display_index(t.displays, display);
    match t.workspace(t.active_workspace) {
        Some(w) => {
            if i < t.displays.len() && w.display != display {
                let displays = t.displays.remove(i);
                let u = TilerView { displays, ..t };
                assert forall|k: int| 0 <= k < u.workspaces.len() implies (
                #[trigger] u.workspaces[k]).display == display || u.hosted(u.workspaces[k]) by {
                    assert(t.hosted(t.workspaces[k]));
                    if t.workspaces[k].display != display {
                        lemma_display_removed(t.displays, i, t.workspaces[k].display);
                    }
                }
                assert forall|a: int, b: int| 0 <= a < b < displays.len() implies (
                #[trigger] displays[a]).id != (#[trigger] displays[b]).id by {
                    let a0 = if a < i {
                        a
                    } else {
                        a + 1
                    };
                    let b0 = if b < i {
                        b
                    } else {
                        b + 1
                    };
                    assert(t.displays[a0].id != t.displays[b0].id);
                }
                assert forall|a: int| 0 <= a < displays.len() implies (#[trigger] displays[a]).area.valid() by {
                    let a0 = if a < i {
                        a
                    } else {
                        a + 1
                    };
                    assert(t.displays[a0].area.valid());
                }
                assert(t.hosted(w));
                lemma_display_removed(t.displays, i, w.display);
                assert(u.wf_but(display));
                lemma_moved_wf(u, display, w.display, w.area);
            }
        },
        None => {},
    }
}

/// Assigning a workspace to a display leaves the tiler well formed.
pub proof fn lemma_workspace_update_wf(t: TilerView, workspace: u32, display: u32)
    requires
        t.wf(),
    ensures
        t.workspace_update(workspace, display).wf(),
{
    lemma_display_index_exists(t.displays, display);
    lemma_workspace_index_exists(t.workspaces, workspace);
    let d = display_index(t.displays, display);
    let i = workspace_index(t.workspaces, workspace);
    let u = t.workspace_update(workspace, display);
    if d < t.displays.len() {
        if i < t.workspaces.len() {
            if t.workspaces[i].display != display {
                crate::workspace::lemma_workspace_steps(
                    t.workspaces[i],
                    display,
                    t.displays[d].area,
                    true,
                    WindowID(0, 0),
                    WindowID(0, 0),
                );
                assert forall|k: int| 0 <= k < u.workspaces.len() implies (
                #[trigger] u.workspaces[k]).wf() && u.hosted(u.workspaces[k]) by {
                    assert(t.hosted(t.workspaces[k]));
                }
                assert forall|k: int, j: int| 0 <= k < j < u.workspaces.len() implies (
                #[trigger] u.workspaces[k]).id != (#[trigger] u.workspaces[j]).id by {
                    assert(t.workspaces[k].id != t.workspaces[j].id);
                }
            }
        } else {
            assert forall|a: int, b: int| 0 <= a < b < u.displays.len() implies (
            #[trigger] u.displays[a]).id != (#[trigger] u.displays[b]).id by {
                assert(t.displays[a].id != t.displays[b].id);
            }
            assert forall|a: int| 0 <= a < u.displays.len() implies (#[trigger] u.displays[a]).area.valid() by {
                assert(t.displays[a].area.valid());
            }
            assert forall|k: int| 0 <= k < u.workspaces.len() implies (#[trigger] u.workspaces[k]).wf()
                && u.hosted(u.workspaces[k]) by {
                assert(t.displays[d].area.valid());
                if k < t.workspaces.len() {
                    assert(u.workspaces[k] == t.workspaces[k]);
                    assert(t.workspaces[k].wf());
                    assert(t.hosted(t.workspaces[k]));
                }
                lemma_display_index_exists(t.displays, u.workspaces[k].display);
                lemma_display_index_kept(t.displays, u.displays, u.workspaces[k].display);
                let j = display_index(t.displays, u.workspaces[k].display);
                assert(u.displays[j].area == t.displays[j].area);
            }
            assert forall|k: int, j: int| 0 <= k < j < u.workspaces.len() implies (
            #[trigger] u.workspaces[k]).id != (#[trigger] u.workspaces[j]).id by {
                if j < t.workspaces.len() {
                    assert(t.workspaces[k].id != t.workspaces[j].id);
                } else {
                    assert(t.workspaces[k].id != workspace);
                }
            }
        }
    }
}

/// Making a workspace beside the workspace on view leaves the tiler well formed.
pub proof fn lemma_with_workspace_wf(t: TilerView, k: u32)
    requires
        t.wf(),
    ensures
        t.with_workspace(k).wf(),
{
    lemma_workspace_index_exists(t.workspaces, k);
    lemma_workspace_index_exists(t.workspaces, t.active_workspace);
    let u = t.with_workspace(k);
    match t.workspace(t.active_workspace) {
        Some(home) => {
            if t.workspace(k) is None {
                assert(t.hosted(home));
                assert(home.wf());
                assert forall|i: int| 0 <= i < u.workspaces.len() implies (#[trigger] u.workspaces[i]).wf()
                    && u.hosted(u.workspaces[i]) by {
                    if i < t.workspaces.len() {
                        assert(t.hosted(t.workspaces[i]));
                    }
                }
                assert forall|i: int, j: int| 0 <= i < j < u.workspaces.len() implies (
                #[trigger] u.workspaces[i]).id != (#[trigger] u.workspaces[j]).id by {
                    if j < t.workspaces.len() {
                        assert(t.workspaces[i].id != t.workspaces[j].id);
                    } else {
                        assert(t.workspaces[i].id != k);
                    }
                }
            }
        },
        None => {},
    }
}

/// A switch of workspaces leaves the tiler well formed. Where it changes the workspace
/// on view, every window is visible afterwards exactly if it is on that workspace and is
/// not a member of a stack that is not the raised one.
pub proof fn lemma_workspace_switch_wf(t: TilerView, k: u32)
    requires
        t.wf(),
    ensures
        t.workspace_switch(k).wf(),
        t.workspace_switch(k).active_workspace == k,
        k != t.active_workspace ==> forall|i: int|
            0 <= i < t.workspace_switch(k).workspaces.len() ==> (
            #[trigger] t.workspace_switch(k).workspaces[i]).shown(
                t.workspace_switch(k).workspaces[i].id == k,
            ),
{
    if k != t.active_workspace {
        lemma_swept_wf(t, Sweep::View(k));
        let s = t.swept(Sweep::View(k));
        lemma_with_workspace_wf(s, k);
        let u = s.with_workspace(k);
        assert forall|i: int| 0 <= i < u.workspaces.len() implies (#[trigger] u.workspaces[i]).shown(
            u.workspaces[i].id == k,
        ) by {
            if i < s.workspaces.len() {
                assert(u.workspaces[i] == s.workspaces[i]);
                assert(s.workspaces[i].shown(t.workspaces[i].id == k));
            }
        }
    }
}

/// Making a window the active one leaves the tiler well formed.
pub proof fn lemma_with_active_wf(t: TilerView, id: WindowID)
    requires
        t.wf(),
    ensures
        t.with_active(id).wf(),
{
    match t.find(id) {
        Some(w) => {
            lemma_workspace_switch_wf(t, w.workspace);
        },
        None => {},
    }
}

impl TilerView {
    /// The tiler with the first free fork handle taken, where a fork was made.
    pub open spec fn with_fork_made(self, made: bool) -> TilerView {
        if made {
            TilerView { forks: taken(self.forks), ..self }
        } else {
            self
        }
    }

    /// The tiler with the first free stack handle taken, where a stack was made.
    pub open spec fn with_stack_made(self, made: bool) -> TilerView {
        if made {
            TilerView { stacks: taken(self.stacks), ..self }
        } else {
            self
        }
    }

    /// The tiler without an active window.
    pub open spec fn without_active(self) -> TilerView {
        TilerView { active: None, active_changed: false, ..self }
    }

    /// Whether the window `id` is in the registry.
    pub open spec fn registered(self, id: WindowID) -> bool {
        place_of(self.registry, id) < self.registry.len()
    }

    /// The tiler with the window `id` as the last of the registry.
    pub open spec fn with_registered(self, id: WindowID) -> TilerView {
        TilerView { registry: self.registry.push(id), ..self }
    }

    /// The tiler without the window `id` in the registry.
    pub open spec fn without_registered(self, id: WindowID) -> TilerView {
        TilerView { registry: forget(self.registry, id), ..self }
    }

    /// The tiler after the window `id` was attached beside the window `anchor`, and
    /// registered. A fork that this makes has the first free fork handle. Nothing
    /// changes where `anchor` is in no tree.
    pub open spec fn attach_to_window(self, id: WindowID, anchor: WindowID) -> TilerView {
        let step = self.applied(
            BranchRef::Window(anchor),
            Action::Attach(Window::fresh(id), first_free(self.forks) as usize),
        );
        if step.found {
            step.tiler.with_fork_made(step.made).with_registered(id)
        } else {
            step.tiler
        }
    }

    /// The tiler after the window `id` was attached to the workspace on view and made the
    /// active window: beside the largest window of the workspace, or, where it has none,
    /// as its first window, under a new root with the first free fork handle. Nothing
    /// changes where the tiler does not have the workspace on view.
    pub open spec fn attach_to_workspace(self, id: WindowID) -> TilerView {
        let i = workspace_index(self.workspaces, self.active_workspace);
        if i >= self.workspaces.len() {
            self
        } else {
            let w = self.workspaces[i];
            let t = match largest_of(w.leaves()) {
                Some(a) => self.attach_to_window(id, a.id),
                None => TilerView {
                    workspaces: self.workspaces.update(
                        i,
                        WorkspaceView { fork: None, ..w }.planted(
                            Window::fresh(id),
                            first_free(self.forks) as usize,
                        ),
                    ),
                    queue: w.announce_planted(
                        self.queue,
                        Window::fresh(id),
                        first_free(self.forks) as usize,
                    ),
                    forks: taken(self.forks),
                    registry: self.registry.push(id),
                    ..self
                },
            };
            TilerView { active: Some(id), active_changed: true, ..t }
        }
    }

    /// The window beside which a new window is attached: the active window, where it is
    /// in a tree, on whichever workspace.
    pub open spec fn anchor(self) -> Option<WindowID> {
        match self.active {
            Some(a) => if self.find(a) is Some {
                Some(a)
            } else {
                None
            },
            None => None,
        }
    }

    /// The tiler after the window `id` was attached: beside the active window, or, where
    /// there is none, to the workspace on view. A window that is in a tree already
    /// changes nothing.
    pub open spec fn attach(self, id: WindowID) -> TilerView {
        if self.find(id) is Some {
            self
        } else {
            match self.anchor() {
                Some(a) => self.attach_to_window(id, a),
                None => self.attach_to_workspace(id),
            }
        }
    }

    /// The tiler after the window `id` was taken out of its tree and out of the
    /// registry. Where it was the active window, there is none.
    pub open spec fn detach(self, id: WindowID) -> TilerView {
        let step = self.applied(BranchRef::Window(id), Action::Detach);
        if !step.found {
            step.tiler
        } else if self.active == Some(id) {
            step.tiler.without_registered(id).without_active()
        } else {
            step.tiler.without_registered(id)
        }
    }

    /// The tiler after the window `id` was given the focus: it is raised in its stack, if
    /// it is in one, and is the active window. Nothing changes where it is the active
    /// window already or is in no tree.
    pub open spec fn focus(self, id: WindowID) -> TilerView {
        match self.find(id) {
            None => self,
            Some(w) => if self.active == Some(id) {
                self
            } else if w.stack is Some {
                self.applied(BranchRef::Window(id), Action::Raise).tiler.with_active(id)
            } else {
                self.with_active(id)
            },
        }
    }

    /// The window that is nearest to the active window in `direction`, if focus can go
    /// to any.
    pub open spec fn window_in_direction(self, direction: Direction) -> Option<Window> {
        match self.active {
            Some(a) => match self.find(a) {
                Some(w) => nearest_of(self.windows(), w, direction),
                None => None,
            },
            None => None,
        }
    }

    /// The display that is nearest to the display of the workspace on view in
    /// `direction`, if focus can go to any.
    pub open spec fn display_in_direction(self, direction: Direction) -> Option<Display> {
        match self.workspace(self.active_workspace) {
            Some(w) => match self.display(w.display) {
                Some(d) => nearest_display_of(self.displays, d, direction),
                None => None,
            },
            None => None,
        }
    }

    /// The tiler after focus went to the display `d`: to the window that has the focus of
    /// the workspace that the display shows.
    pub open spec fn focus_display(self, d: Display) -> TilerView {
        match d.active {
            Some(k) => match self.workspace(k) {
                Some(w) => if w.display == d.id {
                    match self.focus_of(k) {
                        Some(f) => self.with_active(f),
                        None => self,
                    }
                } else {
                    self
                },
                None => self,
            },
            None => self,
        }
    }

    /// The tiler after focus went to the nearest display in `direction`, if there is one.
    pub open spec fn focus_display_toward(self, direction: Direction) -> TilerView {
        match self.display_in_direction(direction) {
            Some(d) => self.focus_display(d),
            None => self,
        }
    }

    /// The tiler after focus went in `direction`: to the nearest window that it can go
    /// to, or else to the nearest display.
    pub open spec fn focus_toward(self, direction: Direction) -> TilerView {
        match self.window_in_direction(direction) {
            Some(w) => self.with_active(w.id),
            None => self.focus_display_toward(direction),
        }
    }

    /// The tiler after focus went left or right with regard to stacks: to the neighbour
    /// of the raised member in the stack of the active window, where there is one, or
    /// else in the direction. Nothing changes without an active window.
    pub open spec fn focus_in_stack(self, before: bool) -> TilerView {
        let direction = if before {
            Direction::Left
        } else {
            Direction::Right
        };
        match self.active {
            None => self,
            Some(a) => {
                let step = self.applied(
                    BranchRef::Window(a),
                    if before {
                        Action::SelectLeft
                    } else {
                        Action::SelectRight
                    },
                );
                match step.picked {
                    Some(m) => step.tiler.with_active(m),
                    None => step.tiler.focus_toward(direction),
                }
            },
        }
    }

    /// The tiler after the active window moved in `direction`. Out of a stack it moves to
    /// the side of the stack. Else it changes places with the nearest window in that
    /// direction where one fork holds both, or else is detached, attached beside that
    /// window and made the active window again.
    pub open spec fn move_toward(self, direction: Direction) -> TilerView {
        match self.active {
            None => self,
            Some(a) => match self.find(a) {
                None => self,
                Some(w) => if w.stack is Some {
                    let step = self.applied(
                        BranchRef::Window(a),
                        Action::MoveOut(direction, first_free(self.forks) as usize),
                    );
                    step.tiler.with_fork_made(step.made)
                } else {
                    match nearest_of(self.windows(), w, direction) {
                        None => self,
                        Some(t) => if t.fork == w.fork {
                            self.applied(BranchRef::Window(a), Action::Flip).tiler
                        } else {
                            self.detach(a).attach_to_window(a, t.id).with_active(a)
                        },
                    }
                },
            },
        }
    }

    /// The tiler after the active window moved left or right with regard to stacks: among
    /// the members of its stack where it is the raised member and has a neighbour there,
    /// or else in the direction.
    pub open spec fn move_in_stack(self, before: bool) -> TilerView {
        let direction = if before {
            Direction::Left
        } else {
            Direction::Right
        };
        match self.active {
            None => self,
            Some(a) => {
                let step = self.applied(
                    BranchRef::Window(a),
                    if before {
                        Action::ShiftLeft
                    } else {
                        Action::ShiftRight
                    },
                );
                match step.picked {
                    Some(_) => step.tiler,
                    None => step.tiler.move_toward(direction),
                }
            },
        }
    }

    /// The tiler after the fork that holds the active window was turned.
    pub open spec fn toggle_orientation(self) -> TilerView {
        match self.active {
            Some(a) => self.applied(BranchRef::Window(a), Action::ToggleOrientation).tiler,
            None => self,
        }
    }

    /// The tiler after the active window was put into a stack of its own, with the first
    /// free stack handle, or taken out of its stack. A window that leaves a stack with
    /// other members leaves the tree and the registry, and is the active window no longer.
    pub open spec fn stack_toggle(self) -> TilerView {
        match self.active {
            Some(a) => {
                let step = self.applied(
                    BranchRef::Window(a),
                    Action::ToggleStack(first_free(self.stacks) as usize),
                );
                let t = step.tiler.with_stack_made(step.made);
                if t.find(a) is None {
                    t.without_registered(a).without_active()
                } else {
                    t
                }
            },
            None => self,
        }
    }

    /// The tiler after the windows `a` and `b` changed places: each lies where the other
    /// lay, and the forks or stacks that hold them are laid out again. Nothing changes
    /// where the two are one window, or one of them is in no tree.
    pub open spec fn swap(self, a: WindowID, b: WindowID) -> TilerView {
        if a == b || self.find(a) is None || self.find(b) is None {
            self
        } else {
            self.swept(Sweep::Rename(a, b)).applied(
                BranchRef::Window(b),
                Action::Refresh,
            ).tiler.applied(BranchRef::Window(a), Action::Refresh).tiler
        }
    }

    /// The tiler after the fork `handle` was given the split `split`.
    pub open spec fn fork_resize(self, handle: usize, split: u32) -> TilerView {
        self.applied(BranchRef::Fork(handle), Action::Resize(split)).tiler
    }

    /// The events that a drain gives: those of the queue, then the workspace on view if
    /// it changed, then the active window if it changed.
    pub open spec fn events(self) -> Seq<Event> {
        self.queue.drained() + (if self.active_workspace_changed {
            seq![Event::FocusWorkspace(self.active_workspace)]
        } else {
            Seq::empty()
        }) + (match self.active {
            Some(a) => if self.active_changed {
                seq![Event::Focus(a)]
            } else {
                Seq::empty()
            },
            None => Seq::empty(),
        })
    }

    /// The tiler after a drain: the queue is empty, nothing is marked as changed, and the
    /// handles of the forks and stacks that were destroyed are free.
    pub open spec fn drained(self) -> TilerView {
        TilerView {
            queue: QueueView::empty(),
            active_changed: false,
            active_workspace_changed: false,
            forks: without_forks(self.forks, self.queue.forks),
            stacks: without_stacks(self.stacks, self.queue.stacks),
            ..self
        }
    }
}

/// A tiler with the workspaces and displays of a well-formed tiler is well formed.
pub proof fn lemma_same_trees_wf(t: TilerView, u: TilerView)
    requires
        t.wf(),
        u.workspaces == t.workspaces,
        u.displays == t.displays,
    ensures
        u.wf(),
{
    assert forall|i: int| 0 <= i < u.workspaces.len() implies u.hosted(#[trigger] u.workspaces[i]) by {
        assert(t.hosted(t.workspaces[i]));
    }
}

/// Attaching a window beside another leaves a well-formed tiler well formed.
pub proof fn lemma_attach_to_window_wf(t: TilerView, id: WindowID, anchor: WindowID)
    requires
        t.wf(),
    ensures
        t.attach_to_window(id, anchor).wf(),
{
    let action = Action::Attach(Window::fresh(id), first_free(t.forks) as usize);
    lemma_tiler_applied(t, 0, BranchRef::Window(anchor), action);
    lemma_same_trees_wf(
        t.applied(BranchRef::Window(anchor), action).tiler,
        t.attach_to_window(id, anchor),
    );
}

/// Attaching a window leaves a well-formed tiler well formed.
pub proof fn lemma_attach_wf(t: TilerView, id: WindowID)
    requires
        t.wf(),
    ensures
        t.attach(id).wf(),
{
    match t.anchor() {
        Some(x) => {
            lemma_attach_to_window_wf(t, id, x);
        },
        None => {
            lemma_attach_to_workspace_wf(t, id);
        },
    }
}

/// Detaching a window leaves a well-formed tiler well formed.
pub proof fn lemma_detach_wf(t: TilerView, id: WindowID)
    requires
        t.wf(),
    ensures
        t.detach(id).wf(),
{
    lemma_tiler_applied(t, 0, BranchRef::Window(id), Action::Detach);
    lemma_same_trees_wf(t.applied(BranchRef::Window(id), Action::Detach).tiler, t.detach(id));
}

/// Giving a window the focus leaves a well-formed tiler well formed.
pub proof fn lemma_focus_on_wf(t: TilerView, id: WindowID)
    requires
        t.wf(),
    ensures
        t.focus(id).wf(),
{
    lemma_tiler_applied(t, 0, BranchRef::Window(id), Action::Raise);
    lemma_with_active_wf(t, id);
    lemma_with_active_wf(t.applied(BranchRef::Window(id), Action::Raise).tiler, id);
}

/// Turning the fork of the active window, or putting the active window into a stack or
/// taking it out of one, leaves a well-formed tiler well formed.
pub proof fn lemma_toggles_wf(t: TilerView)
    requires
        t.wf(),
    ensures
        t.toggle_orientation().wf(),
        t.stack_toggle().wf(),
{
    match t.active {
        Some(x) => {
            lemma_tiler_applied(t, 0, BranchRef::Window(x), Action::ToggleOrientation);
            let action = Action::ToggleStack(first_free(t.stacks) as usize);
            lemma_tiler_applied(t, 0, BranchRef::Window(x), action);
            lemma_same_trees_wf(t.applied(BranchRef::Window(x), action).tiler, t.stack_toggle());
        },
        None => {},
    }
}

/// A swap of two windows leaves a well-formed tiler well formed.
pub proof fn lemma_swap_wf(t: TilerView, a: WindowID, b: WindowID)
    requires
        t.wf(),
    ensures
        t.swap(a, b).wf(),
{
    lemma_swept_wf(t, Sweep::Rename(a, b));
    let t1 = t.swept(Sweep::Rename(a, b));
    lemma_tiler_applied(t1, 0, BranchRef::Window(b), Action::Refresh);
    lemma_tiler_applied(
        t1.applied(BranchRef::Window(b), Action::Refresh).tiler,
        0,
        BranchRef::Window(a),
        Action::Refresh,
    );
}

/// Each command that works on a window leaves a well-formed tiler well formed, and so
/// does a drain.
pub proof fn lemma_commands_wf(t: TilerView, a: WindowID, b: WindowID)
    requires
        t.wf(),
    ensures
        t.attach(a).wf(),
        t.detach(a).wf(),
        t.focus(a).wf(),
        t.toggle_orientation().wf(),
        t.stack_toggle().wf(),
        t.swap(a, b).wf(),
        t.drained().wf(),
{
    lemma_attach_wf(t, a);
    lemma_detach_wf(t, a);
    lemma_focus_on_wf(t, a);
    lemma_toggles_wf(t);
    lemma_swap_wf(t, a, b);
    lemma_same_trees_wf(t, t.drained());
}

/// Attaching a window to the workspace on view leaves the tiler well formed.
pub proof fn lemma_attach_to_workspace_wf(t: TilerView, id: WindowID)
    requires
        t.wf(),
    ensures
        t.attach_to_workspace(id).wf(),
{
    lemma_workspace_index_exists(t.workspaces, t.active_workspace);
    let i = workspace_index(t.workspaces, t.active_workspace);
    if i < t.workspaces.len() {
        let w = t.workspaces[i];
        match largest_of(w.leaves()) {
            Some(a) => {
                lemma_attach_to_window_wf(t, id, a.id);
                lemma_same_trees_wf(t.attach_to_window(id, a.id), t.attach_to_workspace(id));
            },
            None => {
                let w0 = WorkspaceView { fork: None, ..w };
                assert(w.wf());
                lemma_workspace_planted(w0, Window::fresh(id), first_free(t.forks) as usize);
                let u = t.attach_to_workspace(id);
                assert forall|k: int| 0 <= k < u.workspaces.len() implies (
                #[trigger] u.workspaces[k]).wf() && u.hosted(u.workspaces[k]) by {
                    assert(t.hosted(t.workspaces[k]));
                }
                assert forall|k: int, j: int| 0 <= k < j < u.workspaces.len() implies (
                #[trigger] u.workspaces[k]).id != (#[trigger] u.workspaces[j]).id by {
                    assert(t.workspaces[k].id != t.workspaces[j].id);
                }
            },
        }
    }
}

/// Focus that goes to a display or in a direction leaves a well-formed tiler well formed.
pub proof fn lemma_focus_wf(t: TilerView, direction: Direction, before: bool)
    requires
        t.wf(),
    ensures
        t.focus_display_toward(direction).wf(),
        t.focus_toward(direction).wf(),
        t.focus_in_stack(before).wf(),
{
    match t.display_in_direction(direction) {
        Some(d) => {
            match d.active {
                Some(k) => {
                    match t.focus_of(k) {
                        Some(f) => {
                            lemma_with_active_wf(t, f);
                        },
                        None => {},
                    }
                },
                None => {},
            }
        },
        None => {},
    }
    match t.window_in_direction(direction) {
        Some(w) => {
            lemma_with_active_wf(t, w.id);
        },
        None => {},
    }
    match t.active {
        Some(a) => {
            let action = if before {
                Action::SelectLeft
            } else {
                Action::SelectRight
            };
            lemma_tiler_applied(t, 0, BranchRef::Window(a), action);
            let step = t.applied(BranchRef::Window(a), action);
            match step.picked {
                Some(m) => {
                    lemma_with_active_wf(step.tiler, m);
                },
                None => {
                    lemma_focus_toward_wf(
                        step.tiler,
                        if before {
                            Direction::Left
                        } else {
                            Direction::Right
                        },
                    );
                },
            }
        },
        None => {},
    }
}

/// Focus that goes in a direction leaves a well-formed tiler well formed.
pub proof fn lemma_focus_toward_wf(t: TilerView, direction: Direction)
    requires
        t.wf(),
    ensures
        t.focus_toward(direction).wf(),
{
    match t.display_in_direction(direction) {
        Some(d) => {
            match d.active {
                Some(k) => {
                    match t.focus_of(k) {
                        Some(f) => {
                            lemma_with_active_wf(t, f);
                        },
                        None => {},
                    }
                },
                None => {},
            }
        },
        None => {},
    }
    match t.window_in_direction(direction) {
        Some(w) => {
            lemma_with_active_wf(t, w.id);
        },
        None => {},
    }
}

/// A move of the active window leaves a well-formed tiler well formed.
pub proof fn lemma_move_wf(t: TilerView, direction: Direction, before: bool)
    requires
        t.wf(),
    ensures
        t.move_toward(direction).wf(),
        t.move_in_stack(before).wf(),
{
    lemma_move_toward_wf(t, direction);
    match t.active {
        Some(a) => {
            let action = if before {
                Action::ShiftLeft
            } else {
                Action::ShiftRight
            };
            lemma_tiler_applied(t, 0, BranchRef::Window(a), action);
            let step = t.applied(BranchRef::Window(a), action);
            lemma_move_toward_wf(
                step.tiler,
                if before {
                    Direction::Left
                } else {
                    Direction::Right
                },
            );
        },
        None => {},
    }
}

/// A move of the active window in a direction leaves a well-formed tiler well formed.
pub proof fn lemma_move_toward_wf(t: TilerView, direction: Direction)
    requires
        t.wf(),
    ensures
        t.move_toward(direction).wf(),
{
    match t.active {
        Some(a) => {
            lemma_tiler_applied(
                t,
                0,
                BranchRef::Window(a),
                Action::MoveOut(direction, first_free(t.forks) as usize),
            );
            lemma_tiler_applied(t, 0, BranchRef::Window(a), Action::Flip);
            lemma_tiler_applied(t, 0, BranchRef::Window(a), Action::Detach);
            match t.find(a) {
                Some(w) => {
                    match nearest_of(t.windows(), w, direction) {
                        Some(other) => {
                            let d = t.detach(a);
                            lemma_tiler_applied(
                                d,
                                0,
                                BranchRef::Window(other.id),
                                Action::Attach(Window::fresh(a), first_free(d.forks) as usize),
                            );
                            lemma_with_active_wf(d.attach_to_window(a, other.id), a);
                        },
                        None => {},
                    }
                },
                None => {},
            }
        },
        None => {},
    }
}

impl View for Tiler {
    type V = TilerView;

    closed spec fn view(&self) -> TilerView {
        TilerView {
            queue: self.event_queue@,
            active_changed: self.active_changed,
            active: self.active,
            active_workspace: self.active_workspace,
            active_workspace_changed: self.active_workspace_changed,
            registry: self.registry@,
            forks: self.forks@,
            stacks: self.stacks@,
            displays: self.displays@,
            workspaces: workspace_views(self.workspaces@),
        }
    }
}

/// An action changes nothing of a tiler but the trees and the queue, and nothing at all
/// where it does not find its target.
pub proof fn lemma_tiler_applied_frame(t: TilerView, i: int, target: BranchRef, action: Action)
    ensures
        t.applied_from(i, target, action).tiler == (TilerView {
            workspaces: t.applied_from(i, target, action).tiler.workspaces,
            queue: t.applied_from(i, target, action).tiler.queue,
            ..t
        }),
        t.applied_from(i, target, action).tiler.workspaces.len() == t.workspaces.len(),
        !t.applied_from(i, target, action).found ==> t.applied_from(i, target, action).tiler == t,
    decreases t.workspaces.len() - i,
{
    if 0 <= i < t.workspaces.len() {
        let r = t.workspaces[i].applied(target, action, t.queue);
        if !r.found {
            lemma_tiler_applied_frame(t, i + 1, target, action);
        }
    }
}

/// An action leaves a well-formed tiler well formed, and changes nothing of it but the
/// trees and the queue.
pub proof fn lemma_tiler_applied(t: TilerView, i: int, target: BranchRef, action: Action)
    requires
        t.wf(),
    ensures
        t.applied_from(i, target, action).tiler.wf(),
        t.applied_from(i, target, action).tiler == (TilerView {
            workspaces: t.applied_from(i, target, action).tiler.workspaces,
            queue: t.applied_from(i, target, action).tiler.queue,
            ..t
        }),
        t.applied_from(i, target, action).tiler.workspaces.len() == t.workspaces.len(),
        !t.applied_from(i, target, action).found ==> t.applied_from(i, target, action).tiler == t,
    decreases t.workspaces.len() - i,
{
    if 0 <= i < t.workspaces.len() {
        let r = t.workspaces[i].applied(target, action, t.queue);
        lemma_workspace_applied(t.workspaces[i], target, action, t.queue);
        if r.found {
            let u = TilerView {
                workspaces: t.workspaces.update(i, r.workspace),
                queue: r.queue,
                ..t
            };
            assert forall|k: int| 0 <= k < u.workspaces.len() implies (#[trigger] u.workspaces[k]).wf()
                && u.hosted(u.workspaces[k]) by {
                if k != i {
                    assert(u.workspaces[k] == t.workspaces[k]);
                    assert(t.hosted(t.workspaces[k]));
                } else {
                    assert(t.hosted(t.workspaces[i]));
                }
            }
            assert forall|k: int, j: int| 0 <= k < j < u.workspaces.len() implies (
            #[trigger] u.workspaces[k]).id != (#[trigger] u.workspaces[j]).id by {
                assert(t.workspaces[k].id != t.workspaces[j].id);
            }
        } else {
            lemma_tiler_applied(t, i + 1, target, action);
        }
    }
}

/// The first free handle among `slots`.
pub fn free_slot(slots: &Vec<bool>) -> (i: usize)
    ensures
        i as int == first_free(slots@),
        i <= slots.len(),
{
    let mut i: usize = 0;
    while i < slots.len() && slots[i]
        invariant
            0 <= i <= slots.len(),
            forall|j: int| 0 <= j < i ==> #[trigger] slots@[j],
        decreases slots.len() - i,
    {
        i += 1;
    }
    proof {
        lemma_first_free_unique(slots@, i as int);
    }
    i
}

/// Takes the first free handle among `slots`.
pub fn take_slot(slots: &mut Vec<bool>)
    ensures
        final(slots)@ == taken(old(slots)@),
{
    let i = free_slot(slots);
    if i < slots.len() {
        slots[i] = true;
    } else {
        slots.push(true);
    }
}

impl Tiler {
    /// Whether the tiler is well formed: its displays, workspaces and trees are, no two
    /// windows have one ID, the registry holds the windows of the trees, the active window
    /// is in a tree, every window is visible exactly if its workspace is on view and no
    /// stack hides it, and the queue holds each fork, stack and window once.
    pub open spec fn wf(&self) -> bool {
        self@.wf() && self@.distinct() && self@.shown() && self@.queue.wf()
    }

    /// The place of the workspace with `id`, or the number of workspaces.
    fn find_workspace(&self, id: u32) -> (i: usize)
        ensures
            i as int == workspace_index(self@.workspaces, id),
            i <= self.workspaces.len(),
            self@.workspaces.len() == self.workspaces.len(),
            i < self.workspaces.len() ==> self.workspaces@[i as int].id == id,
    {
        let mut i: usize = 0;
        while i < self.workspaces.len() && self.workspaces[i].id != id
            invariant
                0 <= i <= self.workspaces.len(),
                forall|j: int| 0 <= j < i ==> (#[trigger] self@.workspaces[j]).id != id,
            decreases self.workspaces.len() - i,
        {
            i += 1;
        }
        proof {
            lemma_workspace_index_unique(self@.workspaces, id, i as int);
        }
        i
    }

    /// The windows in the trees of the tiler: workspace by workspace, each from left to right.
    pub fn windows(&self) -> (r: Vec<Window>)
        ensures
            r@ == self@.windows(),
    {
        let mut out: Vec<Window> = Vec::new();
        let mut i: usize = 0;
        while i < self.workspaces.len()
            invariant
                0 <= i <= self.workspaces.len(),
                out@ == all_leaves(self@.workspaces.take(i as int)),
            decreases self.workspaces.len() - i,
        {
            proof {
                assert(self@.workspaces.take(i + 1).drop_last() =~= self@.workspaces.take(i as int));
            }
            match &self.workspaces[i].fork {
                Some(f) => {
                    f.collect(&mut out);
                },
                None => {
                    assert(out@ =~= out@ + Seq::<Window>::empty());
                },
            }
            i += 1;
        }
        assert(self@.workspaces.take(i as int) =~= self@.workspaces);
        out
    }

    /// The window `id` as it is in the trees.
    pub fn find(&self, id: WindowID) -> (r: Option<Window>)
        ensures
            r == self@.find(id),
    {
        let windows = self.windows();
        let i = position(&windows, id);
        if i < windows.len() {
            Some(windows[i])
        } else {
            None
        }
    }

    /// Does `action` on `target` in the first workspace that has the target.
    fn apply(&mut self, target: BranchRef, action: Action) -> (r: Applied)
        requires
            old(self)@.wf(),
        ensures
            old(self)@.queue.wf() ==> final(self)@.queue.wf(),
            final(self)@ == old(self)@.applied(target, action).tiler,
            (r.outcome != Outcome::Missing) == old(self)@.applied(target, action).found,
            r.picked == old(self)@.applied(target, action).picked,
            r.made == old(self)@.applied(target, action).made,
            final(self)@.wf(),
    {
        proof {
            lemma_tiler_applied(self@, 0, target, action);
        }
        let mut i: usize = 0;
        while i < self.workspaces.len()
            invariant
                0 <= i <= self.workspaces.len(),
                self@ == old(self)@,
                self@.wf(),
                old(self)@.applied(target, action) == self@.applied_from(i as int, target, action),
            decreases self.workspaces.len() - i,
        {
            let ghost before = self@;
            let res = self.workspaces[i].apply(target, action, &mut self.event_queue);
            if res.outcome != Outcome::Missing {
                proof {
                    let r = before.workspaces[i as int].applied(target, action, before.queue);
                    assert(self@.workspaces =~= before.workspaces.update(i as int, r.workspace));
                }
                return res;
            }
            proof {
                assert(self@.workspaces =~= before.workspaces);
            }
            i += 1;
        }
        Applied { outcome: Outcome::Missing, picked: None, made: false }
    }
}

impl Default for Tiler {
    /// A tiler without displays, workspaces and windows, with workspace 0 on view.
    fn default() -> (t: Tiler)
        ensures
            t@ == TilerView::empty(),
            t.wf(),
    {
        proof {
            lemma_empty_distinct();
            lemma_empty_shown();
        }
        let t = Tiler {
            event_queue: EventQueue::default(),
            active_changed: false,
            active: None,
            active_workspace: 0,
            active_workspace_changed: false,
            registry: Vec::new(),
            forks: Vec::new(),
            stacks: Vec::new(),
            displays: Vec::new(),
            workspaces: Vec::new(),
        };
        assert(t@.workspaces =~= TilerView::empty().workspaces);
        t
    }
}

impl Tiler {
    /// The window that has the focus.
    pub fn active_window(&self) -> (r: Option<WindowID>)
        ensures
            r == self@.active,
    {
        self.active
    }

    /// The IDs of the windows that are attached, in the order in which they were attached.
    pub fn registry(&self) -> (r: &Vec<WindowID>)
        ensures
            r@ == self@.registry,
    {
        &self.registry
    }

    /// Whether the window `id` is in the registry. In a well-formed tiler it is there
    /// exactly if it is in a tree.
    pub fn is_registered(&self, id: WindowID) -> (r: bool)
        ensures
            r == self@.registered(id),
            self.wf() ==> r == (self@.find(id) is Some),
    {
        proof {
            if self.wf() {
                crate::distinct::lemma_registry_holds_the_windows(self@, id);
            }
        }
        find_id(&self.registry, id) < self.registry.len()
    }

    /// The ID of the workspace that is on view.
    pub fn active_workspace(&self) -> (r: u32)
        ensures
            r == self@.active_workspace,
    {
        self.active_workspace
    }

    /// The workspaces of the tiler, in the order in which they were made.
    pub fn workspaces(&self) -> (r: &Vec<Workspace>)
        ensures
            workspace_views(r@) == self@.workspaces,
    {
        &self.workspaces
    }

    /// The displays of the tiler, in the order in which they were made.
    pub fn displays(&self) -> (r: &Vec<Display>)
        ensures
            r@ == self@.displays,
    {
        &self.displays
    }

    /// The window `id` as the tiler has it: as it is in its tree, or else as a window
    /// that is attached to nothing.
    pub fn window(&self, id: WindowID) -> (r: Window)
        ensures
            r == match self@.find(id) {
                Some(w) => w,
                None => Window::fresh(id),
            },
    {
        match self.find(id) {
            Some(w) => w,
            None => Window::new(id),
        }
    }

    /// Lets `sweep` come over all workspaces, in their order.
    fn sweep(&mut self, sweep: Sweep)
        requires
            sweep matches Sweep::Move { area, .. } ==> area.valid(),
        ensures
            old(self)@.queue.wf() ==> final(self)@.queue.wf(),
            final(self)@ == old(self)@.swept(sweep),
    {
        let mut i: usize = 0;
        while i < self.workspaces.len()
            invariant
                0 <= i <= self.workspaces.len(),
                self.workspaces.len() == old(self).workspaces.len(),
                sweep matches Sweep::Move { area, .. } ==> area.valid(),
                self@ == old(self)@.swept_upto(i as int, sweep),
                old(self)@.queue.wf() ==> self@.queue.wf(),
            decreases self.workspaces.len() - i,
        {
            let ghost before = self@;
            proof {
                lemma_swept_upto(old(self)@, i as int, sweep);
            }
            self.workspaces[i].sweep(sweep, &mut self.event_queue);
            proof {
                assert(self@.workspaces =~= before.workspaces.update(
                    i as int,
                    before.workspaces[i as int].swept(sweep),
                ));
            }
            i += 1;
        }
    }

    /// Creates or updates a display, and lays every workspace on it on its area. An area
    /// whose far edges do not fit in 32 bits changes nothing.
    pub fn display_update(&mut self, display: u32, area: Rect)
        requires
            old(self).wf(),
        ensures
            old(self)@.queue.wf() ==> final(self)@.queue.wf(),
            final(self)@ == old(self)@.display_update(display, area),
            final(self).wf(),
    {
        proof {
            lemma_topology_distinct(self@, display, area, 0);
            lemma_topology_shown(self@, display, area, 0);
        }
        proof {
            lemma_display_update_wf(self@, display, area);
        }
        if !area.is_valid() {
            return;
        }
        let i = find_display(&self.displays, display);
        if i < self.displays.len() {
            self.displays[i].area = area;
        } else {
            self.displays.push(Display::new(display, area));
        }
        self.sweep(Sweep::Move { from: display, to: display, area });
    }

    /// Removes a display, and migrates its workspaces to the display of the workspace on
    /// view.
    pub fn display_detach(&mut self, display: u32)
        requires
            old(self).wf(),
        ensures
            old(self)@.queue.wf() ==> final(self)@.queue.wf(),
            final(self)@ == old(self)@.display_detach(display),
            final(self).wf(),
    {
        proof {
            lemma_topology_distinct(self@, display, crate::geom::Rect { x: 0, y: 0, width: 0, height: 0 }, 0);
            lemma_topology_shown(self@, display, crate::geom::Rect { x: 0, y: 0, width: 0, height: 0 }, 0);
        }
        proof {
            lemma_display_detach_wf(self@, display);
        }
        let i = find_display(&self.displays, display);
        let home = self.find_workspace(self.active_workspace);
        if home >= self.workspaces.len() || i >= self.displays.len() {
            return;
        }
        let target = self.workspaces[home].display;
        let area = self.workspaces[home].area;
        if target == display {
            return;
        }
        assert(self@.workspaces[home as int].wf());
        self.displays.remove(i);
        self.sweep(Sweep::Move { from: display, to: target, area });
    }

    /// Associates a workspace with a display, and creates the workspace if the tiler
    /// does not have it.
    pub fn workspace_update(&mut self, workspace: u32, display: u32)
        requires
            old(self).wf(),
        ensures
            old(self)@.queue.wf() ==> final(self)@.queue.wf(),
            final(self)@ == old(self)@.workspace_update(workspace, display),
            final(self).wf(),
    {
        proof {
            lemma_topology_distinct(self@, display, crate::geom::Rect { x: 0, y: 0, width: 0, height: 0 }, workspace);
            lemma_topology_shown(self@, display, crate::geom::Rect { x: 0, y: 0, width: 0, height: 0 }, workspace);
        }
        proof {
            lemma_workspace_update_wf(self@, workspace, display);
        }
        let d = find_display(&self.displays, display);
        if d >= self.displays.len() {
            return;
        }
        let area = self.displays[d].area;
        let i = self.find_workspace(workspace);
        let ghost before = self@;
        if i < self.workspaces.len() {
            if self.workspaces[i].display != display {
                self.workspaces[i].work_area_update(display, area, &mut self.event_queue);
                proof {
                    assert(self@.workspaces =~= before.workspaces.update(
                        i as int,
                        before.workspaces[i as int].moved_to(display, area),
                    ));
                }
            }
        } else {
            self.workspaces.push(Workspace::new(workspace, display, area));
            if self.displays[d].active.is_none() {
                self.displays[d].active = Some(workspace);
            }
            proof {
                assert(self@.workspaces =~= before.workspaces.push(
                    WorkspaceView { id: workspace, display, area, fork: None, focus: None },
                ));
            }
        }
    }

    /// The window that has the focus of the workspace `k`, if it is still a window of
    /// that workspace.
    fn focus_of(&self, k: u32) -> (r: Option<WindowID>)
        ensures
            r == self@.focus_of(k),
    {
        let i = self.find_workspace(k);
        if i >= self.workspaces.len() {
            return None;
        }
        match self.workspaces[i].focus {
            Some(f) => match self.find(f) {
                Some(window) => if window.workspace == k {
                    Some(f)
                } else {
                    None
                },
                None => None,
            },
            None => None,
        }
    }

    /// Switches to a workspace.
    fn switch_workspace(&mut self, workspace: u32)
        requires
            old(self)@.wf(),
        ensures
            old(self)@.queue.wf() ==> final(self)@.queue.wf(),
            final(self)@ == old(self)@.workspace_switch(workspace),
            final(self)@.wf(),
            final(self)@.active_workspace == workspace,
            workspace == old(self)@.active_workspace ==> final(self)@ == old(self)@,
            workspace != old(self)@.active_workspace ==> forall|i: int|
                0 <= i < final(self)@.workspaces.len() ==> (#[trigger] final(self)@.workspaces[i]).shown(
                    final(self)@.workspaces[i].id == workspace,
                ),
    {
        proof {
            lemma_workspace_switch_wf(self@, workspace);
        }
        if workspace == self.active_workspace {
            return;
        }
        self.sweep(Sweep::View(workspace));
        let home = self.find_workspace(self.active_workspace);
        if home < self.workspaces.len() {
            let k = self.find_workspace(workspace);
            if k >= self.workspaces.len() {
                let ghost before = self@;
                let display = self.workspaces[home].display;
                let area = self.workspaces[home].area;
                self.workspaces.push(Workspace::new(workspace, display, area));
                proof {
                    assert(self@.workspaces =~= before.workspaces.push(
                        WorkspaceView { id: workspace, display, area, fork: None, focus: None },
                    ));
                }
            }
        }
        self.active_workspace = workspace;
        self.active_workspace_changed = true;
        match self.focus_of(workspace) {
            Some(f) => {
                self.active = Some(f);
                self.active_changed = true;
            },
            None => {},
        }
    }

    /// Switches to a workspace: hides all windows on other workspaces, shows the windows
    /// of the given workspace that no stack hides, and gives the focus to the window that
    /// has the focus of the given workspace. A switch to the workspace on view does
    /// nothing. After any other switch, every window is visible exactly if it is on the
    /// given workspace and is not a member of a stack that is not the raised one.
    pub fn workspace_switch(&mut self, workspace: u32)
        requires
            old(self).wf(),
        ensures
            old(self)@.queue.wf() ==> final(self)@.queue.wf(),
            final(self)@ == old(self)@.workspace_switch(workspace),
            final(self).wf(),
            final(self)@.active_workspace == workspace,
            workspace == old(self)@.active_workspace ==> final(self)@ == old(self)@,
            workspace != old(self)@.active_workspace ==> forall|i: int|
                0 <= i < final(self)@.workspaces.len() ==> (#[trigger] final(self)@.workspaces[i]).shown(
                    final(self)@.workspaces[i].id == workspace,
                ),
    {
        proof {
            lemma_workspace_switch_distinct(self@, workspace);
            lemma_with_active_shown(self@, WindowID(0, 0));
        }
        self.switch_workspace(workspace);
    }

    /// Detaches a window from its tree. A fork that loses its last branch is destroyed; a
    /// fork that is left with a fork as its only branch gives its place to that fork.
    pub fn detach(&mut self, id: WindowID)
        requires
            old(self).wf(),
        ensures
            old(self)@.queue.wf() ==> final(self)@.queue.wf(),
            final(self)@ == old(self)@.detach(id),
            final(self).wf(),
    {
        proof {
            lemma_commands_distinct(self@, id, id);
            lemma_commands_shown(self@, id, id, 0, 0);
        }
        self.detach_window(id);
    }

    /// Sets a new active window, after a switch to its workspace, and marks that the
    /// window manager is to be told.
    fn set_active_window(&mut self, id: WindowID)
        requires
            old(self)@.wf(),
        ensures
            old(self)@.queue.wf() ==> final(self)@.queue.wf(),
            final(self)@ == old(self)@.with_active(id),
            final(self)@.wf(),
    {
        proof {
            lemma_with_active_wf(self@, id);
        }
        match self.find(id) {
            Some(w) => {
                self.switch_workspace(w.workspace);
                self.active = Some(id);
                self.active_changed = true;
            },
            None => {},
        }
    }

    /// Attaches the window `id` beside the window `anchor`.
    fn attach_to_window(&mut self, id: WindowID, anchor: WindowID)
        requires
            old(self)@.wf(),
        ensures
            old(self)@.queue.wf() ==> final(self)@.queue.wf(),
            final(self)@ == old(self)@.attach_to_window(id, anchor),
            final(self)@.wf(),
    {
        let handle = free_slot(&self.forks);
        let r = self.apply(BranchRef::Window(anchor), Action::Attach(Window::new(id), handle));
        if r.outcome != Outcome::Missing {
            if r.made {
                take_slot(&mut self.forks);
            }
            self.registry.push(id);
        }
    }

    /// Attaches the window `id` to the workspace on view, and makes it the active window.
    fn attach_to_workspace(&mut self, id: WindowID)
        requires
            old(self)@.wf(),
        ensures
            old(self)@.queue.wf() ==> final(self)@.queue.wf(),
            final(self)@ == old(self)@.attach_to_workspace(id),
            final(self)@.wf(),
    {
        proof {
            lemma_attach_to_workspace_wf(self@, id);
        }
        let i = self.find_workspace(self.active_workspace);
        if i >= self.workspaces.len() {
            return;
        }
        let windows = self.workspaces[i].windows();
        match largest(&windows) {
            Some(a) => {
                self.attach_to_window(id, a.id);
            },
            None => {
                let ghost before = self@;
                let handle = free_slot(&self.forks);
                assert(before.workspaces[i as int].wf());
                self.workspaces[i].plant(Window::new(id), handle, &mut self.event_queue);
                take_slot(&mut self.forks);
                self.registry.push(id);
                proof {
                    let w = before.workspaces[i as int];
                    assert(w.planted(Window::fresh(id), handle) == (WorkspaceView {
                        fork: None,
                        ..w
                    }).planted(Window::fresh(id), handle));
                    assert(self@.workspaces =~= before.workspaces.update(
                        i as int,
                        w.planted(Window::fresh(id), handle),
                    ));
                }
            },
        }
        self.active = Some(id);
        self.active_changed = true;
    }

    /// Attaches a window: beside the active window, on whichever workspace that is, or,
    /// where there is none, to the workspace on view, as the active window. Beside a window
    /// it is shown as that window is; in a stack it is hidden behind the raised member. A
    /// window that is in a tree already is left where it is.
    pub fn attach(&mut self, id: WindowID)
        requires
            old(self).wf(),
        ensures
            old(self)@.queue.wf() ==> final(self)@.queue.wf(),
            final(self)@ == old(self)@.attach(id),
            final(self).wf(),
    {
        proof {
            lemma_commands_distinct(self@, id, id);
            lemma_commands_shown(self@, id, id, 0, 0);
        }
        if self.is_registered(id) {
            return;
        }
        let anchor = match self.active {
            Some(a) => if self.is_registered(a) {
                Some(a)
            } else {
                None
            },
            None => None,
        };
        match anchor {
            Some(a) => self.attach_to_window(id, a),
            None => self.attach_to_workspace(id),
        }
    }

    /// Detaches a window from its tree.
    fn detach_window(&mut self, id: WindowID)
        requires
            old(self)@.wf(),
        ensures
            old(self)@.queue.wf() ==> final(self)@.queue.wf(),
            final(self)@ == old(self)@.detach(id),
            final(self)@.wf(),
    {
        proof {
            lemma_tiler_applied(self@, 0, BranchRef::Window(id), Action::Detach);
        }
        let r = self.apply(BranchRef::Window(id), Action::Detach);
        if r.outcome != Outcome::Missing {
            forget_id(&mut self.registry, id);
            if self.active == Some(id) {
                self.active = None;
                self.active_changed = false;
            }
        }
    }

    /// Focuses a window in the tree.
    pub fn focus(&mut self, id: WindowID)
        requires
            old(self).wf(),
        ensures
            old(self)@.queue.wf() ==> final(self)@.queue.wf(),
            final(self)@ == old(self)@.focus(id),
            final(self).wf(),
    {
        proof {
            lemma_commands_distinct(self@, id, id);
            lemma_commands_shown(self@, id, id, 0, 0);
        }
        match self.find(id) {
            None => {},
            Some(w) => {
                if self.active == Some(id) {
                    return;
                }
                if w.stack.is_some() {
                    self.apply(BranchRef::Window(id), Action::Raise);
                }
                self.set_active_window(id);
            },
        }
    }

    /// The window that is nearest to the active window in `direction`, if focus can go
    /// to any: a window of the same workspace and not of the same stack that lies
    /// strictly on that side.
    pub fn window_in_direction(&self, direction: Direction) -> (r: Option<Window>)
        ensures
            r == self@.window_in_direction(direction),
    {
        match self.active {
            Some(a) => {
                let windows = self.windows();
                let i = position(&windows, a);
                if i < windows.len() {
                    nearest(&windows, &windows[i], direction)
                } else {
                    None
                }
            },
            None => None,
        }
    }

    /// The display that is nearest to the display of the workspace on view in
    /// `direction`, if focus can go to any.
    pub fn display_in_direction(&self, direction: Direction) -> (r: Option<Display>)
        ensures
            r == self@.display_in_direction(direction),
    {
        let i = self.find_workspace(self.active_workspace);
        if i >= self.workspaces.len() {
            return None;
        }
        let d = find_display(&self.displays, self.workspaces[i].display);
        if d >= self.displays.len() {
            return None;
        }
        nearest_display(&self.displays, &self.displays[d], direction)
    }

    /// Focuses the window that has the focus of the workspace that the display `d` shows.
    fn focus_display(&mut self, d: Display)
        requires
            old(self)@.wf(),
        ensures
            old(self)@.queue.wf() ==> final(self)@.queue.wf(),
            final(self)@ == old(self)@.focus_display(d),
            final(self)@.wf(),
    {
        match d.active {
            Some(k) => {
                let i = self.find_workspace(k);
                if i < self.workspaces.len() && self.workspaces[i].display == d.id {
                    match self.focus_of(k) {
                        Some(f) => {
                            self.set_active_window(f);
                        },
                        None => {},
                    }
                }
            },
            None => {},
        }
    }

    /// Moves focus to the nearest display in `direction`.
    fn focus_display_toward(&mut self, direction: Direction)
        requires
            old(self)@.wf(),
        ensures
            old(self)@.queue.wf() ==> final(self)@.queue.wf(),
            final(self)@ == old(self)@.focus_display_toward(direction),
            final(self)@.wf(),
    {
        match self.display_in_direction(direction) {
            Some(d) => self.focus_display(d),
            None => {},
        }
    }

    /// Moves focus to the nearest window in `direction`, or else to the nearest display.
    fn focus_toward(&mut self, direction: Direction)
        requires
            old(self)@.wf(),
        ensures
            old(self)@.queue.wf() ==> final(self)@.queue.wf(),
            final(self)@ == old(self)@.focus_toward(direction),
            final(self)@.wf(),
    {
        match self.window_in_direction(direction) {
            Some(w) => self.set_active_window(w.id),
            None => self.focus_display_toward(direction),
        }
    }

    /// Manages focus movements with consideration for in-stack movements.
    fn focus_with_stack(&mut self, before: bool)
        requires
            old(self)@.wf(),
        ensures
            old(self)@.queue.wf() ==> final(self)@.queue.wf(),
            final(self)@ == old(self)@.focus_in_stack(before),
            final(self)@.wf(),
    {
        match self.active {
            None => {},
            Some(a) => {
                let r = self.apply(
                    BranchRef::Window(a),
                    if before {
                        Action::SelectLeft
                    } else {
                        Action::SelectRight
                    },
                );
                match r.picked {
                    Some(m) => self.set_active_window(m),
                    None => self.focus_toward(
                        if before {
                            Direction::Left
                        } else {
                            Direction::Right
                        },
                    ),
                }
            },
        }
    }

    /// Move focus to the window above the active one.
    pub fn focus_above(&mut self)
        requires
            old(self).wf(),
        ensures
            old(self)@.queue.wf() ==> final(self)@.queue.wf(),
            final(self)@ == old(self)@.focus_toward(Direction::Above),
            final(self).wf(),
    {
        proof {
            lemma_focus_toward_distinct(self@, Direction::Above);
            lemma_focus_shown(self@, Direction::Above, true);
        }
        self.focus_toward(Direction::Above);
    }

    /// Move focus to the window below the active one.
    pub fn focus_below(&mut self)
        requires
            old(self).wf(),
        ensures
            old(self)@.queue.wf() ==> final(self)@.queue.wf(),
            final(self)@ == old(self)@.focus_toward(Direction::Below),
            final(self).wf(),
    {
        proof {
            lemma_focus_toward_distinct(self@, Direction::Below);
            lemma_focus_shown(self@, Direction::Below, true);
        }
        self.focus_toward(Direction::Below);
    }

    /// Move focus to the window left of the active one: in its stack, or else beside it.
    pub fn focus_left(&mut self)
        requires
            old(self).wf(),
        ensures
            old(self)@.queue.wf() ==> final(self)@.queue.wf(),
            final(self)@ == old(self)@.focus_in_stack(true),
            final(self).wf(),
    {
        proof {
            lemma_focus_in_stack_distinct(self@, true);
            lemma_focus_shown(self@, Direction::Left, true);
        }
        self.focus_with_stack(true);
    }

    /// Move focus to the left window, even if in a stack.
    pub fn focus_left_absolute(&mut self)
        requires
            old(self).wf(),
        ensures
            old(self)@.queue.wf() ==> final(self)@.queue.wf(),
            final(self)@ == old(self)@.focus_toward(Direction::Left),
            final(self).wf(),
    {
        proof {
            lemma_focus_toward_distinct(self@, Direction::Left);
            lemma_focus_shown(self@, Direction::Left, true);
        }
        self.focus_toward(Direction::Left);
    }

    /// Move focus to the window right of the active one: in its stack, or else beside it.
    pub fn focus_right(&mut self)
        requires
            old(self).wf(),
        ensures
            old(self)@.queue.wf() ==> final(self)@.queue.wf(),
            final(self)@ == old(self)@.focus_in_stack(false),
            final(self).wf(),
    {
        proof {
            lemma_focus_in_stack_distinct(self@, false);
            lemma_focus_shown(self@, Direction::Left, false);
        }
        self.focus_with_stack(false);
    }

    /// Move focus to the right window, even if in a stack.
    pub fn focus_right_absolute(&mut self)
        requires
            old(self).wf(),
        ensures
            old(self)@.queue.wf() ==> final(self)@.queue.wf(),
            final(self)@ == old(self)@.focus_toward(Direction::Right),
            final(self).wf(),
    {
        proof {
            lemma_focus_toward_distinct(self@, Direction::Right);
            lemma_focus_shown(self@, Direction::Right, true);
        }
        self.focus_toward(Direction::Right);
    }

    /// Move focus to the workspace on the display to the left of the active one.
    pub fn focus_display_left(&mut self)
        requires
            old(self).wf(),
        ensures
            old(self)@.queue.wf() ==> final(self)@.queue.wf(),
            final(self)@ == old(self)@.focus_display_toward(Direction::Left),
            final(self).wf(),
    {
        proof {
            lemma_focus_toward_distinct(self@, Direction::Left);
            lemma_focus_shown(self@, Direction::Left, true);
        }
        self.focus_display_toward(Direction::Left);
    }

    /// Move focus to the workspace on the display to the right of the active one.
    pub fn focus_display_right(&mut self)
        requires
            old(self).wf(),
        ensures
            old(self)@.queue.wf() ==> final(self)@.queue.wf(),
            final(self)@ == old(self)@.focus_display_toward(Direction::Right),
            final(self).wf(),
    {
        proof {
            lemma_focus_toward_distinct(self@, Direction::Right);
            lemma_focus_shown(self@, Direction::Right, true);
        }
        self.focus_display_toward(Direction::Right);
    }

    /// Move focus to the workspace on the display above the active one.
    pub fn focus_display_above(&mut self)
        requires
            old(self).wf(),
        ensures
            old(self)@.queue.wf() ==> final(self)@.queue.wf(),
            final(self)@ == old(self)@.focus_display_toward(Direction::Above),
            final(self).wf(),
    {
        proof {
            lemma_focus_toward_distinct(self@, Direction::Above);
            lemma_focus_shown(self@, Direction::Above, true);
        }
        self.focus_display_toward(Direction::Above);
    }

    /// Move focus to the workspace on the display below the active one.
    pub fn focus_display_below(&mut self)
        requires
            old(self).wf(),
        ensures
            old(self)@.queue.wf() ==> final(self)@.queue.wf(),
            final(self)@ == old(self)@.focus_display_toward(Direction::Below),
            final(self).wf(),
    {
        proof {
            lemma_focus_toward_distinct(self@, Direction::Below);
            lemma_focus_shown(self@, Direction::Below, true);
        }
        self.focus_display_toward(Direction::Below);
    }

    /// Resize a fork with a new split.
    pub fn fork_resize(&mut self, fork: usize, split: u32)
        requires
            old(self).wf(),
        ensures
            old(self)@.queue.wf() ==> final(self)@.queue.wf(),
            final(self)@ == old(self)@.fork_resize(fork, split),
            final(self).wf(),
    {
        proof {
            lemma_applied_distinct(self@, BranchRef::Fork(fork), Action::Resize(split));
            lemma_commands_shown(self@, WindowID(0, 0), WindowID(0, 0), fork, split);
        }
        self.apply(BranchRef::Fork(fork), Action::Resize(split));
    }

    /// Moves the active window in `direction`.
    fn move_in_direction(&mut self, direction: Direction)
        requires
            old(self)@.wf(),
        ensures
            old(self)@.queue.wf() ==> final(self)@.queue.wf(),
            final(self)@ == old(self)@.move_toward(direction),
            final(self)@.wf(),
    {
        let a = match self.active {
            Some(a) => a,
            None => {
                return;
            },
        };
        let windows = self.windows();
        let i = position(&windows, a);
        if i >= windows.len() {
            return;
        }
        let w = windows[i];
        if w.stack.is_some() {
            let handle = free_slot(&self.forks);
            let r = self.apply(BranchRef::Window(a), Action::MoveOut(direction, handle));
            if r.made {
                take_slot(&mut self.forks);
            }
            return;
        }
        match nearest(&windows, &w, direction) {
            None => {},
            Some(t) => {
                let same = match (t.fork, w.fork) {
                    (Some(x), Some(y)) => x == y,
                    (None, None) => true,
                    _ => false,
                };
                if same {
                    self.apply(BranchRef::Window(a), Action::Flip);
                } else {
                    self.detach_window(a);
                    self.attach_to_window(a, t.id);
                    self.set_active_window(a);
                }
            },
        }
    }

    /// When moving horizontally, checks if the window is stacked and can be moved within
    /// the stack.
    fn move_horizontally(&mut self, before: bool)
        requires
            old(self)@.wf(),
        ensures
            old(self)@.queue.wf() ==> final(self)@.queue.wf(),
            final(self)@ == old(self)@.move_in_stack(before),
            final(self)@.wf(),
    {
        match self.active {
            None => {},
            Some(a) => {
                let r = self.apply(
                    BranchRef::Window(a),
                    if before {
                        Action::ShiftLeft
                    } else {
                        Action::ShiftRight
                    },
                );
                if r.picked.is_none() {
                    self.move_in_direction(
                        if before {
                            Direction::Left
                        } else {
                            Direction::Right
                        },
                    );
                }
            },
        }
    }

    /// Move the active window to the left: among the tabs of its stack, or else in the tree.
    pub fn move_left(&mut self)
        requires
            old(self).wf(),
        ensures
            old(self)@.queue.wf() ==> final(self)@.queue.wf(),
            final(self)@ == old(self)@.move_in_stack(true),
            final(self).wf(),
    {
        proof {
            lemma_move_in_stack_distinct(self@, true);
            lemma_move_shown(self@, Direction::Left, true);
        }
        self.move_horizontally(true);
    }

    /// Move the active window to the left, even if it is stacked.
    pub fn move_left_absolute(&mut self)
        requires
            old(self).wf(),
        ensures
            old(self)@.queue.wf() ==> final(self)@.queue.wf(),
            final(self)@ == old(self)@.move_toward(Direction::Left),
            final(self).wf(),
    {
        proof {
            lemma_move_toward_distinct(self@, Direction::Left);
            lemma_move_shown(self@, Direction::Left, true);
        }
        self.move_in_direction(Direction::Left);
    }

    /// Move the active window to the right: among the tabs of its stack, or else in the tree.
    pub fn move_right(&mut self)
        requires
            old(self).wf(),
        ensures
            old(self)@.queue.wf() ==> final(self)@.queue.wf(),
            final(self)@ == old(self)@.move_in_stack(false),
            final(self).wf(),
    {
        proof {
            lemma_move_in_stack_distinct(self@, false);
            lemma_move_shown(self@, Direction::Left, false);
        }
        self.move_horizontally(false);
    }

    /// Move the active window to the right, even if it is stacked.
    pub fn move_right_absolute(&mut self)
        requires
            old(self).wf(),
        ensures
            old(self)@.queue.wf() ==> final(self)@.queue.wf(),
            final(self)@ == old(self)@.move_toward(Direction::Right),
            final(self).wf(),
    {
        proof {
            lemma_move_toward_distinct(self@, Direction::Right);
            lemma_move_shown(self@, Direction::Right, true);
        }
        self.move_in_direction(Direction::Right);
    }

    /// Move the active window above in the tree.
    pub fn move_above(&mut self)
        requires
            old(self).wf(),
        ensures
            old(self)@.queue.wf() ==> final(self)@.queue.wf(),
            final(self)@ == old(self)@.move_toward(Direction::Above),
            final(self).wf(),
    {
        proof {
            lemma_move_toward_distinct(self@, Direction::Above);
            lemma_move_shown(self@, Direction::Above, true);
        }
        self.move_in_direction(Direction::Above);
    }

    /// Move the active window below in the tree.
    pub fn move_below(&mut self)
        requires
            old(self).wf(),
        ensures
            old(self)@.queue.wf() ==> final(self)@.queue.wf(),
            final(self)@ == old(self)@.move_toward(Direction::Below),
            final(self).wf(),
    {
        proof {
            lemma_move_toward_distinct(self@, Direction::Below);
            lemma_move_shown(self@, Direction::Below, true);
        }
        self.move_in_direction(Direction::Below);
    }

    /// Toggle the orientation of the fork that holds the active window.
    pub fn toggle_orientation(&mut self)
        requires
            old(self).wf(),
        ensures
            old(self)@.queue.wf() ==> final(self)@.queue.wf(),
            final(self)@ == old(self)@.toggle_orientation(),
            final(self).wf(),
    {
        proof {
            lemma_commands_distinct(self@, WindowID(0, 0), WindowID(0, 0));
            lemma_commands_shown(self@, WindowID(0, 0), WindowID(0, 0), 0, 0);
        }
        match self.active {
            Some(a) => {
                self.apply(BranchRef::Window(a), Action::ToggleOrientation);
            },
            None => {},
        }
    }

    /// If the active window is stacked, unstack it. If it is not stacked, stack it.
    pub fn stack_toggle(&mut self)
        requires
            old(self).wf(),
        ensures
            old(self)@.queue.wf() ==> final(self)@.queue.wf(),
            final(self)@ == old(self)@.stack_toggle(),
            final(self).wf(),
    {
        proof {
            lemma_commands_distinct(self@, WindowID(0, 0), WindowID(0, 0));
            lemma_commands_shown(self@, WindowID(0, 0), WindowID(0, 0), 0, 0);
        }
        match self.active {
            Some(a) => {
                let handle = free_slot(&self.stacks);
                let r = self.apply(BranchRef::Window(a), Action::ToggleStack(handle));
                if r.made {
                    take_slot(&mut self.stacks);
                }
                if self.find(a).is_none() {
                    forget_id(&mut self.registry, a);
                    self.active = None;
                    self.active_changed = false;
                }
            },
            None => {},
        }
    }

    /// Swaps the tree location of a window with that of another.
    pub fn swap(&mut self, from: WindowID, with: WindowID)
        requires
            old(self).wf(),
        ensures
            old(self)@.queue.wf() ==> final(self)@.queue.wf(),
            final(self)@ == old(self)@.swap(from, with),
            final(self).wf(),
            from == with ==> final(self)@ == old(self)@,
    {
        proof {
            lemma_commands_distinct(self@, from, with);
            lemma_commands_shown(self@, from, with, 0, 0);
        }
        if from == with || !self.is_registered(from) || !self.is_registered(with) {
            return;
        }
        proof {
            lemma_swept_wf(self@, Sweep::Rename(from, with));
        }
        self.sweep(Sweep::Rename(from, with));
        self.apply(BranchRef::Window(with), Action::Refresh);
        self.apply(BranchRef::Window(from), Action::Refresh);
    }

    /// Retrieves the latest set of instructions for the window manager to carry out, and
    /// forgets them.
    pub fn events(&mut self) -> (out: Vec<Event>)
        ensures
            out@ == old(self)@.events(),
            final(self)@ == old(self)@.drained(),
            old(self).wf() ==> final(self).wf(),
    {
        proof {
            if self.wf() {
                lemma_commands_distinct(self@, WindowID(0, 0), WindowID(0, 0));
                lemma_commands_shown(self@, WindowID(0, 0), WindowID(0, 0), 0, 0);
                lemma_commands_wf(self@, WindowID(0, 0), WindowID(0, 0));
            }
        }
        let mut i: usize = 0;
        while i < self.event_queue.forks.len()
            invariant
                0 <= i <= self.event_queue.forks.len(),
                self@ == (TilerView { forks: self@.forks, ..old(self)@ }),
                self@.forks == without_forks(old(self)@.forks, self@.queue.forks.take(i as int)),
            decreases self.event_queue.forks.len() - i,
        {
            let (handle, e) = self.event_queue.forks[i];
            proof {
                assert(self@.queue.forks.take(i + 1).drop_last() =~= self@.queue.forks.take(
                    i as int,
                ));
            }
            if e.destroy && handle < self.forks.len() {
                self.forks[handle] = false;
            }
            i += 1;
        }
        assert(self@.queue.forks.take(i as int) =~= self@.queue.forks);
        i = 0;
        while i < self.event_queue.stacks.len()
            invariant
                0 <= i <= self.event_queue.stacks.len(),
                self@ == (TilerView {
                    forks: without_forks(old(self)@.forks, old(self)@.queue.forks),
                    stacks: self@.stacks,
                    ..old(self)@
                }),
                self@.stacks == without_stacks(old(self)@.stacks, self@.queue.stacks.take(i as int)),
            decreases self.event_queue.stacks.len() - i,
        {
            let (handle, e) = self.event_queue.stacks[i];
            proof {
                assert(self@.queue.stacks.take(i + 1).drop_last() =~= self@.queue.stacks.take(
                    i as int,
                ));
            }
            if e.destroy && handle < self.stacks.len() {
                self.stacks[handle] = false;
            }
            i += 1;
        }
        assert(self@.queue.stacks.take(i as int) =~= self@.queue.stacks);
        let mut out = self.event_queue.consume_events();
        let ghost first = out@;
        if self.active_workspace_changed {
            out.push(Event::FocusWorkspace(self.active_workspace));
        }
        let ghost second = out@;
        match self.active {
            Some(a) => {
                if self.active_changed {
                    out.push(Event::Focus(a));
                }
            },
            None => {},
        }
        self.active_changed = false;
        self.active_workspace_changed = false;
        assert(out@ =~= old(self)@.events());
        out
    }
}

} // verus!
