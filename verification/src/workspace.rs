use vstd::prelude::*;
use crate::action::{Action, Applied, Outcome};
use crate::events::{EventQueue, QueueView};
use crate::fork::{Branch, BranchRef, BranchView, Fork, ForkView};
use crate::geom::Rect;
use crate::shape::{lemma_retiled_joined, lemma_retiled_tiled};
use crate::sound::{lemma_applied_sound, lemma_renamed, lemma_viewed};
use crate::window::{Window, WindowID};

verus! {

/// A virtual workspace, which is assigned to a display, may hold a tree of tiles, and may
/// have a focused window.
#[derive(Debug)]
pub struct Workspace {
    pub id: u32,
    /// The ID of the display that shows the workspace.
    pub display: u32,
    /// The area of that display, on which the tree is laid.
    pub area: Rect,
    /// The root of the tree.
    pub fork: Option<Fork>,
    pub focus: Option<WindowID>,
}

/// What a workspace holds.
pub struct WorkspaceView {
    pub id: u32,
    pub display: u32,
    pub area: Rect,
    pub fork: Option<ForkView>,
    pub focus: Option<WindowID>,
}

/// Something that is done to every workspace in turn.
#[derive(Copy, Clone, Debug)]
pub enum Sweep {
    /// The workspaces of the display `from` go to the display `to`, whose area is `area`.
    Move { from: u32, to: u32, area: Rect },
    /// The windows are shown or hidden as they should be when this workspace is on view.
    View(u32),
    /// Two windows exchange their names.
    Rename(WindowID, WindowID),
}

/// A workspace and a queue after an action, with what the action did.
pub struct Rooted {
    /// Whether the target of the action is on the workspace.
    pub found: bool,
    pub workspace: WorkspaceView,
    pub queue: QueueView,
    pub picked: Option<WindowID>,
    pub made: bool,
}

impl WorkspaceView {
    /// The area is valid, and the root, where there is one, is a well-formed fork without
    /// a parent that lies on this workspace and on its area.
    pub open spec fn wf(self) -> bool {
        &&& self.area.valid()
        &&& match self.fork {
            Some(f) => {
                &&& f.wf()
                &&& f.parent is None
                &&& f.workspace == self.id
                &&& f.area == self.area
            },
            None => true,
        }
    }

    /// The windows on the workspace, from left to right.
    pub open spec fn leaves(self) -> Seq<Window> {
        match self.fork {
            Some(f) => f.leaves(),
            None => Seq::empty(),
        }
    }

    /// What `action` on `target` does to the workspace. A root that is gone leaves the
    /// workspace without a tree; a fork that replaced the root is laid on the
    /// workspace's area.
    pub open spec fn applied(self, target: BranchRef, action: Action, q: QueueView) -> Rooted {
        match self.fork {
            None => Rooted { found: false, workspace: self, queue: q, picked: None, made: false },
            Some(f) => {
                let s = f.applied(target, action, q);
                match s.outcome {
                    Outcome::Missing => Rooted {
                        found: false,
                        workspace: self,
                        queue: q,
                        picked: None,
                        made: false,
                    },
                    Outcome::Kept => Rooted {
                        found: true,
                        workspace: WorkspaceView { fork: Some(s.fork), ..self },
                        queue: s.queue,
                        picked: s.picked,
                        made: s.made,
                    },
                    Outcome::Replaced => Rooted {
                        found: true,
                        workspace: WorkspaceView {
                            fork: Some(s.fork.retiled(self.area)),
                            ..self
                        },
                        queue: s.fork.retiled(self.area).announce(s.queue),
                        picked: s.picked,
                        made: s.made,
                    },
                    Outcome::Gone => Rooted {
                        found: true,
                        workspace: WorkspaceView { fork: None, ..self },
                        queue: s.queue,
                        picked: s.picked,
                        made: s.made,
                    },
                }
            },
        }
    }

    /// The workspace on the display `display` with the area `area`, its tree laid on
    /// that area.
    pub open spec fn moved_to(self, display: u32, area: Rect) -> WorkspaceView {
        WorkspaceView {
            display,
            area,
            fork: match self.fork {
                Some(f) => Some(f.retiled(area)),
                None => None,
            },
            ..self
        }
    }

    /// The queue after the placement of every node of the workspace was recorded.
    pub open spec fn announce(self, q: QueueView) -> QueueView {
        match self.fork {
            Some(f) => f.announce(q),
            None => q,
        }
    }

    /// The workspace with its windows shown or hidden for a switch of workspaces.
    pub open spec fn viewed(self, on_view: bool) -> WorkspaceView {
        WorkspaceView {
            fork: match self.fork {
                Some(f) => Some(f.viewed(on_view)),
                None => None,
            },
            ..self
        }
    }

    /// The queue after each change of visibility that `viewed` makes was recorded.
    pub open spec fn announce_viewed(self, q: QueueView, on_view: bool) -> QueueView {
        match self.fork {
            Some(f) => f.announce_viewed(q, on_view),
            None => q,
        }
    }

    /// Every window of the workspace is visible exactly if the workspace is on view and
    /// the window is not a member of a stack that is not the raised one.
    pub open spec fn shown(self, on_view: bool) -> bool {
        match self.fork {
            Some(f) => f.shown(on_view),
            None => true,
        }
    }

    /// The workspace with the names `a` and `b` exchanged among its windows.
    pub open spec fn renamed(self, a: WindowID, b: WindowID) -> WorkspaceView {
        WorkspaceView {
            fork: match self.fork {
                Some(f) => Some(f.renamed(a, b)),
                None => None,
            },
            ..self
        }
    }

    /// The workspace after `sweep` came over it.
    pub open spec fn swept(self, sweep: Sweep) -> WorkspaceView {
        match sweep {
            Sweep::Move { from, to, area } => if self.display == from {
                self.moved_to(to, area)
            } else {
                self
            },
            Sweep::View(on_view) => self.viewed(self.id == on_view),
            Sweep::Rename(a, b) => self.renamed(a, b),
        }
    }

    /// The queue after `sweep` came over the workspace.
    pub open spec fn announce_swept(self, q: QueueView, sweep: Sweep) -> QueueView {
        match sweep {
            Sweep::Move { from, to, area } => if self.display == from {
                self.moved_to(to, area).announce(q)
            } else {
                q
            },
            Sweep::View(on_view) => self.announce_viewed(q, self.id == on_view),
            Sweep::Rename(a, b) => q,
        }
    }

    /// The root that a workspace without a tree gets for its first window `n`: a fork
    /// with the handle `handle` that holds the window alone.
    pub open spec fn first_root(self, n: Window, handle: usize) -> ForkView {
        ForkView::starting(
            handle,
            self.area,
            BranchView::Window(
                Window { fork: Some(handle), stack: None, workspace: self.id, ..n },
            ),
            self.id,
        )
    }

    /// The workspace with the window `n` as its first: the new root is announced, holds
    /// the window on the whole area, and the window has the focus of the workspace.
    pub open spec fn planted(self, n: Window, handle: usize) -> WorkspaceView {
        WorkspaceView {
            fork: Some(self.first_root(n, handle).retiled(self.area)),
            focus: Some(n.id),
            ..self
        }
    }

    /// The queue after the first window of the workspace was planted.
    pub open spec fn announce_planted(self, q: QueueView, n: Window, handle: usize) -> QueueView {
        self.first_root(n, handle).retiled(self.area).announce(
            q.fork_update(handle, self.first_root(n, handle).update()),
        )
    }
}

impl View for Workspace {
    type V = WorkspaceView;

    open spec fn view(&self) -> WorkspaceView {
        WorkspaceView {
            id: self.id,
            display: self.display,
            area: self.area,
            fork: match self.fork {
                Some(f) => Some(f@),
                None => None,
            },
            focus: self.focus,
        }
    }
}

/// An action leaves a well-formed workspace well formed.
pub proof fn lemma_workspace_applied(w: WorkspaceView, target: BranchRef, action: Action, q: QueueView)
    requires
        w.wf(),
    ensures
        w.applied(target, action, q).workspace.wf(),
        w.applied(target, action, q).workspace.id == w.id,
        w.applied(target, action, q).workspace.display == w.display,
        w.applied(target, action, q).workspace.area == w.area,
        w.applied(target, action, q).workspace.focus == w.focus,
{
    match w.fork {
        None => {},
        Some(f) => {
            lemma_applied_sound(f, target, action, q);
            let s = f.applied(target, action, q);
            if s.outcome == Outcome::Replaced {
                lemma_retiled_joined(s.fork, w.area);
                lemma_retiled_tiled(s.fork, w.area);
            }
        },
    }
}

/// A workspace is well formed on every valid area that its tree is laid on, and when its
/// windows are shown or hidden, or two names exchanged.
pub proof fn lemma_workspace_steps(w: WorkspaceView, display: u32, area: Rect, on_view: bool, a: WindowID, b: WindowID)
    requires
        w.wf(),
    ensures
        area.valid() ==> w.moved_to(display, area).wf(),
        w.viewed(on_view).wf(),
        w.viewed(on_view).shown(on_view),
        w.renamed(a, b).wf(),
{
    match w.fork {
        None => {},
        Some(f) => {
            if area.valid() {
                lemma_retiled_joined(f, area);
                lemma_retiled_tiled(f, area);
            }
            lemma_viewed(f, on_view);
            lemma_renamed(f, a, b);
        },
    }
}

/// A sweep leaves a well-formed workspace well formed, with its ID and its focus; and
/// with its display and area, unless it moves the workspace.
pub proof fn lemma_workspace_swept(w: WorkspaceView, sweep: Sweep)
    requires
        w.wf(),
        sweep matches Sweep::Move { area, .. } ==> area.valid(),
    ensures
        w.swept(sweep).wf(),
        w.swept(sweep).id == w.id,
        w.swept(sweep).focus == w.focus,
        match sweep {
            Sweep::Move { from, to, area } => if w.display == from {
                w.swept(sweep).display == to && w.swept(sweep).area == area
            } else {
                w.swept(sweep) == w
            },
            _ => w.swept(sweep).display == w.display && w.swept(sweep).area == w.area,
        },
        sweep matches Sweep::View(k) ==> w.swept(sweep).shown(w.id == k),
{
    match sweep {
        Sweep::Move { from, to, area } => {
            lemma_workspace_steps(w, to, area, true, WindowID(0, 0), WindowID(0, 0));
        },
        Sweep::View(k) => {
            lemma_workspace_steps(w, 0, w.area, w.id == k, WindowID(0, 0), WindowID(0, 0));
        },
        Sweep::Rename(a, b) => {
            lemma_workspace_steps(w, 0, w.area, true, a, b);
        },
    }
}

/// A workspace without a tree is well formed once its first window is planted.
pub proof fn lemma_workspace_planted(w: WorkspaceView, n: Window, handle: usize)
    requires
        w.wf(),
    ensures
        w.planted(n, handle).wf(),
{
    let root = w.first_root(n, handle);
    assert(root.joined());
    lemma_retiled_joined(root, w.area);
    lemma_retiled_tiled(root, w.area);
}

impl Workspace {
    /// A workspace without windows on the display `display`, whose area is `area`.
    pub fn new(id: u32, display: u32, area: Rect) -> (w: Workspace)
        ensures
            w@ == (WorkspaceView { id, display, area, fork: None, focus: None }),
    {
        Workspace { id, display, area, fork: None, focus: None }
    }

    /// The area of the display that shows the workspace.
    pub fn area(&self) -> (r: Rect)
        ensures
            r == self@.area,
    {
        self.area
    }

    /// The root of the workspace's tree.
    pub fn fork(&self) -> (r: Option<&Fork>)
        ensures
            match r {
                Some(f) => self@.fork == Some(f@),
                None => self@.fork is None,
            },
    {
        self.fork.as_ref()
    }

    pub fn id(&self) -> (r: u32)
        ensures
            r == self@.id,
    {
        self.id
    }

    /// The windows on the workspace, from left to right.
    pub fn windows(&self) -> (r: Vec<Window>)
        ensures
            r@ == self@.leaves(),
    {
        match &self.fork {
            Some(f) => f.windows(),
            None => Vec::new(),
        }
    }

    /// Does `action` on `target` in the tree of the workspace, and says whether the
    /// target was found there.
    pub fn apply(&mut self, target: BranchRef, action: Action, queue: &mut EventQueue) -> (r:
        Applied)
        requires
            old(self)@.wf(),
        ensures
            old(queue)@.wf() ==> final(queue)@.wf(),
            final(self)@ == old(self)@.applied(target, action, old(queue)@).workspace,
            final(queue)@ == old(self)@.applied(target, action, old(queue)@).queue,
            r.picked == old(self)@.applied(target, action, old(queue)@).picked,
            r.made == old(self)@.applied(target, action, old(queue)@).made,
            (r.outcome != Outcome::Missing) == old(self)@.applied(
                target,
                action,
                old(queue)@,
            ).found,
            final(self)@.wf(),
    {
        proof {
            lemma_workspace_applied(self@, target, action, queue@);
        }
        let area = self.area;
        let mut res = Applied { outcome: Outcome::Missing, picked: None, made: false };
        let mut gone = false;
        match &mut self.fork {
            Some(f) => {
                proof {
                    crate::action::lemma_missing_unchanged(f@, target, action, queue@);
                }
                res = f.apply(target, action, queue);
                match res.outcome {
                    Outcome::Replaced => {
                        f.work_area_update(area, queue);
                    },
                    Outcome::Gone => {
                        gone = true;
                    },
                    _ => {},
                }
            },
            None => {},
        }
        if gone {
            self.fork = None;
        }
        res
    }

    /// Moves the workspace to the display `display` with the area `area`, lays its tree
    /// on that area and records every placement.
    pub fn work_area_update(&mut self, display: u32, area: Rect, queue: &mut EventQueue)
        requires
            area.valid(),
        ensures
            old(queue)@.wf() ==> final(queue)@.wf(),
            final(self)@ == old(self)@.moved_to(display, area),
            final(queue)@ == final(self)@.announce(old(queue)@),
    {
        self.display = display;
        self.area = area;
        match &mut self.fork {
            Some(f) => {
                f.work_area_update(area, queue);
            },
            None => {},
        }
    }

    /// Shows or hides the windows of the workspace for a switch of workspaces, and
    /// records each change.
    pub fn set_view(&mut self, on_view: bool, queue: &mut EventQueue)
        ensures
            old(queue)@.wf() ==> final(queue)@.wf(),
            final(self)@ == old(self)@.viewed(on_view),
            final(queue)@ == old(self)@.announce_viewed(old(queue)@, on_view),
    {
        match &mut self.fork {
            Some(f) => {
                f.set_view(on_view, queue);
            },
            None => {},
        }
    }

    /// Exchanges the names `a` and `b` among the windows of the workspace.
    pub fn rename(&mut self, a: WindowID, b: WindowID)
        ensures
            final(self)@ == old(self)@.renamed(a, b),
    {
        match &mut self.fork {
            Some(f) => {
                f.rename(a, b);
            },
            None => {},
        }
    }

    /// Lets `sweep` come over the workspace.
    pub fn sweep(&mut self, sweep: Sweep, queue: &mut EventQueue)
        requires
            sweep matches Sweep::Move { area, .. } ==> area.valid(),
        ensures
            old(queue)@.wf() ==> final(queue)@.wf(),
            final(self)@ == old(self)@.swept(sweep),
            final(queue)@ == old(self)@.announce_swept(old(queue)@, sweep),
    {
        match sweep {
            Sweep::Move { from, to, area } => {
                if self.display == from {
                    self.work_area_update(to, area, queue);
                }
            },
            Sweep::View(on_view) => {
                let on = self.id == on_view;
                self.set_view(on, queue);
            },
            Sweep::Rename(a, b) => {
                self.rename(a, b);
            },
        }
    }

    /// Gives the workspace a root with the handle `handle` that holds the window `n`
    /// alone, and gives that window the focus of the workspace.
    pub fn plant(&mut self, n: Window, handle: usize, queue: &mut EventQueue)
        requires
            old(self)@.area.valid(),
        ensures
            old(queue)@.wf() ==> final(queue)@.wf(),
            final(self)@ == old(self)@.planted(n, handle),
            final(queue)@ == old(self)@.announce_planted(old(queue)@, n, handle),
    {
        let mut member = n;
        member.fork = Some(handle);
        member.stack = None;
        member.workspace = self.id;
        let mut root = Fork::new(handle, self.area, Branch::Window(member), self.id);
        root.announce_self(queue);
        root.work_area_refresh(queue);
        self.fork = Some(root);
        self.focus = Some(n.id);
    }
}

} // verus!
