use vstd::prelude::*;
use either::Either;
use crate::events::{EventQueue, ForkUpdate, Placement, QueueView};
use crate::geom::Rect;
use crate::orientation::{preferred, preferred_orientation, Orientation};
use crate::stack::{exchange, exchanged, Stack, StackView};
use crate::window::{Window, WindowID};

verus! {

/// A child of a fork.
#[derive(Debug)]
pub enum Branch {
    Window(Window),
    Fork(Box<Fork>),
    Stack(Stack),
}

/// The identity of a node of the tile tree.
#[derive(Copy, Clone, Debug, PartialEq, Eq)]
pub enum BranchRef {
    Window(WindowID),
    Fork(usize),
    Stack(usize),
}

/// Splits a tile into two branching paths.
///
/// A branch may contain a window, a stack, or another fork. The dimensions of a fork are
/// split between the two branches vertically or horizontally.
#[derive(Debug)]
pub struct Fork {
    /// The handle by which events name this fork.
    pub handle: usize,
    /// The position and dimensions of this fork and its children.
    pub area: Rect,
    /// Handle of the parent of this fork; none for the root of a workspace.
    pub parent: Option<usize>,
    /// The left branch, which is only permitted to be a fork if the right branch is also there.
    pub left: Branch,
    /// Right branch, which may be empty.
    pub right: Option<Branch>,
    /// The ID of the workspace that the fork is attached to.
    pub workspace: u32,
    /// How branches in this fork are aligned.
    pub orientation: Orientation,
    /// Location of the split in this fork: the length of the left branch along the axis.
    pub split_handle: u32,
    /// Tracks when we should flip branches.
    pub orientation_toggled: bool,
}

/// What a branch holds.
pub enum BranchView {
    Window(Window),
    Fork(Box<ForkView>),
    Stack(StackView),
}

/// What a fork holds.
pub struct ForkView {
    pub handle: usize,
    pub area: Rect,
    pub parent: Option<usize>,
    pub left: BranchView,
    pub right: Option<BranchView>,
    pub workspace: u32,
    pub orientation: Orientation,
    pub split_handle: u32,
    pub orientation_toggled: bool,
}

/// A split of a length `from`, carried over to a length `to` in proportion, and never
/// longer than `to`.
pub open spec fn scale(split: u32, from: u32, to: u32) -> u32 {
    if from == 0 {
        if split < to {
            split
        } else {
            to
        }
    } else if (to * split) / (from as int) < to {
        ((to * split) / (from as int)) as u32
    } else {
        to
    }
}

/// The split that a new fork starts with: just before the middle of its axis.
pub open spec fn initial_split(axis: u32) -> u32 {
    if axis / 2 >= 1 {
        (axis / 2 - 1) as u32
    } else {
        0
    }
}

impl BranchView {
    /// The identity of the node in this branch.
    pub open spec fn id(self) -> BranchRef {
        match self {
            BranchView::Window(w) => BranchRef::Window(w.id),
            BranchView::Fork(f) => BranchRef::Fork(f.handle),
            BranchView::Stack(s) => BranchRef::Stack(s.handle),
        }
    }

    /// The branch laid on `area`, with all below it.
    pub open spec fn retiled(self, area: Rect) -> BranchView
        decreases self,
    {
        match self {
            BranchView::Window(w) => BranchView::Window(Window { rect: area, ..w }),
            BranchView::Fork(f) => BranchView::Fork(Box::new(f.retiled(area))),
            BranchView::Stack(s) => BranchView::Stack(s.moved_to(area)),
        }
    }

    /// The queue after the placement of every node of this branch was recorded.
    pub open spec fn announce(self, q: QueueView) -> QueueView
        decreases self,
    {
        match self {
            BranchView::Window(w) => q.window_place(
                w.id,
                Placement { area: w.rect, workspace: w.workspace },
            ),
            BranchView::Fork(f) => f.announce(q),
            BranchView::Stack(s) => s.announce(q),
        }
    }

    /// The windows of this branch, from left to right.
    pub open spec fn leaves(self) -> Seq<Window>
        decreases self,
    {
        match self {
            BranchView::Window(w) => seq![w],
            BranchView::Fork(f) => f.leaves(),
            BranchView::Stack(s) => s.windows,
        }
    }
}

impl ForkView {
    /// The length of the fork's area along the axis that it splits.
    pub open spec fn axis(self) -> u32 {
        self.orientation.axis(self.area)
    }

    /// What the fork tells the window manager of itself.
    pub open spec fn update(self) -> ForkUpdate {
        ForkUpdate {
            workspace: self.workspace,
            orientation: self.orientation,
            rect: self.area,
            handle: self.split_handle,
        }
    }

    /// The part of the area that the left branch gets: all of it while there is no right
    /// branch, else what lies before the split.
    pub open spec fn left_rect(self) -> Rect {
        if self.right is None {
            self.area
        } else {
            match self.orientation {
                Orientation::Vertical => Rect { height: self.split_handle, ..self.area },
                Orientation::Horizontal => Rect { width: self.split_handle, ..self.area },
            }
        }
    }

    /// The part of the area that the right branch gets: what lies after the split.
    pub open spec fn right_rect(self) -> Rect {
        match self.orientation {
            Orientation::Vertical => Rect {
                y: (self.area.y + self.split_handle) as u32,
                height: (self.area.height - self.split_handle) as u32,
                ..self.area
            },
            Orientation::Horizontal => Rect {
                x: (self.area.x + self.split_handle) as u32,
                width: (self.area.width - self.split_handle) as u32,
                ..self.area
            },
        }
    }

    /// A fork with one branch, no parent, the orientation that suits `area`, and its split
    /// just before the middle.
    pub open spec fn starting(handle: usize, area: Rect, left: BranchView, workspace: u32)
        -> ForkView {
        ForkView {
            handle,
            area,
            parent: None,
            left,
            right: None,
            workspace,
            orientation: preferred(area),
            split_handle: initial_split(preferred(area).axis(area)),
            orientation_toggled: false,
        }
    }

    /// The fork laid on `area`: its split carried over in proportion, and each branch laid
    /// on its part.
    pub open spec fn retiled(self, area: Rect) -> ForkView
        decreases self,
    {
        let moved = ForkView {
            area,
            split_handle: scale(self.split_handle, self.axis(), self.orientation.axis(area)),
            ..self
        };
        ForkView {
            left: self.left.retiled(moved.left_rect()),
            right: match self.right {
                Some(r) => Some(r.retiled(moved.right_rect())),
                None => None,
            },
            ..moved
        }
    }

    /// The queue after the placement of every node of this fork was recorded: the left
    /// branch, the right branch, then the fork itself.
    pub open spec fn announce(self, q: QueueView) -> QueueView
        decreases self,
    {
        let q1 = self.left.announce(q);
        let q2 = match self.right {
            Some(r) => r.announce(q1),
            None => q1,
        };
        q2.fork_update(self.handle, self.update())
    }

    /// The windows of this fork, from left to right.
    pub open spec fn leaves(self) -> Seq<Window>
        decreases self,
    {
        self.left.leaves() + match self.right {
            Some(r) => r.leaves(),
            None => Seq::empty(),
        }
    }

    /// The fork with its split at `split`, or at the end of its axis where `split` lies
    /// beyond it.
    pub open spec fn resized_before(self, split: u32) -> ForkView {
        ForkView {
            split_handle: if split < self.axis() {
                split
            } else {
                self.axis()
            },
            ..self
        }
    }

    /// The fork with its split at `split`, or at the end of its axis where `split` lies
    /// beyond it, and laid on its area again.
    pub open spec fn resized(self, split: u32) -> ForkView {
        self.resized_before(split).retiled(self.area)
    }

    /// The fork with its branches exchanged, where it has two.
    pub open spec fn flipped(self) -> ForkView {
        match self.right {
            Some(r) => ForkView { left: r, right: Some(self.left), ..self },
            None => self,
        }
    }

    /// The fork turned to the other orientation: the split carried over to the other axis
    /// in proportion, and the branches exchanged on every second turn.
    pub open spec fn turned(self) -> ForkView {
        let turned = ForkView {
            orientation: self.orientation.flipped(),
            split_handle: scale(
                self.split_handle,
                self.axis(),
                self.orientation.flipped().axis(self.area),
            ),
            orientation_toggled: !self.orientation_toggled,
            ..self
        };
        if self.orientation_toggled {
            turned.flipped()
        } else {
            turned
        }
    }

    /// The fork turned to the other orientation, and all of it laid on its area again.
    pub open spec fn toggled(self) -> ForkView {
        self.turned().retiled(self.area)
    }

    /// `w` with the back-reference and the workspace of a window that this fork holds.
    pub open spec fn linked(self, w: Window) -> Window {
        Window { fork: Some(self.handle), stack: None, workspace: self.workspace, ..w }
    }

    /// The fork with `their` in the place of the window `our`, shown as that window was,
    /// where a branch of the fork is that window: the left branch first.
    pub open spec fn swapped(self, our: WindowID, their: Window) -> ForkView {
        if self.left.id() == BranchRef::Window(our) {
            ForkView {
                left: BranchView::Window(
                    Window {
                        rect: self.left_rect(),
                        visible: self.left->Window_0.visible,
                        ..self.linked(their)
                    },
                ),
                ..self
            }
        } else if self.right is Some && self.right.unwrap().id() == BranchRef::Window(our) {
            ForkView {
                right: Some(
                    BranchView::Window(
                        Window {
                            rect: self.right_rect(),
                            visible: self.right.unwrap()->Window_0.visible,
                            ..self.linked(their)
                        },
                    ),
                ),
                ..self
            }
        } else {
            self
        }
    }

    /// The fork with its split in the middle of its axis.
    pub open spec fn halved(self) -> ForkView {
        ForkView { split_handle: self.axis() / 2, ..self }
    }

    /// The fork with its split in the middle and, where its orientation does not suit its
    /// area, turned.
    pub open spec fn reset(self) -> ForkView {
        if self.orientation != preferred(self.area) {
            self.halved().turned()
        } else {
            self.halved()
        }
    }

    /// The fork in the orientation `orientation`: turned where it had the other.
    pub open spec fn oriented(self, orientation: Orientation) -> ForkView {
        if self.orientation == orientation {
            self
        } else {
            self.turned()
        }
    }
}

/// What the branch `b` holds.
pub open spec fn branch_view(b: Branch) -> BranchView
    decreases b,
{
    match b {
        Branch::Window(w) => BranchView::Window(w),
        Branch::Fork(f) => BranchView::Fork(Box::new(fork_view(*f))),
        Branch::Stack(s) => BranchView::Stack(s@),
    }
}

/// What the fork `f` holds.
pub open spec fn fork_view(f: Fork) -> ForkView
    decreases f,
{
    ForkView {
        handle: f.handle,
        area: f.area,
        parent: f.parent,
        left: branch_view(f.left),
        right: match f.right {
            Some(r) => Some(branch_view(r)),
            None => None,
        },
        workspace: f.workspace,
        orientation: f.orientation,
        split_handle: f.split_handle,
        orientation_toggled: f.orientation_toggled,
    }
}

impl View for Branch {
    type V = BranchView;

    open spec fn view(&self) -> BranchView {
        branch_view(*self)
    }
}

impl View for Fork {
    type V = ForkView;

    open spec fn view(&self) -> ForkView {
        fork_view(*self)
    }
}

/// A split of a length `from`, carried over to a length `to` in proportion.
pub fn scaled(split: u32, from: u32, to: u32) -> (r: u32)
    ensures
        r == scale(split, from, to),
        r <= to,
{
    if from == 0 {
        if split < to {
            split
        } else {
            to
        }
    } else {
        assert(to * split <= 0xffff_ffff * 0xffff_ffff) by (nonlinear_arith)
            requires
                to <= 0xffff_ffff,
                split <= 0xffff_ffff,
        ;
        let s: u64 = (to as u64) * (split as u64) / (from as u64);
        if s < to as u64 {
            s as u32
        } else {
            to
        }
    }
}

impl Branch {
    /// Whether this branch holds the node that `other` names.
    pub fn ref_eq(&self, other: BranchRef) -> (r: bool)
        ensures
            r == (self@.id() == other),
    {
        match (self, other) {
            (Branch::Window(a), BranchRef::Window(b)) => a.id == b,
            (Branch::Fork(a), BranchRef::Fork(b)) => a.handle == b,
            (Branch::Stack(a), BranchRef::Stack(b)) => a.handle == b,
            _ => false,
        }
    }

    /// Lays the branch and all below it on `area`, and records every placement.
    pub fn work_area_update(&mut self, area: Rect, queue: &mut EventQueue)
        requires
            area.valid(),
        ensures
            old(queue)@.wf() ==> final(queue)@.wf(),
            final(self)@ == old(self)@.retiled(area),
            final(queue)@ == final(self)@.announce(old(queue)@),
        decreases *old(self),
    {
        match self {
            Branch::Window(w) => {
                w.rect = area;
                queue.window_place(w.id, Placement { area, workspace: w.workspace });
            },
            Branch::Fork(f) => {
                f.work_area_update(area, queue);
            },
            Branch::Stack(s) => {
                s.work_area_update(area, queue);
            },
        }
    }

    /// Appends the windows of this branch to `out`, from left to right.
    pub fn collect(&self, out: &mut Vec<Window>)
        ensures
            final(out)@ == old(out)@ + self@.leaves(),
        decreases *self,
    {
        match self {
            Branch::Window(w) => {
                out.push(*w);
                assert(out@ =~= old(out)@ + self@.leaves());
            },
            Branch::Fork(f) => {
                f.collect(out);
            },
            Branch::Stack(s) => {
                let mut i: usize = 0;
                while i < s.windows.len()
                    invariant
                        0 <= i <= s.windows.len(),
                        out@ == old(out)@ + s.windows@.take(i as int),
                    decreases s.windows.len() - i,
                {
                    out.push(s.windows[i]);
                    assert(out@ =~= old(out)@ + s.windows@.take(i + 1));
                    i += 1;
                }
                assert(s.windows@.take(i as int) =~= s.windows@);
            },
        }
    }
}

impl Fork {
    /// A fork with one branch and no parent, in the orientation that suits `area`.
    pub fn new(handle: usize, area: Rect, left: Branch, workspace: u32) -> (f: Fork)
        ensures
            f@ == ForkView::starting(handle, area, left@, workspace),
    {
        let orientation = preferred_orientation(area);
        let half = orientation.axis_of(&area) / 2;
        Fork {
            handle,
            area,
            parent: None,
            left,
            right: None,
            workspace,
            orientation,
            split_handle: if half >= 1 {
                half - 1
            } else {
                0
            },
            orientation_toggled: false,
        }
    }

    /// Whether the left branch holds the node that `branch` names.
    pub fn left_is(&self, branch: BranchRef) -> (r: bool)
        ensures
            r == (self@.left.id() == branch),
    {
        self.left.ref_eq(branch)
    }

    /// Whether the right branch holds the node that `branch` names.
    pub fn right_is(&self, branch: BranchRef) -> (r: bool)
        ensures
            r == (self@.right is Some && self@.right.unwrap().id() == branch),
    {
        match &self.right {
            Some(r) => r.ref_eq(branch),
            None => false,
        }
    }

    /// The length of the fork's area along the axis that it splits.
    pub fn axis(&self) -> (r: u32)
        ensures
            r == self@.axis(),
    {
        self.orientation.axis_of(&self.area)
    }

    /// Records the fork's dimensions and split.
    pub fn announce_self(&self, queue: &mut EventQueue)
        ensures
            old(queue)@.wf() ==> final(queue)@.wf(),
            final(queue)@ == old(queue)@.fork_update(self.handle, self@.update()),
    {
        queue.fork_update(
            self.handle,
            ForkUpdate {
                workspace: self.workspace,
                orientation: self.orientation,
                rect: self.area,
                handle: self.split_handle,
            },
        );
    }

    /// Recalculate the work areas of the fork's branches.
    pub fn work_area_refresh(&mut self, queue: &mut EventQueue)
        requires
            old(self).area.valid(),
        ensures
            old(queue)@.wf() ==> final(queue)@.wf(),
            final(self)@ == old(self)@.retiled(old(self).area),
            final(queue)@ == final(self)@.announce(old(queue)@),
    {
        let area = self.area;
        self.work_area_update(area, queue);
    }

    /// Update the work area of the fork and its branches: the split is carried over in
    /// proportion, the left branch gets what lies before it and the right branch what
    /// lies after it, and every placement is recorded.
    pub fn work_area_update(&mut self, area: Rect, queue: &mut EventQueue)
        requires
            area.valid(),
        ensures
            old(queue)@.wf() ==> final(queue)@.wf(),
            final(self)@ == old(self)@.retiled(area),
            final(queue)@ == final(self)@.announce(old(queue)@),
        decreases *old(self),
    {
        let split = scaled(self.split_handle, self.axis(), self.orientation.axis_of(&area));
        self.split_handle = split;
        self.area = area;
        let left_rect = if self.right.is_none() {
            area
        } else {
            match self.orientation {
                Orientation::Vertical => Rect::new(area.x, area.y, area.width, split),
                Orientation::Horizontal => Rect::new(area.x, area.y, split, area.height),
            }
        };
        self.left.work_area_update(left_rect, queue);
        match &mut self.right {
            Some(right) => {
                let right_rect = match self.orientation {
                    Orientation::Vertical => Rect::new(
                        area.x,
                        area.y + split,
                        area.width,
                        area.height - split,
                    ),
                    Orientation::Horizontal => Rect::new(
                        area.x + split,
                        area.y,
                        area.width - split,
                        area.height,
                    ),
                };
                right.work_area_update(right_rect, queue);
            },
            None => {},
        }
        self.announce_self(queue);
    }

    /// Appends the windows of this fork to `out`, from left to right.
    pub fn collect(&self, out: &mut Vec<Window>)
        ensures
            final(out)@ == old(out)@ + self@.leaves(),
        decreases *self,
    {
        self.left.collect(out);
        match &self.right {
            Some(r) => {
                r.collect(out);
            },
            None => {},
        }
        assert(out@ =~= old(out)@ + self@.leaves());
    }

    /// The windows of this fork, from left to right.
    pub fn windows(&self) -> (r: Vec<Window>)
        ensures
            r@ == self@.leaves(),
    {
        let mut out: Vec<Window> = Vec::new();
        self.collect(&mut out);
        assert(out@ =~= self@.leaves());
        out
    }
}

impl BranchView {
    /// The branch with its windows shown or hidden for a switch of workspaces: a window on
    /// its own is shown if its workspace is on view, a member of a stack if it is also
    /// the raised one.
    pub open spec fn viewed(self, on_view: bool) -> BranchView
        decreases self,
    {
        match self {
            BranchView::Window(w) => BranchView::Window(Window { visible: on_view, ..w }),
            BranchView::Fork(f) => BranchView::Fork(Box::new(f.viewed(on_view))),
            BranchView::Stack(s) => BranchView::Stack(s.viewed(on_view)),
        }
    }

    /// The queue after each change of visibility that `viewed` makes was recorded,
    /// from left to right.
    pub open spec fn announce_viewed(self, q: QueueView, on_view: bool) -> QueueView
        decreases self,
    {
        match self {
            BranchView::Window(w) => if w.visible != on_view {
                q.window_visibility(w.id, on_view)
            } else {
                q
            },
            BranchView::Fork(f) => f.announce_viewed(q, on_view),
            BranchView::Stack(s) => s.announce_viewed(q, on_view),
        }
    }

    /// Every window of the branch is visible exactly if its workspace is on view and it
    /// is not a member of a stack that is not the raised one.
    pub open spec fn shown(self, on_view: bool) -> bool
        decreases self,
    {
        match self {
            BranchView::Window(w) => w.visible == on_view,
            BranchView::Fork(f) => f.shown(on_view),
            BranchView::Stack(s) => s.shown(on_view),
        }
    }

    /// The branch with the names `a` and `b` exchanged.
    pub open spec fn renamed(self, a: WindowID, b: WindowID) -> BranchView
        decreases self,
    {
        match self {
            BranchView::Window(w) => BranchView::Window(Window { id: exchange(w.id, a, b), ..w }),
            BranchView::Fork(f) => BranchView::Fork(Box::new(f.renamed(a, b))),
            BranchView::Stack(s) => BranchView::Stack(s.renamed(a, b)),
        }
    }
}

impl ForkView {
    /// The fork with its windows shown or hidden for a switch of workspaces.
    pub open spec fn viewed(self, on_view: bool) -> ForkView
        decreases self,
    {
        ForkView {
            left: self.left.viewed(on_view),
            right: match self.right {
                Some(r) => Some(r.viewed(on_view)),
                None => None,
            },
            ..self
        }
    }

    /// The queue after each change of visibility that `viewed` makes was recorded,
    /// from left to right.
    pub open spec fn announce_viewed(self, q: QueueView, on_view: bool) -> QueueView
        decreases self,
    {
        let q1 = self.left.announce_viewed(q, on_view);
        match self.right {
            Some(r) => r.announce_viewed(q1, on_view),
            None => q1,
        }
    }

    /// Every window of the fork is visible exactly if its workspace is on view and it is
    /// not a member of a stack that is not the raised one.
    pub open spec fn shown(self, on_view: bool) -> bool
        decreases self,
    {
        &&& self.left.shown(on_view)
        &&& match self.right {
            Some(r) => r.shown(on_view),
            None => true,
        }
    }

    /// The fork with the names `a` and `b` exchanged.
    pub open spec fn renamed(self, a: WindowID, b: WindowID) -> ForkView
        decreases self,
    {
        ForkView {
            left: self.left.renamed(a, b),
            right: match self.right {
                Some(r) => Some(r.renamed(a, b)),
                None => None,
            },
            ..self
        }
    }
}

impl Branch {
    /// Shows or hides the windows of the branch for a switch of workspaces, and records
    /// each change.
    pub fn set_view(&mut self, on_view: bool, queue: &mut EventQueue)
        ensures
            old(queue)@.wf() ==> final(queue)@.wf(),
            final(self)@ == old(self)@.viewed(on_view),
            final(queue)@ == old(self)@.announce_viewed(old(queue)@, on_view),
        decreases *old(self),
    {
        match self {
            Branch::Window(w) => {
                if w.visible != on_view {
                    w.visible = on_view;
                    queue.window_visibility(w.id, on_view);
                }
            },
            Branch::Fork(f) => {
                f.set_view(on_view, queue);
            },
            Branch::Stack(s) => {
                s.set_view(on_view, queue);
            },
        }
    }

    /// Exchanges the names `a` and `b` in the branch.
    pub fn rename(&mut self, a: WindowID, b: WindowID)
        ensures
            final(self)@ == old(self)@.renamed(a, b),
        decreases *old(self),
    {
        match self {
            Branch::Window(w) => {
                w.id = exchanged(w.id, a, b);
            },
            Branch::Fork(f) => {
                f.rename(a, b);
            },
            Branch::Stack(s) => {
                s.rename(a, b);
            },
        }
    }
}

impl Fork {
    /// Shows or hides the windows of the fork for a switch of workspaces, and records
    /// each change.
    pub fn set_view(&mut self, on_view: bool, queue: &mut EventQueue)
        ensures
            old(queue)@.wf() ==> final(queue)@.wf(),
            final(self)@ == old(self)@.viewed(on_view),
            final(queue)@ == old(self)@.announce_viewed(old(queue)@, on_view),
        decreases *old(self),
    {
        self.left.set_view(on_view, queue);
        match &mut self.right {
            Some(r) => {
                r.set_view(on_view, queue);
            },
            None => {},
        }
    }

    /// Exchanges the names `a` and `b` in the fork.
    pub fn rename(&mut self, a: WindowID, b: WindowID)
        ensures
            final(self)@ == old(self)@.renamed(a, b),
        decreases *old(self),
    {
        self.left.rename(a, b);
        match &mut self.right {
            Some(r) => {
                r.rename(a, b);
            },
            None => {},
        }
    }
}

/// The number of pixels that a window covers.
pub open spec fn extent(w: Window) -> int {
    w.rect.width * w.rect.height
}

/// The window at `i` is the first of `s` that no window of `s` exceeds in extent.
pub open spec fn is_largest(s: Seq<Window>, i: int) -> bool {
    &&& 0 <= i < s.len()
    &&& forall|j: int| 0 <= j < s.len() ==> extent(#[trigger] s[j]) <= extent(s[i])
    &&& forall|j: int| 0 <= j < i ==> extent(#[trigger] s[j]) < extent(s[i])
}

/// The first of the largest windows of `s`, if `s` has a window.
pub open spec fn largest_of(s: Seq<Window>) -> Option<Window> {
    if s.len() == 0 {
        None
    } else {
        Some(s[choose|i: int| is_largest(s, i)])
    }
}

/// Every list that has a window has a first largest window.
pub proof fn lemma_largest_exists(s: Seq<Window>) -> (i: int)
    requires
        s.len() > 0,
    ensures
        is_largest(s, i),
        largest_of(s) == Some(s[i]),
    decreases s.len(),
{
    let i = if s.len() == 1 {
        0
    } else {
        let t = s.drop_last();
        let j = lemma_largest_exists(t);
        if extent(s.last()) > extent(s[j]) {
            assert forall|k: int| 0 <= k < s.len() implies extent(#[trigger] s[k]) <= extent(
                s.last(),
            ) by {
                if k < t.len() {
                    assert(extent(t[k]) <= extent(t[j]));
                }
            }
            assert forall|k: int| 0 <= k < s.len() - 1 implies extent(#[trigger] s[k]) < extent(
                s.last(),
            ) by {
                assert(extent(t[k]) <= extent(t[j]));
            }
            s.len() - 1
        } else {
            assert forall|k: int| 0 <= k < s.len() implies extent(#[trigger] s[k]) <= extent(s[j]) by {
                if k < t.len() {
                    assert(extent(t[k]) <= extent(t[j]));
                }
            }
            assert forall|k: int| 0 <= k < j implies extent(#[trigger] s[k]) < extent(s[j]) by {
                assert(extent(t[k]) < extent(t[j]));
            }
            j
        }
    };
    lemma_largest_unique(s, i);
    i
}

/// There is one first largest window.
pub proof fn lemma_largest_unique(s: Seq<Window>, i: int)
    requires
        is_largest(s, i),
    ensures
        largest_of(s) == Some(s[i]),
{
    let c = choose|i: int| is_largest(s, i);
    if c < i {
        assert(extent(s[c]) < extent(s[i]));
        assert(extent(s[i]) <= extent(s[c]));
    }
    if i < c {
        assert(extent(s[i]) < extent(s[c]));
        assert(extent(s[c]) <= extent(s[i]));
    }
}

/// The first of the largest windows among `windows`.
pub fn largest(windows: &Vec<Window>) -> (r: Option<Window>)
    ensures
        r == largest_of(windows@),
{
    if windows.len() == 0 {
        return None;
    }
    let mut best: usize = 0;
    let mut i: usize = 1;
    while i < windows.len()
        invariant
            0 <= best < i <= windows.len(),
            forall|j: int| 0 <= j < i ==> extent(#[trigger] windows@[j]) <= extent(windows@[best as int]),
            forall|j: int| 0 <= j < best ==> extent(#[trigger] windows@[j]) < extent(windows@[best as int]),
        decreases windows.len() - i,
    {
        if windows[i].rect.area() > windows[best].rect.area() {
            best = i;
        }
        i += 1;
    }
    proof {
        lemma_largest_unique(windows@, best as int);
    }
    Some(windows[best])
}

impl Fork {
    /// Locates the largest window in the fork, walking all of its branches. Of several
    /// that are largest it is the leftmost.
    pub fn largest_window(&self) -> (r: Option<Window>)
        ensures
            r == largest_of(self@.leaves()),
    {
        let windows = self.windows();
        largest(&windows)
    }

    /// Exchanges the two branches, where there are two.
    pub fn flip(&mut self)
        ensures
            final(self)@ == old(self)@.flipped(),
    {
        match self.right.take() {
            Some(r) => {
                let mut other = r;
                core::mem::swap(&mut self.left, &mut other);
                self.right = Some(other);
            },
            None => {},
        }
    }

    /// Turns the fork to the other orientation without laying it out again.
    pub fn turn(&mut self)
        ensures
            final(self)@ == old(self)@.turned(),
    {
        let flipped = self.orientation.flip();
        self.split_handle = scaled(self.split_handle, self.axis(), flipped.axis_of(&self.area));
        self.orientation = flipped;
        if self.orientation_toggled {
            self.flip();
        }
        self.orientation_toggled = !self.orientation_toggled;
    }

    /// Toggle the orientation of the fork, and lay it out again.
    pub fn toggle_orientation(&mut self, queue: &mut EventQueue)
        requires
            old(self).area.valid(),
        ensures
            old(queue)@.wf() ==> final(queue)@.wf(),
            final(self)@ == old(self)@.toggled(),
            final(queue)@ == final(self)@.announce(old(queue)@),
    {
        self.turn();
        self.work_area_refresh(queue);
    }

    /// Turns the fork to `orientation` where it has the other, without laying it out again.
    pub fn orient(&mut self, orientation: Orientation)
        ensures
            final(self)@ == old(self)@.oriented(orientation),
    {
        if self.orientation != orientation {
            self.turn();
        }
    }

    /// Puts the split in the middle and turns the fork where its orientation does not
    /// suit its area, without laying it out again.
    pub fn reset(&mut self)
        ensures
            final(self)@ == old(self)@.reset(),
    {
        self.split_handle = self.axis() / 2;
        if self.orientation != preferred_orientation(self.area) {
            self.turn();
        }
    }

    /// Change the orientation of the fork, if it differs, and lay it out again if it did.
    pub fn orientation_set(&mut self, orientation: Orientation, queue: &mut EventQueue)
        requires
            old(self).area.valid(),
        ensures
            old(queue)@.wf() ==> final(queue)@.wf(),
            final(self)@ == if old(self)@.orientation == orientation {
                old(self)@
            } else {
                old(self)@.toggled()
            },
            final(queue)@ == if old(self)@.orientation == orientation {
                old(queue)@
            } else {
                final(self)@.announce(old(queue)@)
            },
    {
        if self.orientation != orientation {
            self.toggle_orientation(queue);
        }
    }

    /// Resets the orientation and split of this fork: the split goes to the middle, and
    /// where the orientation does not suit the area, the fork is turned and laid out
    /// again.
    pub fn reset_orientation(&mut self, queue: &mut EventQueue)
        requires
            old(self).area.valid(),
        ensures
            old(queue)@.wf() ==> final(queue)@.wf(),
            final(self)@ == if old(self)@.orientation == preferred(old(self)@.area) {
                old(self)@.halved()
            } else {
                old(self)@.halved().toggled()
            },
            final(queue)@ == if old(self)@.orientation == preferred(old(self)@.area) {
                old(queue)@
            } else {
                final(self)@.announce(old(queue)@)
            },
    {
        self.split_handle = self.axis() / 2;
        if self.orientation != preferred_orientation(self.area) {
            self.toggle_orientation(queue);
        }
    }

    /// Resize a fork with a new split, which is cut to the fork's axis, and lay it out again.
    pub fn resize(&mut self, split: u32, queue: &mut EventQueue)
        requires
            old(self).area.valid(),
        ensures
            old(queue)@.wf() ==> final(queue)@.wf(),
            final(self)@ == old(self)@.resized(split),
            final(queue)@ == final(self)@.announce(old(queue)@),
    {
        let axis = self.axis();
        self.split_handle = if split < axis {
            split
        } else {
            axis
        };
        self.work_area_refresh(queue);
    }

    /// Swaps a window owned by this fork with a different window.
    pub fn swap(&mut self, our: WindowID, their: Window)
        requires
            old(self)@.area.valid(),
            old(self)@.split_handle <= old(self)@.axis(),
        ensures
            final(self)@ == old(self)@.swapped(our, their),
    {
        let mut member = their;
        member.fork = Some(self.handle);
        member.stack = None;
        member.workspace = self.workspace;
        let left = self.left_rect();
        let right = self.right_rect();
        match self.branch(BranchRef::Window(our)) {
            Some(Either::Left(branch)) => {
                member.rect = left;
                match branch {
                    Branch::Window(w) => {
                        member.visible = w.visible;
                    },
                    _ => {},
                }
                *branch = Branch::Window(member);
            },
            Some(Either::Right(branch)) => {
                member.rect = right;
                match branch {
                    Branch::Window(w) => {
                        member.visible = w.visible;
                    },
                    _ => {},
                }
                *branch = Branch::Window(member);
            },
            None => {},
        }
    }

    /// The part of the area that the left branch gets.
    pub fn left_rect(&self) -> (r: Rect)
        ensures
            r == self@.left_rect(),
    {
        if self.right.is_none() {
            self.area
        } else {
            match self.orientation {
                Orientation::Vertical => Rect::new(
                    self.area.x,
                    self.area.y,
                    self.area.width,
                    self.split_handle,
                ),
                Orientation::Horizontal => Rect::new(
                    self.area.x,
                    self.area.y,
                    self.split_handle,
                    self.area.height,
                ),
            }
        }
    }

    /// The part of the area that the right branch gets.
    pub fn right_rect(&self) -> (r: Rect)
        requires
            self@.area.valid(),
            self@.split_handle <= self@.axis(),
        ensures
            r == self@.right_rect(),
    {
        match self.orientation {
            Orientation::Vertical => Rect::new(
                self.area.x,
                self.area.y + self.split_handle,
                self.area.width,
                self.area.height - self.split_handle,
            ),
            Orientation::Horizontal => Rect::new(
                self.area.x + self.split_handle,
                self.area.y,
                self.area.width - self.split_handle,
                self.area.height,
            ),
        }
    }

    /// The branch that holds the node that `branch` names, for writing: the left branch,
    /// or else the right one.
    pub fn branch(&mut self, branch: BranchRef) -> (r: Option<Either<&mut Branch, &mut Branch>>)
        ensures
            match r {
                Some(Either::Left(b)) => {
                    &&& old(self)@.left.id() == branch
                    &&& *b == old(self).left
                    &&& *final(self) == (Fork { left: *final(b), ..*old(self) })
                },
                Some(Either::Right(b)) => {
                    &&& old(self)@.left.id() != branch
                    &&& old(self).right == Some(*b)
                    &&& b@.id() == branch
                    &&& *final(self) == (Fork { right: Some(*final(b)), ..*old(self) })
                },
                None => {
                    &&& old(self)@.left.id() != branch
                    &&& !(old(self)@.right is Some && old(self)@.right.unwrap().id() == branch)
                    &&& *final(self) == *old(self)
                },
            },
    {
        if self.left.ref_eq(branch) {
            return Some(Either::Left(&mut self.left));
        }
        if let Some(right) = &mut self.right {
            if right.ref_eq(branch) {
                return Some(Either::Right(right));
            }
        }
        None
    }
}

/// The two cases of `either::Either`, as the crate declares them: a value on the left
/// or a value on the right.
#[verifier::external_type_specification]
#[verifier::reject_recursive_types(L)]
#[verifier::reject_recursive_types(R)]
pub struct ExEither<L, R>(Either<L, R>);

} // verus!
