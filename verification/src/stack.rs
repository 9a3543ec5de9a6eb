use vstd::prelude::*;
use crate::events::{EventQueue, Placement, QueueView, StackMovement};
use crate::geom::Rect;
use crate::window::{index_of, position, Window, WindowID};

verus! {

/// Windows that share one rectangle, one of them raised above the others.
#[derive(Debug)]
pub struct Stack {
    /// The handle by which events name this stack.
    pub handle: usize,
    /// The rectangle that every member occupies.
    pub area: Rect,
    /// The member that is raised.
    pub active: WindowID,
    /// Handle of the fork that holds the stack.
    pub parent: usize,
    /// The members, in the order of their tabs.
    pub windows: Vec<Window>,
    /// The workspace that the stack is on.
    pub workspace: u32,
}

/// What a stack holds.
pub struct StackView {
    pub handle: usize,
    pub area: Rect,
    pub active: WindowID,
    pub parent: usize,
    pub windows: Seq<Window>,
    pub workspace: u32,
}

/// The queue after the placement of each window of `s` was recorded, in order.
pub open spec fn place_all(q: QueueView, s: Seq<Window>) -> QueueView
    decreases s.len(),
{
    if s.len() == 0 {
        q
    } else {
        place_all(q, s.drop_last()).window_place(
            s.last().id,
            Placement { area: s.last().rect, workspace: s.last().workspace },
        )
    }
}

impl StackView {
    pub open spec fn placement(self) -> Placement {
        Placement { area: self.area, workspace: self.workspace }
    }

    /// `w` with the back-references and the workspace of a member of this stack.
    pub open spec fn linked(self, w: Window) -> Window {
        Window {
            fork: Some(self.parent),
            stack: Some(self.handle),
            workspace: self.workspace,
            ..w
        }
    }

    pub open spec fn contains(self, id: WindowID) -> bool {
        index_of(self.windows, id) < self.windows.len()
    }

    /// A stack of one window, in the place where the window lay.
    pub open spec fn around(handle: usize, w: Window, parent: usize) -> StackView {
        StackView {
            handle,
            area: w.rect,
            active: w.id,
            parent,
            windows: seq![Window { fork: Some(parent), stack: Some(handle), ..w }],
            workspace: w.workspace,
        }
    }

    /// The stack with `w` as its last member, hidden behind the raised one.
    pub open spec fn with_member(self, w: Window) -> StackView {
        StackView {
            windows: self.windows.push(Window { visible: false, ..self.linked(w) }),
            ..self
        }
    }

    /// Every member is visible exactly if the stack is on view and the member is the
    /// raised one.
    pub open spec fn shown(self, on_view: bool) -> bool {
        forall|i: int|
            0 <= i < self.windows.len() ==> (#[trigger] self.windows[i]).visible == (on_view
                && self.windows[i].id == self.active)
    }

    /// Whether the raised member is shown.
    pub open spec fn lit(self) -> bool {
        index_of(self.windows, self.active) < self.windows.len() && self.windows[index_of(
            self.windows,
            self.active,
        )].visible
    }

    /// Whether taking the member `id` out raises another member in its place.
    pub open spec fn hands_over(self, id: WindowID) -> bool {
        self.contains(id) && self.active == id && self.windows.len() > 1
    }

    /// The stack without its first member with `id`, before the visibility of the others
    /// is set. Where that member was the raised one, the member now at its index is
    /// raised, or else the one before.
    pub open spec fn shed(self, id: WindowID) -> StackView {
        let i = index_of(self.windows, id);
        if i >= self.windows.len() {
            self
        } else {
            let rest = self.windows.remove(i);
            StackView {
                windows: rest,
                active: if self.active == id && rest.len() > 0 {
                    if i < rest.len() {
                        rest[i].id
                    } else {
                        rest[i - 1].id
                    }
                } else {
                    self.active
                },
                ..self
            }
        }
    }

    /// The stack without its first member with `id`. Where that member was the raised
    /// one, the member now at its index is raised, or else the one before, and is shown as
    /// the member was that it takes the place of.
    pub open spec fn without(self, id: WindowID) -> StackView {
        if self.hands_over(id) {
            self.shed(id).viewed(self.windows[index_of(self.windows, id)].visible)
        } else {
            self.shed(id)
        }
    }

    /// What the removal of `id` adds to the queue: that the window left the stack, which
    /// window is raised in its place, if any, and the visibility of each member that it
    /// changes.
    pub open spec fn announce_without(self, q: QueueView, id: WindowID) -> QueueView {
        if !self.contains(id) {
            q
        } else {
            let q1 = q.stack_detach(self.handle, id);
            let q2 = if self.shed(id).active != self.active {
                q1.stack_raise_window(self.handle, self.shed(id).active)
            } else {
                q1
            };
            if self.hands_over(id) {
                self.shed(id).announce_viewed(
                    q2,
                    self.windows[index_of(self.windows, id)].visible,
                )
            } else {
                q2
            }
        }
    }

    /// The member before the raised one.
    pub open spec fn left_of_active(self) -> Option<WindowID> {
        let i = index_of(self.windows, self.active);
        if 0 < i < self.windows.len() {
            Some(self.windows[i - 1].id)
        } else {
            None
        }
    }

    /// The member after the raised one.
    pub open spec fn right_of_active(self) -> Option<WindowID> {
        let i = index_of(self.windows, self.active);
        if i + 1 < self.windows.len() {
            Some(self.windows[i + 1].id)
        } else {
            None
        }
    }

    /// The stack after the raised member changed places with the one before it.
    pub open spec fn moved_left(self) -> StackView {
        let i = index_of(self.windows, self.active);
        if 0 < i < self.windows.len() {
            StackView {
                windows: self.windows.update(i, self.windows[i - 1]).update(
                    i - 1,
                    self.windows[i],
                ),
                ..self
            }
        } else {
            self
        }
    }

    /// The stack after the raised member changed places with the one after it.
    pub open spec fn moved_right(self) -> StackView {
        let i = index_of(self.windows, self.active);
        if i + 1 < self.windows.len() {
            StackView {
                windows: self.windows.update(i, self.windows[i + 1]).update(
                    i + 1,
                    self.windows[i],
                ),
                ..self
            }
        } else {
            self
        }
    }

    /// The stack with every member called `our` replaced by `their`, linked to this stack,
    /// laid on its rectangle, and shown and raised as the member was.
    pub open spec fn swapped(self, our: WindowID, their: Window) -> StackView {
        StackView {
            active: if self.active == our {
                their.id
            } else {
                self.active
            },
            windows: self.windows.map_values(
                |w: Window|
                    if w.id == our {
                        Window { rect: self.area, visible: w.visible, ..self.linked(their) }
                    } else {
                        w
                    },
            ),
            ..self
        }
    }

    /// The stack laid on `area`, each member with it.
    pub open spec fn moved_to(self, area: Rect) -> StackView {
        StackView {
            area,
            windows: self.windows.map_values(|w: Window| Window { rect: area, ..w }),
            ..self
        }
    }

    /// The queue after the placement of each member and of the stack was recorded.
    pub open spec fn announce(self, q: QueueView) -> QueueView {
        place_all(q, self.windows).stack_update(self.handle, self.placement())
    }

    /// The stack with `id` raised: it is shown as the raised member was before, and every
    /// other member is hidden.
    pub open spec fn raised(self, id: WindowID) -> StackView {
        StackView { active: id, ..self }.viewed(self.lit())
    }

    /// The queue after each change of visibility that raising `id` makes was recorded.
    pub open spec fn announce_raised(self, q: QueueView, id: WindowID) -> QueueView {
        StackView { active: id, ..self }.announce_viewed(q, self.lit())
    }

    /// The stack with each member shown if the stack is on view and the member is the
    /// raised one, and hidden otherwise.
    pub open spec fn viewed(self, on_view: bool) -> StackView {
        StackView {
            windows: self.windows.map_values(
                |w: Window| Window { visible: on_view && w.id == self.active, ..w },
            ),
            ..self
        }
    }

    /// The queue after each member whose visibility `viewed` changes was recorded
    /// with its new visibility, in order.
    pub open spec fn announce_viewed(self, q: QueueView, on_view: bool) -> QueueView {
        view_all(q, self.windows, on_view, self.active)
    }

    /// The stack under the fork `parent`, each member referring to that fork.
    pub open spec fn adopted(self, parent: usize) -> StackView {
        StackView {
            parent,
            windows: self.windows.map_values(|w: Window| Window { fork: Some(parent), ..w }),
            ..self
        }
    }

    /// The stack with the names `a` and `b` exchanged.
    pub open spec fn renamed(self, a: WindowID, b: WindowID) -> StackView {
        StackView {
            active: exchange(self.active, a, b),
            windows: self.windows.map_values(
                |w: Window| Window { id: exchange(w.id, a, b), ..w },
            ),
            ..self
        }
    }
}

/// `id` with the names `a` and `b` exchanged.
pub open spec fn exchange(id: WindowID, a: WindowID, b: WindowID) -> WindowID {
    if id == a {
        b
    } else if id == b {
        a
    } else {
        id
    }
}

/// The queue after each window of `s` that is not yet shown exactly if the stack is
/// on view and the window is `active` was recorded with that visibility, in order.
pub open spec fn view_all(q: QueueView, s: Seq<Window>, on_view: bool, active: WindowID)
    -> QueueView
    decreases s.len(),
{
    if s.len() == 0 {
        q
    } else {
        let before = view_all(q, s.drop_last(), on_view, active);
        let show = on_view && s.last().id == active;
        if s.last().visible != show {
            before.window_visibility(s.last().id, show)
        } else {
            before
        }
    }
}

impl View for Stack {
    type V = StackView;

    open spec fn view(&self) -> StackView {
        StackView {
            handle: self.handle,
            area: self.area,
            active: self.active,
            parent: self.parent,
            windows: self.windows@,
            workspace: self.workspace,
        }
    }
}

/// `id` with the names `a` and `b` exchanged.
pub fn exchanged(id: WindowID, a: WindowID, b: WindowID) -> (r: WindowID)
    ensures
        r == exchange(id, a, b),
{
    if id == a {
        b
    } else if id == b {
        a
    } else {
        id
    }
}

impl Stack {
    /// A stack of one window, in the place where the window lay, under the fork `parent`.
    pub fn new(handle: usize, window: Window, parent: usize) -> (s: Stack)
        ensures
            s@ == StackView::around(handle, window, parent),
    {
        let mut windows: Vec<Window> = Vec::new();
        let mut member = window;
        member.fork = Some(parent);
        member.stack = Some(handle);
        windows.push(member);
        let s = Stack {
            handle,
            area: window.rect,
            active: window.id,
            parent,
            windows,
            workspace: window.workspace,
        };
        assert(s@.windows =~= StackView::around(handle, window, parent).windows);
        s
    }

    /// Appends a window to the members, hidden. The raised member stays.
    pub fn attach(&mut self, window: Window)
        ensures
            final(self)@ == old(self)@.with_member(window),
    {
        let mut member = window;
        member.fork = Some(self.parent);
        member.stack = Some(self.handle);
        member.workspace = self.workspace;
        member.visible = false;
        self.windows.push(member);
    }

    /// Removes the first member with `id` and returns it, without its parents. Records
    /// that it left, and which member is raised in its place where it was the raised one.
    pub fn detach(&mut self, id: WindowID, queue: &mut EventQueue) -> (r: Option<Window>)
        ensures
            old(queue)@.wf() ==> final(queue)@.wf(),
            final(self)@ == old(self)@.without(id),
            final(queue)@ == old(self)@.announce_without(old(queue)@, id),
            r is Some == old(self)@.contains(id),
            r is Some ==> r.unwrap() == (Window {
                fork: None,
                stack: None,
                ..old(self)@.windows[index_of(old(self)@.windows, id)]
            }),
    {
        let pos = position(&self.windows, id);
        if pos >= self.windows.len() {
            return None;
        }
        let mut removed = self.windows.remove(pos);
        queue.stack_detach(self.handle, id);
        if self.active == id && self.windows.len() > 0 {
            let next = if pos < self.windows.len() {
                self.windows[pos].id
            } else {
                self.windows[pos - 1].id
            };
            if next != self.active {
                self.active = next;
                queue.stack_raise_window(self.handle, next);
            }
            self.set_view(removed.visible, queue);
        }
        removed.fork = None;
        removed.stack = None;
        Some(removed)
    }

    /// Whether the raised member is shown.
    pub fn is_lit(&self) -> (r: bool)
        ensures
            r == self@.lit(),
    {
        let pos = position(&self.windows, self.active);
        pos < self.windows.len() && self.windows[pos].visible
    }

    /// The member before the raised one, if there is one.
    pub fn select_left(&self) -> (r: Option<WindowID>)
        ensures
            r == self@.left_of_active(),
    {
        let pos = position(&self.windows, self.active);
        if 0 < pos && pos < self.windows.len() {
            Some(self.windows[pos - 1].id)
        } else {
            None
        }
    }

    /// The member after the raised one, if there is one.
    pub fn select_right(&self) -> (r: Option<WindowID>)
        ensures
            r == self@.right_of_active(),
    {
        let pos = position(&self.windows, self.active);
        if pos < self.windows.len() && pos + 1 < self.windows.len() {
            Some(self.windows[pos + 1].id)
        } else {
            None
        }
    }

    /// Lets the raised member change places with the one before it, if there is one.
    pub fn move_left(&mut self) -> (r: Option<StackMovement>)
        ensures
            final(self)@ == old(self)@.moved_left(),
            r == if old(self)@.left_of_active() is Some {
                Some(StackMovement::Left(old(self).active))
            } else {
                None
            },
    {
        let pos = position(&self.windows, self.active);
        if 0 < pos && pos < self.windows.len() {
            let here = self.windows[pos];
            let before = self.windows[pos - 1];
            self.windows[pos] = before;
            self.windows[pos - 1] = here;
            Some(StackMovement::Left(self.active))
        } else {
            None
        }
    }

    /// Lets the raised member change places with the one after it, if there is one.
    pub fn move_right(&mut self) -> (r: Option<StackMovement>)
        ensures
            final(self)@ == old(self)@.moved_right(),
            r == if old(self)@.right_of_active() is Some {
                Some(StackMovement::Right(old(self).active))
            } else {
                None
            },
    {
        let pos = position(&self.windows, self.active);
        if pos < self.windows.len() && pos + 1 < self.windows.len() {
            let here = self.windows[pos];
            let after = self.windows[pos + 1];
            self.windows[pos] = after;
            self.windows[pos + 1] = here;
            Some(StackMovement::Right(self.active))
        } else {
            None
        }
    }

    /// Puts `their` in the place of every member called `our`: shown as that member
    /// was, and raised if it was.
    pub fn swap(&mut self, our: WindowID, their: Window)
        ensures
            final(self)@ == old(self)@.swapped(our, their),
    {
        let mut i: usize = 0;
        while i < self.windows.len()
            invariant
                0 <= i <= self.windows.len(),
                self.windows.len() == old(self).windows.len(),
                self.handle == old(self).handle,
                self.area == old(self).area,
                self.active == old(self).active,
                self.parent == old(self).parent,
                self.workspace == old(self).workspace,
                forall|j: int|
                    0 <= j < i ==> self.windows@[j] == old(self)@.swapped(our, their).windows[j],
                forall|j: int| i <= j < self.windows.len() ==> self.windows@[j] == old(self).windows@[j],
            decreases self.windows.len() - i,
        {
            if self.windows[i].id == our {
                let mut member = their;
                member.fork = Some(self.parent);
                member.stack = Some(self.handle);
                member.workspace = self.workspace;
                member.rect = self.area;
                member.visible = self.windows[i].visible;
                self.windows[i] = member;
            }
            i += 1;
        }
        if self.active == our {
            self.active = their.id;
        }
        assert(self@.windows =~= old(self)@.swapped(our, their).windows);
    }

    /// Records the placement of each member and of the stack.
    pub fn announce(&self, queue: &mut EventQueue)
        ensures
            old(queue)@.wf() ==> final(queue)@.wf(),
            final(queue)@ == self@.announce(old(queue)@),
    {
        let mut i: usize = 0;
        while i < self.windows.len()
            invariant
                0 <= i <= self.windows.len(),
                queue@ == place_all(old(queue)@, self.windows@.take(i as int)),
                old(queue)@.wf() ==> queue@.wf(),
            decreases self.windows.len() - i,
        {
            let w = self.windows[i];
            proof {
                assert(self.windows@.take(i + 1).drop_last() =~= self.windows@.take(i as int));
            }
            queue.window_place(w.id, Placement { area: w.rect, workspace: w.workspace });
            i += 1;
        }
        assert(self.windows@.take(i as int) =~= self.windows@);
        queue.stack_update(self.handle, Placement { area: self.area, workspace: self.workspace });
    }

    /// Lays the stack and its members on its own rectangle again, and records their placement.
    pub fn work_area_refresh(&mut self, queue: &mut EventQueue)
        ensures
            old(queue)@.wf() ==> final(queue)@.wf(),
            final(self)@ == old(self)@.moved_to(old(self).area),
            final(queue)@ == final(self)@.announce(old(queue)@),
    {
        let area = self.area;
        self.work_area_update(area, queue);
    }

    /// Lays the stack and its members on `area`, and records their placement.
    pub fn work_area_update(&mut self, area: Rect, queue: &mut EventQueue)
        ensures
            old(queue)@.wf() ==> final(queue)@.wf(),
            final(self)@ == old(self)@.moved_to(area),
            final(queue)@ == final(self)@.announce(old(queue)@),
    {
        self.area = area;
        let mut i: usize = 0;
        while i < self.windows.len()
            invariant
                0 <= i <= self.windows.len(),
                self.windows.len() == old(self).windows.len(),
                self.handle == old(self).handle,
                self.area == area,
                self.active == old(self).active,
                self.parent == old(self).parent,
                self.workspace == old(self).workspace,
                forall|j: int|
                    0 <= j < i ==> self.windows@[j] == (Window {
                        rect: area,
                        ..old(self).windows@[j]
                    }),
                forall|j: int| i <= j < self.windows.len() ==> self.windows@[j] == old(self).windows@[j],
            decreases self.windows.len() - i,
        {
            self.windows[i].rect = area;
            i += 1;
        }
        assert(self@.windows =~= old(self)@.moved_to(area).windows);
        self.announce(queue);
    }

    /// Raises the member `id`: shows it as the raised member was before, hides the others,
    /// and records each change of visibility.
    pub fn raise(&mut self, id: WindowID, queue: &mut EventQueue)
        ensures
            old(queue)@.wf() ==> final(queue)@.wf(),
            final(self)@ == old(self)@.raised(id),
            final(queue)@ == old(self)@.announce_raised(old(queue)@, id),
    {
        let lit = self.is_lit();
        self.active = id;
        self.set_view(lit, queue);
    }

    /// Shows the raised member if the stack is on view, hides every other member, and
    /// records each change of visibility.
    pub fn set_view(&mut self, on_view: bool, queue: &mut EventQueue)
        ensures
            old(queue)@.wf() ==> final(queue)@.wf(),
            final(self)@ == old(self)@.viewed(on_view),
            final(queue)@ == old(self)@.announce_viewed(old(queue)@, on_view),
    {
        let mut i: usize = 0;
        while i < self.windows.len()
            invariant
                0 <= i <= self.windows.len(),
                self.windows.len() == old(self).windows.len(),
                self.handle == old(self).handle,
                self.area == old(self).area,
                self.active == old(self).active,
                self.parent == old(self).parent,
                self.workspace == old(self).workspace,
                forall|j: int|
                    0 <= j < i ==> self.windows@[j] == (Window {
                        visible: on_view && old(self).windows@[j].id == self.active,
                        ..old(self).windows@[j]
                    }),
                forall|j: int| i <= j < self.windows.len() ==> self.windows@[j] == old(self).windows@[j],
                queue@ == view_all(
                    old(queue)@,
                    old(self).windows@.take(i as int),
                    on_view,
                    self.active,
                ),
                old(queue)@.wf() ==> queue@.wf(),
            decreases self.windows.len() - i,
        {
            let show = on_view && self.windows[i].id == self.active;
            proof {
                assert(old(self).windows@.take(i + 1).drop_last() =~= old(self).windows@.take(
                    i as int,
                ));
            }
            if self.windows[i].visible != show {
                self.windows[i].visible = show;
                queue.window_visibility(self.windows[i].id, show);
            }
            i += 1;
        }
        assert(old(self).windows@.take(i as int) =~= old(self).windows@);
        assert(self@.windows =~= old(self)@.viewed(on_view).windows);
    }

    /// Moves the stack under the fork `parent`.
    pub fn adopt(&mut self, parent: usize)
        ensures
            final(self)@ == old(self)@.adopted(parent),
    {
        self.parent = parent;
        let mut i: usize = 0;
        while i < self.windows.len()
            invariant
                0 <= i <= self.windows.len(),
                self.windows.len() == old(self).windows.len(),
                self.handle == old(self).handle,
                self.area == old(self).area,
                self.active == old(self).active,
                self.parent == parent,
                self.workspace == old(self).workspace,
                forall|j: int|
                    0 <= j < i ==> self.windows@[j] == (Window {
                        fork: Some(parent),
                        ..old(self).windows@[j]
                    }),
                forall|j: int| i <= j < self.windows.len() ==> self.windows@[j] == old(self).windows@[j],
            decreases self.windows.len() - i,
        {
            self.windows[i].fork = Some(parent);
            i += 1;
        }
        assert(self@.windows =~= old(self)@.adopted(parent).windows);
    }

    /// Exchanges the names `a` and `b` among the members and for the raised one.
    pub fn rename(&mut self, a: WindowID, b: WindowID)
        ensures
            final(self)@ == old(self)@.renamed(a, b),
    {
        self.active = exchanged(self.active, a, b);
        let mut i: usize = 0;
        while i < self.windows.len()
            invariant
                0 <= i <= self.windows.len(),
                self.windows.len() == old(self).windows.len(),
                self.handle == old(self).handle,
                self.area == old(self).area,
                self.active == exchange(old(self).active, a, b),
                self.parent == old(self).parent,
                self.workspace == old(self).workspace,
                forall|j: int|
                    0 <= j < i ==> self.windows@[j] == (Window {
                        id: exchange(old(self).windows@[j].id, a, b),
                        ..old(self).windows@[j]
                    }),
                forall|j: int| i <= j < self.windows.len() ==> self.windows@[j] == old(self).windows@[j],
            decreases self.windows.len() - i,
        {
            let id = exchanged(self.windows[i].id, a, b);
            self.windows[i].id = id;
            i += 1;
        }
        assert(self@.windows =~= old(self)@.renamed(a, b).windows);
    }
}

} // verus!
