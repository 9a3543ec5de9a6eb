use vstd::prelude::*;
use crate::geom::Rect;
use crate::ordered::{ascending, find, put, value, with, Key};
use crate::orientation::Orientation;
use crate::window::WindowID;

verus! {

/// Instructs where to place a tiling component entity.
#[derive(Copy, Clone, Debug, PartialEq, Eq)]
pub struct Placement {
    pub area: Rect,
    pub workspace: u32,
}

/// The active window of a stack changed places with a neighbour.
#[derive(Copy, Clone, Debug, PartialEq, Eq)]
pub enum StackMovement {
    Left(WindowID),
    Right(WindowID),
}

/// Where a fork lies, how it is oriented, and where its split is.
#[derive(Copy, Clone, Debug, PartialEq, Eq)]
pub struct ForkUpdate {
    /// On what workspace the fork resides.
    pub workspace: u32,
    /// The orientation of this fork.
    pub orientation: Orientation,
    /// The region this fork occupies.
    pub rect: Rect,
    /// The offset of the split within that region, along the fork's axis.
    pub handle: u32,
}

/// An event for the window manager to act upon.
#[derive(Copy, Clone, Debug, PartialEq, Eq)]
pub enum Event {
    /// Focus this window.
    Focus(WindowID),
    /// Focus this workspace ID.
    FocusWorkspace(u32),
    /// Where a fork lies, in what orientation, and where its split is.
    Fork(usize, ForkUpdate),
    /// Destroy the fork associated with this handle.
    ForkDestroy(usize),
    /// A window was assigned to a stack.
    StackAssign(usize, WindowID),
    /// A window was detached from a stack.
    StackDetach(usize, WindowID),
    /// Destroy the stack associated with this handle.
    StackDestroy(usize),
    /// Alter the dimensions of an existing stack.
    StackPlace(usize, Placement),
    /// Raise this window of a stack to the top.
    StackRaise(usize, WindowID),
    /// The active window of a stack changed places with a neighbour.
    StackMovement(usize, StackMovement),
    /// Change the visibility of a stack.
    StackVisibility(usize, bool),
    /// Alter the dimensions of a window actor.
    WindowPlace(WindowID, Placement),
    /// Change the visibility of a window.
    WindowVisibility(WindowID, bool),
}

/// What happened to one fork since the queue was last drained.
#[derive(Copy, Clone, Debug, PartialEq, Eq)]
pub struct ForkEvents {
    pub destroy: bool,
    pub update: Option<ForkUpdate>,
}

/// What happened to one window since the queue was last drained.
#[derive(Copy, Clone, Debug, PartialEq, Eq)]
pub struct WindowEvents {
    pub place: Option<Placement>,
    pub visibility: Option<bool>,
}

/// What happened to one stack since the queue was last drained. Which
/// windows joined and left it is kept beside, by stack and window.
#[derive(Copy, Clone, Debug, PartialEq, Eq)]
pub struct StackEvents {
    pub destroy: bool,
    pub place: Option<Placement>,
    pub visibility: Option<bool>,
    pub raise: Option<WindowID>,
}

/// A window as a member of a stack.
#[derive(Copy, Clone, Debug, PartialEq, Eq)]
pub struct Membership {
    pub stack: usize,
    pub window: WindowID,
}

impl ForkEvents {
    pub open spec fn none() -> ForkEvents {
        ForkEvents { destroy: false, update: None }
    }
}

impl WindowEvents {
    pub open spec fn none() -> WindowEvents {
        WindowEvents { place: None, visibility: None }
    }
}

impl StackEvents {
    pub open spec fn none() -> StackEvents {
        StackEvents { destroy: false, place: None, visibility: None, raise: None }
    }
}

impl Default for ForkEvents {
    fn default() -> (r: ForkEvents)
        ensures
            r == ForkEvents::none(),
    {
        ForkEvents { destroy: false, update: None }
    }
}

impl Default for WindowEvents {
    fn default() -> (r: WindowEvents)
        ensures
            r == WindowEvents::none(),
    {
        WindowEvents { place: None, visibility: None }
    }
}

impl Default for StackEvents {
    fn default() -> (r: StackEvents)
        ensures
            r == StackEvents::none(),
    {
        StackEvents { destroy: false, place: None, visibility: None, raise: None }
    }
}

impl Key for WindowID {
    open spec fn rank(self) -> int {
        self.order()
    }

    proof fn rank_is_injective(self, other: Self) {
        self.order_is_injective(other);
    }

    fn precedes(&self, other: &Self) -> (r: bool) {
        self.comes_before(other)
    }
}

impl Key for Membership {
    open spec fn rank(self) -> int {
        self.stack * 0x1_0000_0000_0000_0000 + self.window.order()
    }

    proof fn rank_is_injective(self, other: Self) {
    }

    fn precedes(&self, other: &Self) -> (r: bool) {
        self.stack < other.stack || (self.stack == other.stack && self.window.comes_before(
            &other.window,
        ))
    }
}

/// The events that one fork's entry gives: its destruction, or else its update.
pub open spec fn fork_entry_events(handle: usize, e: ForkEvents) -> Seq<Event> {
    if e.destroy {
        seq![Event::ForkDestroy(handle)]
    } else {
        match e.update {
            Some(update) => seq![Event::Fork(handle, update)],
            None => Seq::empty(),
        }
    }
}

/// The events of all forks, in the order of their entries.
pub open spec fn fork_events(s: Seq<(usize, ForkEvents)>) -> Seq<Event>
    decreases s.len(),
{
    if s.len() == 0 {
        Seq::empty()
    } else {
        fork_events(s.drop_last()) + fork_entry_events(s.last().0, s.last().1)
    }
}

/// The event that one membership entry gives for the stack `handle`.
pub open spec fn membership_entry_events(handle: usize, m: Membership, attached: bool) -> Seq<
    Event,
> {
    if m.stack != handle {
        Seq::empty()
    } else if attached {
        seq![Event::StackAssign(handle, m.window)]
    } else {
        seq![Event::StackDetach(handle, m.window)]
    }
}

/// The assignments to and detachments from the stack `handle`, in the order of the entries.
pub open spec fn membership_events(s: Seq<(Membership, bool)>, handle: usize) -> Seq<Event>
    decreases s.len(),
{
    if s.len() == 0 {
        Seq::empty()
    } else {
        membership_events(s.drop_last(), handle) + membership_entry_events(
            handle,
            s.last().0,
            s.last().1,
        )
    }
}

/// What one stack's entry gives before its memberships: its destruction, or
/// else its placement and then its visibility.
pub open spec fn stack_head_events(handle: usize, e: StackEvents) -> Seq<Event> {
    if e.destroy {
        seq![Event::StackDestroy(handle)]
    } else {
        (match e.place {
            Some(p) => seq![Event::StackPlace(handle, p)],
            None => Seq::empty(),
        }) + (match e.visibility {
            Some(v) => seq![Event::StackVisibility(handle, v)],
            None => Seq::empty(),
        })
    }
}

/// What one stack's entry gives after its memberships: the window to raise,
/// unless the stack was destroyed.
pub open spec fn stack_tail_events(handle: usize, e: StackEvents) -> Seq<Event> {
    if e.destroy {
        Seq::empty()
    } else {
        match e.raise {
            Some(w) => seq![Event::StackRaise(handle, w)],
            None => Seq::empty(),
        }
    }
}

/// The events of one stack.
pub open spec fn stack_entry_events(
    handle: usize,
    e: StackEvents,
    assignments: Seq<(Membership, bool)>,
) -> Seq<Event> {
    stack_head_events(handle, e) + membership_events(assignments, handle) + stack_tail_events(
        handle,
        e,
    )
}

/// The events of all stacks, in the order of their entries.
pub open spec fn stack_events(
    s: Seq<(usize, StackEvents)>,
    assignments: Seq<(Membership, bool)>,
) -> Seq<Event>
    decreases s.len(),
{
    if s.len() == 0 {
        Seq::empty()
    } else {
        stack_events(s.drop_last(), assignments) + stack_entry_events(
            s.last().0,
            s.last().1,
            assignments,
        )
    }
}

/// The events of one window: its placement, then its visibility.
pub open spec fn window_entry_events(id: WindowID, e: WindowEvents) -> Seq<Event> {
    (match e.place {
        Some(p) => seq![Event::WindowPlace(id, p)],
        None => Seq::empty(),
    }) + (match e.visibility {
        Some(v) => seq![Event::WindowVisibility(id, v)],
        None => Seq::empty(),
    })
}

/// The events of all windows, in the order of their entries.
pub open spec fn window_events(s: Seq<(WindowID, WindowEvents)>) -> Seq<Event>
    decreases s.len(),
{
    if s.len() == 0 {
        Seq::empty()
    } else {
        window_events(s.drop_last()) + window_entry_events(s.last().0, s.last().1)
    }
}

/// What an event queue holds.
pub struct QueueView {
    /// One entry per fork, by ascending handle.
    pub forks: Seq<(usize, ForkEvents)>,
    /// One entry per window, by ascending ID.
    pub windows: Seq<(WindowID, WindowEvents)>,
    /// One entry per stack, by ascending handle.
    pub stacks: Seq<(usize, StackEvents)>,
    /// One entry per stack and window, by ascending handle, then ID:
    /// whether the window was last assigned to the stack or detached from it.
    pub assignments: Seq<(Membership, bool)>,
    /// Events whose order matters, as they came.
    pub events: Seq<Event>,
}

impl QueueView {
    pub open spec fn empty() -> QueueView {
        QueueView {
            forks: Seq::empty(),
            windows: Seq::empty(),
            stacks: Seq::empty(),
            assignments: Seq::empty(),
            events: Seq::empty(),
        }
    }

    /// Every list of entries is in ascending order of its keys, so holds
    /// each key once.
    pub open spec fn wf(self) -> bool {
        &&& ascending(self.forks)
        &&& ascending(self.windows)
        &&& ascending(self.stacks)
        &&& ascending(self.assignments)
    }

    pub open spec fn fork_entry(self, handle: usize) -> ForkEvents {
        match value(self.forks, handle) {
            Some(e) => e,
            None => ForkEvents::none(),
        }
    }

    pub open spec fn stack_entry(self, handle: usize) -> StackEvents {
        match value(self.stacks, handle) {
            Some(e) => e,
            None => StackEvents::none(),
        }
    }

    pub open spec fn window_entry(self, id: WindowID) -> WindowEvents {
        match value(self.windows, id) {
            Some(e) => e,
            None => WindowEvents::none(),
        }
    }

    pub open spec fn fork_destroy(self, handle: usize) -> QueueView {
        QueueView {
            forks: with(
                self.forks,
                handle,
                ForkEvents { destroy: true, ..self.fork_entry(handle) },
            ),
            ..self
        }
    }

    pub open spec fn fork_update(self, handle: usize, update: ForkUpdate) -> QueueView {
        QueueView {
            forks: with(
                self.forks,
                handle,
                ForkEvents { update: Some(update), ..self.fork_entry(handle) },
            ),
            ..self
        }
    }

    pub open spec fn stack_membership(self, handle: usize, window: WindowID, attached: bool)
        -> QueueView {
        QueueView {
            stacks: with(self.stacks, handle, self.stack_entry(handle)),
            assignments: with(
                self.assignments,
                Membership { stack: handle, window },
                attached,
            ),
            ..self
        }
    }

    pub open spec fn stack_assign(self, handle: usize, window: WindowID) -> QueueView {
        self.stack_membership(handle, window, true)
    }

    pub open spec fn stack_detach(self, handle: usize, window: WindowID) -> QueueView {
        self.stack_membership(handle, window, false)
    }

    pub open spec fn stack_destroy(self, handle: usize) -> QueueView {
        QueueView {
            stacks: with(
                self.stacks,
                handle,
                StackEvents { destroy: true, ..self.stack_entry(handle) },
            ),
            ..self
        }
    }

    pub open spec fn stack_raise_window(self, handle: usize, window: WindowID) -> QueueView {
        QueueView {
            stacks: with(
                self.stacks,
                handle,
                StackEvents { raise: Some(window), ..self.stack_entry(handle) },
            ),
            ..self
        }
    }

    pub open spec fn stack_movement(self, handle: usize, movement: StackMovement) -> QueueView {
        QueueView { events: self.events.push(Event::StackMovement(handle, movement)), ..self }
    }

    pub open spec fn stack_update(self, handle: usize, placement: Placement) -> QueueView {
        QueueView {
            stacks: with(
                self.stacks,
                handle,
                StackEvents { place: Some(placement), ..self.stack_entry(handle) },
            ),
            ..self
        }
    }

    pub open spec fn window_place(self, id: WindowID, placement: Placement) -> QueueView {
        QueueView {
            windows: with(
                self.windows,
                id,
                WindowEvents { place: Some(placement), ..self.window_entry(id) },
            ),
            ..self
        }
    }

    pub open spec fn window_visibility(self, id: WindowID, visible: bool) -> QueueView {
        QueueView {
            windows: with(
                self.windows,
                id,
                WindowEvents { visibility: Some(visible), ..self.window_entry(id) },
            ),
            ..self
        }
    }

    /// The events that draining the queue gives: those of the forks, of the
    /// stacks, of the windows, and then those whose order matters.
    pub open spec fn drained(self) -> Seq<Event> {
        fork_events(self.forks) + stack_events(self.stacks, self.assignments) + window_events(
            self.windows,
        ) + self.events
    }
}

/// The changes since the last drain, one entry per fork, stack and window.
#[derive(Debug)]
pub struct EventQueue {
    pub forks: Vec<(usize, ForkEvents)>,
    pub windows: Vec<(WindowID, WindowEvents)>,
    pub stacks: Vec<(usize, StackEvents)>,
    pub assignments: Vec<(Membership, bool)>,
    pub events: Vec<Event>,
}

impl View for EventQueue {
    type V = QueueView;

    open spec fn view(&self) -> QueueView {
        QueueView {
            forks: self.forks@,
            windows: self.windows@,
            stacks: self.stacks@,
            assignments: self.assignments@,
            events: self.events@,
        }
    }
}

impl Default for EventQueue {
    fn default() -> (q: EventQueue)
        ensures
            q@ == QueueView::empty(),
    {
        EventQueue {
            forks: Vec::new(),
            windows: Vec::new(),
            stacks: Vec::new(),
            assignments: Vec::new(),
            events: Vec::new(),
        }
    }
}

fn push_fork_entry(out: &mut Vec<Event>, handle: usize, e: ForkEvents)
    ensures
        final(out)@ == old(out)@ + fork_entry_events(handle, e),
{
    if e.destroy {
        out.push(Event::ForkDestroy(handle));
    } else if let Some(update) = e.update {
        out.push(Event::Fork(handle, update));
    }
    assert(out@ =~= old(out)@ + fork_entry_events(handle, e));
}

fn push_window_entry(out: &mut Vec<Event>, id: WindowID, e: WindowEvents)
    ensures
        final(out)@ == old(out)@ + window_entry_events(id, e),
{
    if let Some(p) = e.place {
        out.push(Event::WindowPlace(id, p));
    }
    if let Some(v) = e.visibility {
        out.push(Event::WindowVisibility(id, v));
    }
    assert(out@ =~= old(out)@ + window_entry_events(id, e));
}

fn push_memberships(out: &mut Vec<Event>, assignments: &Vec<(Membership, bool)>, handle: usize)
    ensures
        final(out)@ == old(out)@ + membership_events(assignments@, handle),
{
    let mut i: usize = 0;
    while i < assignments.len()
        invariant
            0 <= i <= assignments.len(),
            out@ == old(out)@ + membership_events(assignments@.take(i as int), handle),
        decreases assignments.len() - i,
    {
        let (m, attached) = assignments[i];
        proof {
            assert(assignments@.take(i + 1).drop_last() =~= assignments@.take(i as int));
        }
        if m.stack == handle {
            if attached {
                out.push(Event::StackAssign(handle, m.window));
            } else {
                out.push(Event::StackDetach(handle, m.window));
            }
        }
        assert(out@ =~= old(out)@ + membership_events(assignments@.take(i + 1), handle));
        i += 1;
    }
    assert(assignments@.take(i as int) =~= assignments@);
}

fn push_stack_entry(
    out: &mut Vec<Event>,
    handle: usize,
    e: StackEvents,
    assignments: &Vec<(Membership, bool)>,
)
    ensures
        final(out)@ == old(out)@ + stack_entry_events(handle, e, assignments@),
{
    if e.destroy {
        out.push(Event::StackDestroy(handle));
    } else {
        if let Some(p) = e.place {
            out.push(Event::StackPlace(handle, p));
        }
        if let Some(v) = e.visibility {
            out.push(Event::StackVisibility(handle, v));
        }
    }
    assert(out@ =~= old(out)@ + stack_head_events(handle, e));
    push_memberships(out, assignments, handle);
    if !e.destroy {
        if let Some(w) = e.raise {
            out.push(Event::StackRaise(handle, w));
        }
    }
    assert(out@ =~= old(out)@ + stack_entry_events(handle, e, assignments@));
}

impl EventQueue {
    /// Empties the queue and returns its events: first those of the forks
    /// (a destroyed fork gives no update), then those of the stacks (for each
    /// its destruction, or else its placement and visibility; then the
    /// windows that joined or left it; then, unless destroyed, the window to
    /// raise), then those of the windows (placement, then visibility), and
    /// last the events whose order matters, as they came.
    pub fn consume_events(&mut self) -> (out: Vec<Event>)
        ensures
            out@ == old(self)@.drained(),
            final(self)@ == QueueView::empty(),
            final(self)@.wf(),
    {
        let mut out: Vec<Event> = Vec::new();
        let mut i: usize = 0;
        while i < self.forks.len()
            invariant
                *self == *old(self),
                0 <= i <= self.forks.len(),
                out@ == fork_events(self.forks@.take(i as int)),
            decreases self.forks.len() - i,
        {
            let (handle, e) = self.forks[i];
            proof {
                assert(self.forks@.take(i + 1).drop_last() =~= self.forks@.take(i as int));
            }
            push_fork_entry(&mut out, handle, e);
            i += 1;
        }
        assert(self.forks@.take(i as int) =~= self.forks@);
        let ghost first = out@;
        i = 0;
        while i < self.stacks.len()
            invariant
                *self == *old(self),
                0 <= i <= self.stacks.len(),
                out@ == first + stack_events(self.stacks@.take(i as int), self.assignments@),
            decreases self.stacks.len() - i,
        {
            let (handle, e) = self.stacks[i];
            proof {
                assert(self.stacks@.take(i + 1).drop_last() =~= self.stacks@.take(i as int));
            }
            push_stack_entry(&mut out, handle, e, &self.assignments);
            assert(out@ =~= first + stack_events(
                self.stacks@.take(i + 1),
                self.assignments@,
            ));
            i += 1;
        }
        assert(self.stacks@.take(i as int) =~= self.stacks@);
        let ghost second = out@;
        i = 0;
        while i < self.windows.len()
            invariant
                *self == *old(self),
                0 <= i <= self.windows.len(),
                out@ == second + window_events(self.windows@.take(i as int)),
            decreases self.windows.len() - i,
        {
            let (id, e) = self.windows[i];
            proof {
                assert(self.windows@.take(i + 1).drop_last() =~= self.windows@.take(i as int));
            }
            push_window_entry(&mut out, id, e);
            assert(out@ =~= second + window_events(self.windows@.take(i + 1)));
            i += 1;
        }
        assert(self.windows@.take(i as int) =~= self.windows@);
        let ghost third = out@;
        i = 0;
        while i < self.events.len()
            invariant
                *self == *old(self),
                0 <= i <= self.events.len(),
                out@ == third + self.events@.take(i as int),
            decreases self.events.len() - i,
        {
            out.push(self.events[i]);
            assert(out@ =~= third + self.events@.take(i + 1));
            i += 1;
        }
        assert(self.events@.take(i as int) =~= self.events@);
        self.forks = Vec::new();
        self.stacks = Vec::new();
        self.assignments = Vec::new();
        self.windows = Vec::new();
        self.events = Vec::new();
        out
    }

    /// Instruct the window manager that this fork was destroyed.
    pub fn fork_destroy(&mut self, handle: usize)
        ensures
            final(self)@ == old(self)@.fork_destroy(handle),
            old(self)@.wf() ==> final(self)@.wf(),
    {
        let mut e = match find(&self.forks, &handle) {
            Some(e) => e,
            None => ForkEvents::default(),
        };
        e.destroy = true;
        put(&mut self.forks, handle, e);
    }

    /// Instruct the window manager about this fork's dimensions and split.
    pub fn fork_update(&mut self, handle: usize, update: ForkUpdate)
        ensures
            final(self)@ == old(self)@.fork_update(handle, update),
            old(self)@.wf() ==> final(self)@.wf(),
    {
        let mut e = match find(&self.forks, &handle) {
            Some(e) => e,
            None => ForkEvents::default(),
        };
        e.update = Some(update);
        put(&mut self.forks, handle, e);
    }

    fn stack_membership(&mut self, handle: usize, window: WindowID, attached: bool)
        ensures
            final(self)@ == old(self)@.stack_membership(handle, window, attached),
            old(self)@.wf() ==> final(self)@.wf(),
    {
        let e = match find(&self.stacks, &handle) {
            Some(e) => e,
            None => StackEvents::default(),
        };
        put(&mut self.stacks, handle, e);
        put(&mut self.assignments, Membership { stack: handle, window }, attached);
    }

    /// Instruct the window manager that a window was assigned to a stack.
    pub fn stack_assign(&mut self, handle: usize, window: WindowID)
        ensures
            final(self)@ == old(self)@.stack_assign(handle, window),
            old(self)@.wf() ==> final(self)@.wf(),
    {
        self.stack_membership(handle, window, true);
    }

    /// Instruct the window manager that a window was detached from a stack.
    pub fn stack_detach(&mut self, handle: usize, window: WindowID)
        ensures
            final(self)@ == old(self)@.stack_detach(handle, window),
            old(self)@.wf() ==> final(self)@.wf(),
    {
        self.stack_membership(handle, window, false);
    }

    /// Instruct the window manager that this stack was destroyed.
    pub fn stack_destroy(&mut self, handle: usize)
        ensures
            final(self)@ == old(self)@.stack_destroy(handle),
            old(self)@.wf() ==> final(self)@.wf(),
    {
        let mut e = match find(&self.stacks, &handle) {
            Some(e) => e,
            None => StackEvents::default(),
        };
        e.destroy = true;
        put(&mut self.stacks, handle, e);
    }

    /// Instruct the window manager that this window should be the visible one in the stack.
    pub fn stack_raise_window(&mut self, handle: usize, window: WindowID)
        ensures
            final(self)@ == old(self)@.stack_raise_window(handle, window),
            old(self)@.wf() ==> final(self)@.wf(),
    {
        let mut e = match find(&self.stacks, &handle) {
            Some(e) => e,
            None => StackEvents::default(),
        };
        e.raise = Some(window);
        put(&mut self.stacks, handle, e);
    }

    /// Instruct the window manager that the active window of a stack moved among its tabs.
    pub fn stack_movement(&mut self, handle: usize, movement: StackMovement)
        ensures
            final(self)@ == old(self)@.stack_movement(handle, movement),
            old(self)@.wf() ==> final(self)@.wf(),
    {
        self.events.push(Event::StackMovement(handle, movement));
    }

    /// Instruct the window manager about a placement of a stack.
    pub fn stack_update(&mut self, handle: usize, placement: Placement)
        ensures
            final(self)@ == old(self)@.stack_update(handle, placement),
            old(self)@.wf() ==> final(self)@.wf(),
    {
        let mut e = match find(&self.stacks, &handle) {
            Some(e) => e,
            None => StackEvents::default(),
        };
        e.place = Some(placement);
        put(&mut self.stacks, handle, e);
    }

    /// Instruct the window manager about a placement of a window.
    pub fn window_place(&mut self, id: WindowID, placement: Placement)
        ensures
            final(self)@ == old(self)@.window_place(id, placement),
            old(self)@.wf() ==> final(self)@.wf(),
    {
        let mut e = match find(&self.windows, &id) {
            Some(e) => e,
            None => WindowEvents::default(),
        };
        e.place = Some(placement);
        put(&mut self.windows, id, e);
    }

    /// Instruct the window manager to show or hide a window.
    pub fn window_visibility(&mut self, id: WindowID, visible: bool)
        ensures
            final(self)@ == old(self)@.window_visibility(id, visible),
            old(self)@.wf() ==> final(self)@.wf(),
    {
        let mut e = match find(&self.windows, &id) {
            Some(e) => e,
            None => WindowEvents::default(),
        };
        e.visibility = Some(visible);
        put(&mut self.windows, id, e);
    }
}

} // verus!
