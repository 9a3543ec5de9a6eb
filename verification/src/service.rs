use vstd::prelude::*;
use crate::events::Event;
use crate::geom::{Direction, Rect};
use crate::tiler::{Tiler, TilerView};
use crate::window::WindowID;

verus! {

/// An instruction to send to the tiler.
#[derive(Copy, Clone, Debug, PartialEq, Eq)]
pub enum Request {
    Attach(WindowID),
    Detach(WindowID),
    DisplayUpdate { display: u32, rect: Rect },
    DisplayDetach(u32),
    Focus(WindowID),
    FocusAbove,
    FocusBelow,
    FocusLeft,
    FocusRight,
    FocusDisplayAbove,
    FocusDisplayBelow,
    FocusDisplayLeft,
    FocusDisplayRight,
    MoveAbove,
    MoveBelow,
    MoveLeft,
    MoveRight,
    ToggleOrientation,
    ToggleStack,
    Resize(usize, u32),
    Swap(WindowID, WindowID),
    WorkspaceSwitch(u32),
    WorkspaceUpdate { workspace: u32, display: u32 },
}

impl TilerView {
    /// The tiler after it carried out `request`, before the events are drained.
    pub open spec fn handled(self, request: Request) -> TilerView {
        match request {
            Request::Attach(id) => self.attach(id),
            Request::Detach(id) => self.detach(id),
            Request::DisplayUpdate { display, rect } => self.display_update(display, rect),
            Request::DisplayDetach(display) => self.display_detach(display),
            Request::Focus(id) => self.focus(id),
            Request::FocusAbove => self.focus_toward(Direction::Above),
            Request::FocusBelow => self.focus_toward(Direction::Below),
            Request::FocusLeft => self.focus_in_stack(true),
            Request::FocusRight => self.focus_in_stack(false),
            Request::FocusDisplayAbove => self.focus_display_toward(Direction::Above),
            Request::FocusDisplayBelow => self.focus_display_toward(Direction::Below),
            Request::FocusDisplayLeft => self.focus_display_toward(Direction::Left),
            Request::FocusDisplayRight => self.focus_display_toward(Direction::Right),
            Request::MoveAbove => self.move_toward(Direction::Above),
            Request::MoveBelow => self.move_toward(Direction::Below),
            Request::MoveLeft => self.move_in_stack(true),
            Request::MoveRight => self.move_in_stack(false),
            Request::ToggleOrientation => self.toggle_orientation(),
            Request::ToggleStack => self.stack_toggle(),
            Request::Resize(fork, split) => self.fork_resize(fork, split),
            Request::Swap(a, b) => self.swap(a, b),
            Request::WorkspaceSwitch(workspace) => self.workspace_switch(workspace),
            Request::WorkspaceUpdate { workspace, display } => self.workspace_update(
                workspace,
                display,
            ),
        }
    }
}

/// A tiler that takes requests and answers each with the events that it gave rise to.
#[derive(Debug)]
pub struct Service {
    pub tiler: Tiler,
}

impl Default for Service {
    fn default() -> (s: Service)
        ensures
            s.tiler@ == TilerView::empty(),
            s.tiler.wf(),
    {
        Service { tiler: Tiler::default() }
    }
}

impl Service {
    /// Carries out one request, and returns the events that it gave rise to, drained.
    pub fn handle(&mut self, request: Request) -> (out: Vec<Event>)
        requires
            old(self).tiler.wf(),
        ensures
            out@ == old(self).tiler@.handled(request).events(),
            final(self).tiler@ == old(self).tiler@.handled(request).drained(),
            final(self).tiler.wf(),
    {
        match request {
            Request::Attach(id) => self.tiler.attach(id),
            Request::Detach(id) => self.tiler.detach(id),
            Request::DisplayUpdate { display, rect } => self.tiler.display_update(display, rect),
            Request::DisplayDetach(display) => self.tiler.display_detach(display),
            Request::Focus(id) => self.tiler.focus(id),
            Request::FocusAbove => self.tiler.focus_above(),
            Request::FocusBelow => self.tiler.focus_below(),
            Request::FocusLeft => self.tiler.focus_left(),
            Request::FocusRight => self.tiler.focus_right(),
            Request::FocusDisplayAbove => self.tiler.focus_display_above(),
            Request::FocusDisplayBelow => self.tiler.focus_display_below(),
            Request::FocusDisplayLeft => self.tiler.focus_display_left(),
            Request::FocusDisplayRight => self.tiler.focus_display_right(),
            Request::MoveAbove => self.tiler.move_above(),
            Request::MoveBelow => self.tiler.move_below(),
            Request::MoveLeft => self.tiler.move_left(),
            Request::MoveRight => self.tiler.move_right(),
            Request::ToggleOrientation => self.tiler.toggle_orientation(),
            Request::ToggleStack => self.tiler.stack_toggle(),
            Request::Resize(fork, split) => self.tiler.fork_resize(fork, split),
            Request::Swap(a, b) => self.tiler.swap(a, b),
            Request::WorkspaceSwitch(workspace) => self.tiler.workspace_switch(workspace),
            Request::WorkspaceUpdate { workspace, display } => self.tiler.workspace_update(
                workspace,
                display,
            ),
        }
        self.tiler.events()
    }
}

} // verus!
