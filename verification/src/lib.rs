//! The layout engine of a tiling window manager: rectangles, the tile tree of
//! forks, stacks and windows, the queue of events for the shell, and the tiler
//! that ties them to displays and workspaces.
//!
//! A tree is owned from its root down: a workspace owns its root fork, a fork its
//! branches, a stack its windows. Every node keeps the handle of its parent, and
//! all changes go through the one tiler that owns the workspaces.

pub mod action;
pub mod count;
pub mod display;
pub mod distinct;
pub mod events;
pub mod fork;
pub mod geom;
pub mod laws;
pub mod ordered;
pub mod orientation;
pub mod place;
pub mod search;
pub mod seen;
pub mod service;
pub mod shape;
pub mod sound;
pub mod stack;
pub mod tiler;
pub mod window;
pub mod workspace;

pub use action::{Action, Applied, Outcome, Side};
pub use display::Display;
pub use events::{
    Event, EventQueue, ForkEvents, ForkUpdate, Membership, Placement, StackEvents, StackMovement,
    WindowEvents,
};
pub use fork::{Branch, BranchRef, Fork};
pub use geom::{Direction, Point, Rect};
pub use orientation::{preferred_orientation, Orientation};
pub use service::{Request, Service};
pub use stack::Stack;
pub use tiler::Tiler;
pub use window::{Window, WindowID};
pub use workspace::Workspace;
