use pop_tiler::{Branch, Event, Fork, Orientation, Rect, Request, Service, WindowID};

/// A small generator of numbers that repeats from run to run.
struct Numbers(u64);

impl Numbers {
    fn next(&mut self, below: u32) -> u32 {
        self.0 = self.0.wrapping_mul(6364136223846793005).wrapping_add(1442695040888963407);
        ((self.0 >> 33) % below as u64) as u32
    }
}

fn request(numbers: &mut Numbers) -> Request {
    let id = WindowID(0, numbers.next(12));
    let other = WindowID(0, numbers.next(12));
    match numbers.next(30) {
        0..=5 => Request::Attach(id),
        6..=7 => Request::Detach(id),
        8 => Request::DisplayUpdate {
            display: numbers.next(3),
            rect: Rect::new(
                1 + 2000 * numbers.next(3),
                1,
                numbers.next(2000),
                numbers.next(1500),
            ),
        },
        9 => Request::DisplayDetach(numbers.next(3)),
        10..=11 => Request::Focus(id),
        12 => Request::FocusAbove,
        13 => Request::FocusBelow,
        14 => Request::FocusLeft,
        15 => Request::FocusRight,
        16 => Request::FocusDisplayLeft,
        17 => Request::FocusDisplayRight,
        18 => Request::MoveAbove,
        19 => Request::MoveBelow,
        20 => Request::MoveLeft,
        21 => Request::MoveRight,
        22 => Request::ToggleOrientation,
        23..=24 => Request::ToggleStack,
        25 => Request::Resize(numbers.next(8) as usize, numbers.next(2000)),
        26 => Request::Swap(id, other),
        27..=28 => Request::WorkspaceSwitch(numbers.next(3)),
        _ => Request::WorkspaceUpdate { workspace: numbers.next(3), display: numbers.next(3) },
    }
}

fn check_branch(
    branch: &Branch,
    parent: usize,
    workspace: u32,
    area: Rect,
    on_view: bool,
    handles: &mut Vec<usize>,
) {
    match branch {
        Branch::Window(w) => {
            assert_eq!(w.visible, on_view, "a window on its own is shown with its workspace");
            assert_eq!(w.rect, area);
            assert_eq!(w.workspace, workspace);
            assert_eq!(w.fork, Some(parent));
            assert_eq!(w.stack, None);
        }
        Branch::Stack(s) => {
            assert_eq!(s.area, area);
            assert_eq!(s.parent, parent);
            assert_eq!(s.workspace, workspace);
            assert!(!s.windows.is_empty());
            assert!(s.windows.iter().any(|w| w.id == s.active));
            for w in &s.windows {
                assert_eq!(w.visible, on_view && w.id == s.active, "only the raised member shows");
                assert_eq!(w.rect, area);
                assert_eq!(w.workspace, workspace);
                assert_eq!(w.fork, Some(parent));
                assert_eq!(w.stack, Some(s.handle));
            }
        }
        Branch::Fork(f) => {
            assert_eq!(f.parent, Some(parent));
            check_fork(f, workspace, area, on_view, handles);
        }
    }
}

fn check_fork(fork: &Fork, workspace: u32, area: Rect, on_view: bool, handles: &mut Vec<usize>) {
    assert!(!handles.contains(&fork.handle), "two forks share a handle");
    handles.push(fork.handle);
    assert_eq!(fork.area, area);
    assert_eq!(fork.workspace, workspace);
    let axis = match fork.orientation {
        Orientation::Horizontal => area.width,
        Orientation::Vertical => area.height,
    };
    assert!(fork.split_handle <= axis);
    match &fork.right {
        None => {
            assert!(!matches!(fork.left, Branch::Fork(_)));
            check_branch(&fork.left, fork.handle, workspace, area, on_view, handles);
        }
        Some(right) => {
            let split = fork.split_handle;
            let (first, second) = match fork.orientation {
                Orientation::Horizontal => (
                    Rect::new(area.x, area.y, split, area.height),
                    Rect::new(area.x + split, area.y, area.width - split, area.height),
                ),
                Orientation::Vertical => (
                    Rect::new(area.x, area.y, area.width, split),
                    Rect::new(area.x, area.y + split, area.width, area.height - split),
                ),
            };
            assert_eq!(first.area() + second.area(), area.area());
            check_branch(&fork.left, fork.handle, workspace, first, on_view, handles);
            check_branch(right, fork.handle, workspace, second, on_view, handles);
        }
    }
}

fn check(service: &Service) {
    let tiler = &service.tiler;
    let mut handles = Vec::new();
    for workspace in tiler.workspaces() {
        let display = tiler.displays().iter().find(|d| d.id == workspace.display);
        assert_eq!(display.map(|d| d.area), Some(workspace.area()));
        if let Some(root) = workspace.fork() {
            assert_eq!(root.parent, None);
            let on_view = workspace.id() == tiler.active_workspace();
            check_fork(root, workspace.id(), workspace.area(), on_view, &mut handles);
        }
    }
    let windows = tiler.windows();
    for (i, w) in windows.iter().enumerate() {
        assert!(windows[..i].iter().all(|x| x.id != w.id), "two windows share an ID");
    }
    let mut registered = tiler.registry().clone();
    registered.sort();
    let mut attached: Vec<WindowID> = windows.iter().map(|w| w.id).collect();
    attached.sort();
    assert_eq!(registered, attached, "the registry and the trees differ");
    if let Some(active) = tiler.active_window() {
        assert!(tiler.find(active).is_some(), "the active window is in no tree");
    }
}

#[test]
fn a_long_walk_keeps_the_tiler_well_formed() {
    for seed in 0..20 {
        let mut numbers = Numbers(seed);
        let mut service = Service::default();
        service.handle(Request::DisplayUpdate { display: 0, rect: Rect::new(1, 1, 2560, 1440) });
        service.handle(Request::WorkspaceUpdate { workspace: 0, display: 0 });
        for _ in 0..400 {
            let events = service.handle(request(&mut numbers));
            check(&service);
            let mut seen: Vec<&Event> = Vec::new();
            for event in &events {
                let once = matches!(
                    event,
                    Event::Focus(_)
                        | Event::FocusWorkspace(_)
                        | Event::Fork(..)
                        | Event::ForkDestroy(_)
                        | Event::StackDestroy(_)
                        | Event::StackPlace(..)
                        | Event::WindowPlace(..)
                        | Event::WindowVisibility(..)
                );
                if once {
                    let same_subject = |e: &&Event| match (*e, event) {
                        (Event::Fork(a, _), Event::Fork(b, _)) => a == b,
                        (Event::Fork(a, _), Event::ForkDestroy(b)) => a == b,
                        (Event::ForkDestroy(a), Event::Fork(b, _)) => a == b,
                        (Event::ForkDestroy(a), Event::ForkDestroy(b)) => a == b,
                        (Event::StackDestroy(a), Event::StackDestroy(b)) => a == b,
                        (Event::StackDestroy(a), Event::StackPlace(b, _)) => a == b,
                        (Event::StackPlace(a, _), Event::StackDestroy(b)) => a == b,
                        (Event::StackPlace(a, _), Event::StackPlace(b, _)) => a == b,
                        (Event::WindowPlace(a, _), Event::WindowPlace(b, _)) => a == b,
                        (Event::WindowVisibility(a, _), Event::WindowVisibility(b, _)) => a == b,
                        (Event::Focus(_), Event::Focus(_)) => true,
                        (Event::FocusWorkspace(_), Event::FocusWorkspace(_)) => true,
                        _ => false,
                    };
                    assert!(!seen.iter().any(same_subject), "an event came twice: {:?}", event);
                }
                seen.push(event);
            }
            assert_eq!(service.handle(Request::WorkspaceSwitch(service.tiler.active_workspace())), vec![]);
        }
    }
}
