use pop_tiler::action::{Action, Outcome, Side};
use pop_tiler::fork::{largest, scaled, Branch, BranchRef, Fork};
use pop_tiler::stack::Stack;
use pop_tiler::{
    Direction, Event, EventQueue, ForkUpdate, Orientation, Placement, Rect, Window, WindowID,
};

fn window(n: u32) -> Window {
    Window::new(WindowID(0, n))
}

fn pair(area: Rect) -> Fork {
    let mut fork = Fork::new(4, area, Branch::Window(window(1)), 0);
    let mut queue = EventQueue::default();
    fork.attach_right(window(2), &mut queue);
    fork
}

fn rect_of(branch: &Branch) -> Rect {
    match branch {
        Branch::Window(w) => w.rect,
        Branch::Stack(s) => s.area,
        Branch::Fork(f) => f.area,
    }
}

fn stack_member_visible(fork: &Fork, index: usize) -> bool {
    match &fork.left {
        Branch::Stack(s) => s.windows[index].visible,
        _ => panic!("the left branch is a stack"),
    }
}

fn id_of(branch: &Branch) -> u32 {
    match branch {
        Branch::Window(w) => w.id.1,
        _ => u32::MAX,
    }
}

#[test]
fn new_fork_splits_just_before_the_middle() {
    let wide = Fork::new(0, Rect::new(1, 1, 2560, 1440), Branch::Window(window(1)), 5);
    assert_eq!(wide.orientation, Orientation::Horizontal);
    assert_eq!(wide.split_handle, 1279);
    assert_eq!(wide.workspace, 5);
    assert!(wide.right.is_none());
    assert!(wide.parent.is_none());
    assert!(!wide.orientation_toggled);
    let tall = Fork::new(0, Rect::new(1, 1, 100, 300), Branch::Window(window(1)), 5);
    assert_eq!(tall.orientation, Orientation::Vertical);
    assert_eq!(tall.split_handle, 149);
    let tiny = Fork::new(0, Rect::new(1, 1, 1, 1), Branch::Window(window(1)), 5);
    assert_eq!(tiny.split_handle, 0);
}

#[test]
fn scaled_keeps_the_proportion() {
    assert_eq!(scaled(1279, 2560, 2560), 1279);
    assert_eq!(scaled(640, 1280, 1920), 960);
    assert_eq!(scaled(1, 3, 100), 33);
    assert_eq!(scaled(5, 0, 3), 3);
    assert_eq!(scaled(2, 0, 3), 2);
    assert_eq!(scaled(9, 3, 10), 10);
    assert_eq!(scaled(u32::MAX, u32::MAX, u32::MAX), u32::MAX);
}

#[test]
fn single_branch_gets_the_whole_area() {
    let area = Rect::new(1, 1, 2560, 1440);
    let mut fork = Fork::new(0, area, Branch::Window(window(1)), 0);
    let mut queue = EventQueue::default();
    fork.work_area_refresh(&mut queue);
    assert_eq!(rect_of(&fork.left), area);
    assert_eq!(fork.split_handle, 1279);
}

#[test]
fn horizontal_split_tiles_the_width() {
    let fork = pair(Rect::new(1, 1, 2560, 1440));
    assert_eq!(fork.split_handle, 1280);
    assert_eq!(rect_of(&fork.left), Rect::new(1, 1, 1280, 1440));
    assert_eq!(rect_of(fork.right.as_ref().unwrap()), Rect::new(1281, 1, 1280, 1440));
}

#[test]
fn vertical_split_tiles_the_height() {
    let mut fork = pair(Rect::new(10, 20, 100, 301));
    assert_eq!(fork.orientation, Orientation::Vertical);
    assert_eq!(fork.split_handle, 150);
    assert_eq!(rect_of(&fork.left), Rect::new(10, 20, 100, 150));
    assert_eq!(rect_of(fork.right.as_ref().unwrap()), Rect::new(10, 170, 100, 151));
    let mut queue = EventQueue::default();
    fork.work_area_update(Rect::new(0, 0, 50, 602), &mut queue);
    assert_eq!(fork.split_handle, 300);
    assert_eq!(rect_of(&fork.left), Rect::new(0, 0, 50, 300));
    assert_eq!(rect_of(fork.right.as_ref().unwrap()), Rect::new(0, 300, 50, 302));
}

#[test]
fn work_area_update_announces_every_node() {
    let mut fork = pair(Rect::new(1, 1, 200, 100));
    let mut queue = EventQueue::default();
    fork.work_area_update(Rect::new(1, 1, 100, 100), &mut queue);
    assert_eq!(
        queue.consume_events(),
        vec![
            Event::Fork(
                4,
                ForkUpdate {
                    workspace: 0,
                    orientation: Orientation::Horizontal,
                    rect: Rect::new(1, 1, 100, 100),
                    handle: 50,
                },
            ),
            Event::WindowPlace(
                WindowID(0, 1),
                Placement { area: Rect::new(1, 1, 50, 100), workspace: 0 },
            ),
            Event::WindowPlace(
                WindowID(0, 2),
                Placement { area: Rect::new(51, 1, 50, 100), workspace: 0 },
            ),
        ]
    );
}

#[test]
fn resize_is_cut_to_the_axis() {
    let mut fork = pair(Rect::new(1, 1, 200, 100));
    let mut queue = EventQueue::default();
    fork.resize(30, &mut queue);
    assert_eq!(fork.split_handle, 30);
    assert_eq!(rect_of(&fork.left), Rect::new(1, 1, 30, 100));
    assert_eq!(rect_of(fork.right.as_ref().unwrap()), Rect::new(31, 1, 170, 100));
    fork.resize(900, &mut queue);
    assert_eq!(fork.split_handle, 200);
    assert_eq!(rect_of(fork.right.as_ref().unwrap()), Rect::new(201, 1, 0, 100));
    fork.resize(0, &mut queue);
    assert_eq!(rect_of(&fork.left), Rect::new(1, 1, 0, 100));
    assert_eq!(rect_of(fork.right.as_ref().unwrap()), Rect::new(1, 1, 200, 100));
}

#[test]
fn two_toggles_restore_the_orientation_and_swap_the_branches() {
    let mut fork = pair(Rect::new(1, 1, 200, 100));
    let mut queue = EventQueue::default();
    fork.toggle_orientation(&mut queue);
    assert_eq!(fork.orientation, Orientation::Vertical);
    assert_eq!(fork.split_handle, 50);
    assert_eq!((id_of(&fork.left), id_of(fork.right.as_ref().unwrap())), (1, 2));
    assert_eq!(rect_of(&fork.left), Rect::new(1, 1, 200, 50));
    fork.toggle_orientation(&mut queue);
    assert_eq!(fork.orientation, Orientation::Horizontal);
    assert_eq!(fork.split_handle, 100);
    assert_eq!((id_of(&fork.left), id_of(fork.right.as_ref().unwrap())), (2, 1));
    fork.toggle_orientation(&mut queue);
    fork.toggle_orientation(&mut queue);
    assert_eq!(fork.orientation, Orientation::Horizontal);
    assert_eq!((id_of(&fork.left), id_of(fork.right.as_ref().unwrap())), (1, 2));
    assert_eq!(rect_of(&fork.left), Rect::new(1, 1, 100, 100));
}

#[test]
fn two_toggles_of_a_single_branch_restore_it() {
    let mut fork = Fork::new(0, Rect::new(1, 1, 200, 100), Branch::Window(window(1)), 0);
    let mut queue = EventQueue::default();
    fork.toggle_orientation(&mut queue);
    fork.toggle_orientation(&mut queue);
    assert_eq!(fork.orientation, Orientation::Horizontal);
    assert_eq!(id_of(&fork.left), 1);
    assert!(fork.right.is_none());
}

#[test]
fn reset_orientation_halves_and_turns() {
    let mut fork = pair(Rect::new(1, 1, 200, 100));
    let mut queue = EventQueue::default();
    fork.work_area_update(Rect::new(1, 1, 100, 400), &mut queue);
    assert_eq!(fork.orientation, Orientation::Horizontal);
    fork.reset_orientation(&mut queue);
    assert_eq!(fork.orientation, Orientation::Vertical);
    assert_eq!(fork.split_handle, 200);
    assert!(fork.orientation_toggled);
    assert_eq!(rect_of(&fork.left), Rect::new(1, 1, 100, 200));
    queue.consume_events();
    fork.orientation_set(Orientation::Vertical, &mut queue);
    assert_eq!(fork.orientation, Orientation::Vertical);
    assert_eq!(queue.consume_events(), vec![]);
    fork.orientation_set(Orientation::Horizontal, &mut queue);
    assert_eq!(fork.orientation, Orientation::Horizontal);
    assert_eq!((id_of(&fork.left), id_of(fork.right.as_ref().unwrap())), (2, 1));
    assert_eq!(rect_of(&fork.left), Rect::new(1, 1, 50, 400));
    fork.reset();
    assert_eq!(fork.split_handle, 200);
    assert_eq!(fork.orientation, Orientation::Vertical);
    fork.orient(Orientation::Horizontal);
    assert_eq!(fork.orientation, Orientation::Horizontal);
    fork.reset_orientation(&mut queue);
    assert_eq!(fork.orientation, Orientation::Vertical);
}

#[test]
fn largest_window_is_the_leftmost_of_the_largest() {
    let mut fork = pair(Rect::new(1, 1, 200, 100));
    assert_eq!(fork.largest_window().map(|w| w.id), Some(WindowID(0, 1)));
    let mut queue = EventQueue::default();
    fork.resize(30, &mut queue);
    assert_eq!(fork.largest_window().map(|w| w.id), Some(WindowID(0, 2)));
    assert!(largest(&Vec::new()).is_none());
    let zero = vec![window(7), window(8)];
    assert_eq!(largest(&zero).map(|w| w.id), Some(WindowID(0, 7)));
}

#[test]
fn windows_are_listed_from_left_to_right() {
    let mut fork = pair(Rect::new(1, 1, 200, 100));
    let mut queue = EventQueue::default();
    fork.apply(BranchRef::Window(WindowID(0, 2)), Action::ToggleStack(9), &mut queue);
    fork.apply(BranchRef::Window(WindowID(0, 2)), Action::Attach(window(3), 5), &mut queue);
    fork.apply(BranchRef::Window(WindowID(0, 1)), Action::Attach(window(4), 5), &mut queue);
    let ids: Vec<u32> = fork.windows().iter().map(|w| w.id.1).collect();
    assert_eq!(ids, vec![1, 4, 2, 3]);
}

#[test]
fn branch_finds_the_side() {
    let mut fork = pair(Rect::new(1, 1, 200, 100));
    assert!(fork.left_is(BranchRef::Window(WindowID(0, 1))));
    assert!(!fork.left_is(BranchRef::Window(WindowID(0, 2))));
    assert!(fork.right_is(BranchRef::Window(WindowID(0, 2))));
    assert!(!fork.right_is(BranchRef::Fork(4)));
    assert_eq!(fork.side_of(WindowID(0, 1)), Some(Side::Left));
    assert_eq!(fork.side_of(WindowID(0, 2)), Some(Side::Right));
    assert_eq!(fork.side_of(WindowID(0, 3)), None);
    assert!(fork.branch(BranchRef::Window(WindowID(0, 1))).unwrap().is_left());
    assert!(fork.branch(BranchRef::Window(WindowID(0, 2))).unwrap().is_right());
    assert!(fork.branch(BranchRef::Window(WindowID(0, 3))).is_none());
    if let Some(either::Either::Right(slot)) = fork.branch(BranchRef::Window(WindowID(0, 2))) {
        *slot = Branch::Window(window(8));
    }
    assert!(fork.right_is(BranchRef::Window(WindowID(0, 8))));
}

#[test]
fn swap_puts_a_window_in_the_place_of_another() {
    let mut fork = pair(Rect::new(1, 1, 200, 100));
    fork.swap(WindowID(0, 2), window(9));
    assert_eq!(id_of(fork.right.as_ref().unwrap()), 9);
    assert_eq!(rect_of(fork.right.as_ref().unwrap()), Rect::new(101, 1, 100, 100));
    fork.swap(WindowID(0, 1), window(8));
    assert_eq!(id_of(&fork.left), 8);
    fork.swap(WindowID(0, 1), window(7));
    assert_eq!(id_of(&fork.left), 8);
}

#[test]
fn attach_beside_a_window_makes_a_fork() {
    let mut fork = pair(Rect::new(1, 1, 2560, 1440));
    let mut queue = EventQueue::default();
    let r = fork.apply(BranchRef::Window(WindowID(0, 2)), Action::Attach(window(3), 11), &mut queue);
    assert_eq!(r.outcome, Outcome::Kept);
    assert!(r.made);
    match fork.right.as_ref().unwrap() {
        Branch::Fork(inner) => {
            assert_eq!(inner.handle, 11);
            assert_eq!(inner.parent, Some(4));
            assert_eq!(inner.area, Rect::new(1281, 1, 1280, 1440));
            assert_eq!(inner.orientation, Orientation::Vertical);
            assert_eq!(inner.split_handle, 720);
            assert_eq!(rect_of(&inner.left), Rect::new(1281, 1, 1280, 720));
            assert_eq!(rect_of(inner.right.as_ref().unwrap()), Rect::new(1281, 721, 1280, 720));
            match &inner.left {
                Branch::Window(w) => assert_eq!(w.fork, Some(11)),
                _ => panic!("the anchor is a window"),
            }
        },
        _ => panic!("a fork took the place of the anchor"),
    }
}

#[test]
fn detach_promotes_the_other_branch() {
    let mut fork = pair(Rect::new(1, 1, 200, 100));
    let mut queue = EventQueue::default();
    let r = fork.apply(BranchRef::Window(WindowID(0, 1)), Action::Detach, &mut queue);
    assert_eq!(r.outcome, Outcome::Kept);
    assert_eq!(id_of(&fork.left), 2);
    assert!(fork.right.is_none());
    assert_eq!(rect_of(&fork.left), Rect::new(1, 1, 200, 100));
    let r = fork.apply(BranchRef::Window(WindowID(0, 2)), Action::Detach, &mut queue);
    assert_eq!(r.outcome, Outcome::Gone);
    let r = fork.apply(BranchRef::Window(WindowID(0, 9)), Action::Detach, &mut queue);
    assert_eq!(r.outcome, Outcome::Missing);
}

#[test]
fn a_fork_left_with_one_fork_gives_way_to_it() {
    let mut fork = pair(Rect::new(1, 1, 200, 100));
    let mut queue = EventQueue::default();
    fork.apply(BranchRef::Window(WindowID(0, 2)), Action::Attach(window(3), 11), &mut queue);
    queue.consume_events();
    let r = fork.apply(BranchRef::Window(WindowID(0, 1)), Action::Detach, &mut queue);
    assert_eq!(r.outcome, Outcome::Replaced);
    assert_eq!(fork.handle, 11);
    assert_eq!(fork.parent, None);
    assert_eq!(queue.consume_events(), vec![Event::ForkDestroy(4)]);
}

#[test]
fn a_fork_below_that_is_gone_is_dropped() {
    let mut fork = pair(Rect::new(1, 1, 200, 100));
    let mut queue = EventQueue::default();
    fork.apply(BranchRef::Window(WindowID(0, 2)), Action::Attach(window(3), 11), &mut queue);
    fork.apply(BranchRef::Window(WindowID(0, 2)), Action::Detach, &mut queue);
    queue.consume_events();
    let r = fork.apply(BranchRef::Window(WindowID(0, 3)), Action::Detach, &mut queue);
    assert_eq!(r.outcome, Outcome::Kept);
    assert!(fork.right.is_none());
    assert_eq!(id_of(&fork.left), 1);
    assert_eq!(rect_of(&fork.left), Rect::new(1, 1, 200, 100));
    let events = queue.consume_events();
    assert_eq!(events[1], Event::ForkDestroy(11));
    assert_eq!(events.len(), 3);
}

#[test]
fn stack_toggle_makes_and_unmakes_a_stack() {
    let mut fork = pair(Rect::new(1, 1, 200, 100));
    let mut queue = EventQueue::default();
    let r = fork.apply(BranchRef::Window(WindowID(0, 2)), Action::ToggleStack(6), &mut queue);
    assert!(r.made);
    let slot = Rect::new(101, 1, 100, 100);
    assert_eq!(
        queue.consume_events(),
        vec![
            Event::StackPlace(6, Placement { area: slot, workspace: 0 }),
            Event::StackAssign(6, WindowID(0, 2)),
        ]
    );
    match fork.right.as_ref().unwrap() {
        Branch::Stack(s) => {
            assert_eq!(s.handle, 6);
            assert_eq!(s.parent, 4);
            assert_eq!(s.area, slot);
            assert_eq!(s.windows[0].stack, Some(6));
        },
        _ => panic!("a stack took the place of the window"),
    }
    let r = fork.apply(BranchRef::Window(WindowID(0, 2)), Action::ToggleStack(7), &mut queue);
    assert!(!r.made);
    assert_eq!(
        queue.consume_events(),
        vec![Event::StackDestroy(6), Event::StackDetach(6, WindowID(0, 2))]
    );
    match fork.right.as_ref().unwrap() {
        Branch::Window(w) => {
            assert_eq!(w.stack, None);
            assert_eq!(w.rect, slot);
        },
        _ => panic!("the window took the place of the stack"),
    }
}

#[test]
fn move_out_of_a_stack_puts_the_window_beside_it() {
    let mut fork = pair(Rect::new(1, 1, 200, 100));
    let mut queue = EventQueue::default();
    fork.apply(BranchRef::Window(WindowID(0, 2)), Action::ToggleStack(6), &mut queue);
    fork.apply(BranchRef::Window(WindowID(0, 2)), Action::Attach(window(3), 0), &mut queue);
    let r = fork.apply(
        BranchRef::Window(WindowID(0, 3)),
        Action::MoveOut(Direction::Above, 12),
        &mut queue,
    );
    assert_eq!(r.outcome, Outcome::Kept);
    assert!(r.made);
    match fork.right.as_ref().unwrap() {
        Branch::Fork(inner) => {
            assert_eq!(inner.handle, 12);
            assert_eq!(inner.orientation, Orientation::Vertical);
            assert_eq!(id_of(&inner.left), 3);
            assert!(matches!(&inner.left, Branch::Window(w) if w.visible && w.stack.is_none()));
            match inner.right.as_ref().unwrap() {
                Branch::Stack(s) => {
                    assert_eq!(s.parent, 12);
                    assert_eq!(s.windows.len(), 1);
                    assert_eq!(s.windows[0].fork, Some(12));
                },
                _ => panic!("the stack is the second branch"),
            }
        },
        _ => panic!("a fork took the place of the stack"),
    }
}

#[test]
fn move_out_of_a_stack_of_one_unstacks() {
    let mut fork = pair(Rect::new(1, 1, 200, 100));
    let mut queue = EventQueue::default();
    fork.apply(BranchRef::Window(WindowID(0, 2)), Action::ToggleStack(6), &mut queue);
    queue.consume_events();
    let r = fork.apply(
        BranchRef::Window(WindowID(0, 2)),
        Action::MoveOut(Direction::Right, 12),
        &mut queue,
    );
    assert!(!r.made);
    assert_eq!(id_of(fork.right.as_ref().unwrap()), 2);
    assert_eq!(queue.consume_events()[1], Event::StackDestroy(6));
}

#[test]
fn move_out_of_the_only_branch_replaces_the_fork() {
    let mut fork = Fork::new(4, Rect::new(1, 1, 200, 100), Branch::Window(window(1)), 0);
    let mut queue = EventQueue::default();
    fork.work_area_refresh(&mut queue);
    fork.apply(BranchRef::Window(WindowID(0, 1)), Action::ToggleStack(6), &mut queue);
    fork.apply(BranchRef::Window(WindowID(0, 1)), Action::Attach(window(2), 0), &mut queue);
    let r = fork.apply(
        BranchRef::Window(WindowID(0, 2)),
        Action::MoveOut(Direction::Right, 12),
        &mut queue,
    );
    assert_eq!(r.outcome, Outcome::Replaced);
    assert_eq!(fork.handle, 12);
    assert_eq!(fork.parent, None);
    assert_eq!(id_of(fork.right.as_ref().unwrap()), 2);
    assert!(matches!(fork.left, Branch::Stack(_)));
}

#[test]
fn stack_of_a_fork_keeps_its_area_on_attach() {
    let mut fork = pair(Rect::new(1, 1, 200, 100));
    let mut queue = EventQueue::default();
    fork.apply(BranchRef::Window(WindowID(0, 1)), Action::ToggleStack(6), &mut queue);
    queue.consume_events();
    let r = fork.apply(BranchRef::Window(WindowID(0, 1)), Action::Attach(window(5), 0), &mut queue);
    assert!(!r.made);
    let place = Placement { area: Rect::new(1, 1, 100, 100), workspace: 0 };
    assert_eq!(
        queue.consume_events(),
        vec![
            Event::StackPlace(6, place),
            Event::StackAssign(6, WindowID(0, 5)),
            Event::WindowPlace(WindowID(0, 1), place),
            Event::WindowPlace(WindowID(0, 5), place),
            Event::WindowVisibility(WindowID(0, 5), false),
        ]
    );
    assert!(!stack_member_visible(&fork, 1));
    let stack: &Stack = match &fork.left {
        Branch::Stack(s) => s,
        _ => panic!("the left branch is a stack"),
    };
    assert_eq!(stack.active, WindowID(0, 1));
    assert_eq!(stack.windows[1].fork, Some(4));
}
