use pop_tiler::stack::Stack;
use pop_tiler::{Event, EventQueue, Placement, Rect, StackMovement, Window, WindowID};

fn window(n: u32) -> Window {
    let mut w = Window::new(WindowID(0, n));
    w.rect = Rect::new(1, 1, 100, 50);
    w.workspace = 2;
    w
}

fn stack_of(ids: &[u32]) -> Stack {
    let mut stack = Stack::new(7, window(ids[0]), 3);
    for id in &ids[1..] {
        stack.attach(window(*id));
    }
    stack
}

fn ids(stack: &Stack) -> Vec<u32> {
    stack.windows.iter().map(|w| w.id.1).collect()
}

#[test]
fn new_window_is_unattached() {
    let w = Window::new(WindowID(3, 4));
    assert_eq!(w.id, WindowID(3, 4));
    assert_eq!(w.rect, Rect::new(1, 1, 1, 1));
    assert_eq!(w.workspace, 0);
    assert!(w.visible);
    assert_eq!(w.fork, None);
    assert_eq!(w.stack, None);
}

#[test]
fn new_stack_takes_the_place_of_its_window() {
    let stack = Stack::new(7, window(1), 3);
    assert_eq!(stack.handle, 7);
    assert_eq!(stack.parent, 3);
    assert_eq!(stack.area, Rect::new(1, 1, 100, 50));
    assert_eq!(stack.workspace, 2);
    assert_eq!(stack.active, WindowID(0, 1));
    assert_eq!(stack.windows.len(), 1);
    assert_eq!(stack.windows[0].stack, Some(7));
    assert_eq!(stack.windows[0].fork, Some(3));
}

#[test]
fn attach_appends_and_keeps_the_raised_member() {
    let mut stack = stack_of(&[1]);
    let mut other = Window::new(WindowID(0, 2));
    other.workspace = 9;
    stack.attach(other);
    assert_eq!(ids(&stack), vec![1, 2]);
    assert_eq!(stack.active, WindowID(0, 1));
    assert_eq!(stack.windows[1].stack, Some(7));
    assert_eq!(stack.windows[1].fork, Some(3));
    assert_eq!(stack.windows[1].workspace, 2);
    assert!(stack.windows[0].visible);
    assert!(!stack.windows[1].visible);
    assert!(stack.is_lit());
}

#[test]
fn detach_of_the_raised_member_raises_the_next() {
    let mut stack = stack_of(&[1, 2, 3]);
    let mut queue = EventQueue::default();
    stack.raise(WindowID(0, 2), &mut queue);
    queue.consume_events();
    let removed = stack.detach(WindowID(0, 2), &mut queue).unwrap();
    assert_eq!(removed.id, WindowID(0, 2));
    assert_eq!(removed.fork, None);
    assert_eq!(removed.stack, None);
    assert_eq!(ids(&stack), vec![1, 3]);
    assert_eq!(stack.active, WindowID(0, 3));
    assert!(!stack.windows[0].visible);
    assert!(stack.windows[1].visible);
    assert_eq!(
        queue.consume_events(),
        vec![
            Event::StackDetach(7, WindowID(0, 2)),
            Event::StackRaise(7, WindowID(0, 3)),
            Event::WindowVisibility(WindowID(0, 3), true),
        ]
    );
}

#[test]
fn detach_of_the_last_raised_member_raises_the_previous() {
    let mut stack = stack_of(&[1, 2, 3]);
    let mut queue = EventQueue::default();
    stack.raise(WindowID(0, 3), &mut queue);
    stack.detach(WindowID(0, 3), &mut queue);
    assert_eq!(ids(&stack), vec![1, 2]);
    assert_eq!(stack.active, WindowID(0, 2));
    let visible: Vec<bool> = stack.windows.iter().map(|w| w.visible).collect();
    assert_eq!(visible, vec![false, true]);
}

#[test]
fn detach_of_another_member_keeps_the_raised_one() {
    let mut stack = stack_of(&[1, 2, 3]);
    let mut queue = EventQueue::default();
    stack.detach(WindowID(0, 3), &mut queue);
    assert_eq!(stack.active, WindowID(0, 1));
    assert_eq!(queue.consume_events(), vec![Event::StackDetach(7, WindowID(0, 3))]);
}

#[test]
fn detach_of_the_only_member_empties_the_stack() {
    let mut stack = stack_of(&[1]);
    let mut queue = EventQueue::default();
    stack.detach(WindowID(0, 1), &mut queue);
    assert!(stack.windows.is_empty());
    assert_eq!(queue.consume_events(), vec![Event::StackDetach(7, WindowID(0, 1))]);
}

#[test]
fn detach_of_a_stranger_changes_nothing() {
    let mut stack = stack_of(&[1, 2]);
    let mut queue = EventQueue::default();
    assert!(stack.detach(WindowID(0, 9), &mut queue).is_none());
    assert_eq!(ids(&stack), vec![1, 2]);
    assert_eq!(queue.consume_events(), vec![]);
}

#[test]
fn select_gives_the_neighbours_of_the_raised_member() {
    let mut stack = stack_of(&[1, 2, 3]);
    assert_eq!(stack.select_left(), None);
    assert_eq!(stack.select_right(), Some(WindowID(0, 2)));
    stack.active = WindowID(0, 2);
    assert_eq!(stack.select_left(), Some(WindowID(0, 1)));
    assert_eq!(stack.select_right(), Some(WindowID(0, 3)));
    stack.active = WindowID(0, 3);
    assert_eq!(stack.select_left(), Some(WindowID(0, 2)));
    assert_eq!(stack.select_right(), None);
}

#[test]
fn move_swaps_the_raised_member_with_its_neighbour() {
    let mut stack = stack_of(&[1, 2, 3]);
    assert_eq!(stack.move_left(), None);
    assert_eq!(ids(&stack), vec![1, 2, 3]);
    assert_eq!(stack.move_right(), Some(StackMovement::Right(WindowID(0, 1))));
    assert_eq!(ids(&stack), vec![2, 1, 3]);
    assert_eq!(stack.move_right(), Some(StackMovement::Right(WindowID(0, 1))));
    assert_eq!(ids(&stack), vec![2, 3, 1]);
    assert_eq!(stack.move_right(), None);
    assert_eq!(stack.move_left(), Some(StackMovement::Left(WindowID(0, 1))));
    assert_eq!(ids(&stack), vec![2, 1, 3]);
}

#[test]
fn swap_replaces_a_member() {
    let mut stack = stack_of(&[1, 2, 3]);
    stack.swap(WindowID(0, 2), Window::new(WindowID(5, 5)));
    assert_eq!(stack.windows[1].id, WindowID(5, 5));
    assert_eq!(stack.windows[1].stack, Some(7));
    assert_eq!(stack.windows[1].rect, Rect::new(1, 1, 100, 50));
    assert_eq!(ids(&stack), vec![1, 5, 3]);
}

#[test]
fn work_area_update_moves_every_member() {
    let mut stack = stack_of(&[2, 1]);
    let mut queue = EventQueue::default();
    let area = Rect::new(5, 6, 70, 80);
    stack.work_area_update(area, &mut queue);
    assert_eq!(stack.area, area);
    assert!(stack.windows.iter().all(|w| w.rect == area));
    let place = Placement { area, workspace: 2 };
    assert_eq!(
        queue.consume_events(),
        vec![
            Event::StackPlace(7, place),
            Event::WindowPlace(WindowID(0, 1), place),
            Event::WindowPlace(WindowID(0, 2), place),
        ]
    );
}

#[test]
fn raise_shows_one_member_only() {
    let mut stack = stack_of(&[1, 2, 3]);
    let mut queue = EventQueue::default();
    stack.raise(WindowID(0, 2), &mut queue);
    assert_eq!(stack.active, WindowID(0, 2));
    let visible: Vec<bool> = stack.windows.iter().map(|w| w.visible).collect();
    assert_eq!(visible, vec![false, true, false]);
    assert_eq!(
        queue.consume_events(),
        vec![
            Event::WindowVisibility(WindowID(0, 1), false),
            Event::WindowVisibility(WindowID(0, 2), true),
        ]
    );
    stack.set_view(false, &mut queue);
    assert!(!stack.is_lit());
    stack.raise(WindowID(0, 3), &mut queue);
    assert!(stack.windows.iter().all(|w| !w.visible));
    assert_eq!(queue.consume_events(), vec![Event::WindowVisibility(WindowID(0, 2), false)]);
}
