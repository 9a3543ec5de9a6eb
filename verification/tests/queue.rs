use pop_tiler::ordered::{find, locate, put};
use pop_tiler::{
    Event, EventQueue, ForkUpdate, Orientation, Placement, Rect, StackMovement, WindowID,
};

fn update(split: u32) -> ForkUpdate {
    ForkUpdate {
        workspace: 0,
        orientation: Orientation::Horizontal,
        rect: Rect::new(1, 1, 100, 100),
        handle: split,
    }
}

fn placement(width: u32) -> Placement {
    Placement { area: Rect::new(1, 1, width, 10), workspace: 3 }
}

#[test]
fn put_keeps_keys_ascending_and_replaces() {
    let mut entries: Vec<(usize, char)> = Vec::new();
    put(&mut entries, 5, 'a');
    put(&mut entries, 2, 'b');
    put(&mut entries, 9, 'c');
    put(&mut entries, 5, 'd');
    assert_eq!(entries, vec![(2, 'b'), (5, 'd'), (9, 'c')]);
    assert_eq!(find(&entries, &5), Some('d'));
    assert_eq!(find(&entries, &3), None);
    assert_eq!(locate(&entries, &1), 0);
    assert_eq!(locate(&entries, &5), 1);
    assert_eq!(locate(&entries, &6), 2);
    assert_eq!(locate(&entries, &10), 3);
}

#[test]
fn window_ids_order_by_first_then_second() {
    assert!(WindowID(0, 9).comes_before(&WindowID(1, 0)));
    assert!(WindowID(1, 0).comes_before(&WindowID(1, 1)));
    assert!(!WindowID(1, 1).comes_before(&WindowID(1, 1)));
    assert!(!WindowID(2, 0).comes_before(&WindowID(1, 9)));
}

#[test]
fn window_ids_come_from_pairs() {
    let id: WindowID = (3, 4).into();
    assert_eq!(id, WindowID(3, 4));
    let pair: (u32, u32) = id.into();
    assert_eq!(pair, (3, 4));
    assert_eq!(WindowID::from((0, 7)), WindowID(0, 7));
}

#[test]
fn empty_queue_drains_to_nothing() {
    let mut queue = EventQueue::default();
    assert_eq!(queue.consume_events(), vec![]);
}

#[test]
fn drain_order_is_forks_stacks_windows_then_the_rest() {
    let mut queue = EventQueue::default();
    queue.stack_movement(4, StackMovement::Left(WindowID(0, 1)));
    queue.window_visibility(WindowID(0, 2), true);
    queue.window_place(WindowID(0, 2), placement(7));
    queue.window_place(WindowID(0, 1), placement(8));
    queue.stack_raise_window(4, WindowID(0, 1));
    queue.stack_assign(4, WindowID(0, 3));
    queue.stack_detach(4, WindowID(0, 2));
    queue.stack_update(4, placement(9));
    queue.fork_update(7, update(50));
    queue.fork_destroy(3);
    queue.stack_movement(4, StackMovement::Right(WindowID(0, 1)));
    assert_eq!(
        queue.consume_events(),
        vec![
            Event::ForkDestroy(3),
            Event::Fork(7, update(50)),
            Event::StackPlace(4, placement(9)),
            Event::StackDetach(4, WindowID(0, 2)),
            Event::StackAssign(4, WindowID(0, 3)),
            Event::StackRaise(4, WindowID(0, 1)),
            Event::WindowPlace(WindowID(0, 1), placement(8)),
            Event::WindowPlace(WindowID(0, 2), placement(7)),
            Event::WindowVisibility(WindowID(0, 2), true),
            Event::StackMovement(4, StackMovement::Left(WindowID(0, 1))),
            Event::StackMovement(4, StackMovement::Right(WindowID(0, 1))),
        ]
    );
    assert_eq!(queue.consume_events(), vec![]);
}

#[test]
fn later_updates_replace_earlier_ones() {
    let mut queue = EventQueue::default();
    queue.window_place(WindowID(1, 1), placement(1));
    queue.window_place(WindowID(1, 1), placement(2));
    queue.window_visibility(WindowID(1, 1), true);
    queue.window_visibility(WindowID(1, 1), false);
    queue.fork_update(2, update(10));
    queue.fork_update(2, update(20));
    queue.stack_assign(6, WindowID(1, 1));
    queue.stack_detach(6, WindowID(1, 1));
    queue.stack_detach(6, WindowID(1, 2));
    queue.stack_assign(6, WindowID(1, 2));
    assert_eq!(
        queue.consume_events(),
        vec![
            Event::Fork(2, update(20)),
            Event::StackDetach(6, WindowID(1, 1)),
            Event::StackAssign(6, WindowID(1, 2)),
            Event::WindowPlace(WindowID(1, 1), placement(2)),
            Event::WindowVisibility(WindowID(1, 1), false),
        ]
    );
}

#[test]
fn destroy_hides_all_but_memberships() {
    let mut queue = EventQueue::default();
    queue.fork_update(1, update(10));
    queue.fork_destroy(1);
    queue.fork_update(1, update(11));
    queue.stack_update(2, placement(5));
    queue.stack_raise_window(2, WindowID(0, 1));
    queue.stack_detach(2, WindowID(0, 1));
    queue.stack_destroy(2);
    queue.stack_assign(8, WindowID(0, 1));
    assert_eq!(
        queue.consume_events(),
        vec![
            Event::ForkDestroy(1),
            Event::StackDestroy(2),
            Event::StackDetach(2, WindowID(0, 1)),
            Event::StackAssign(8, WindowID(0, 1)),
        ]
    );
}

#[test]
fn stack_visibility_comes_after_placement() {
    let mut queue = EventQueue::default();
    queue.stack_update(2, placement(5));
    queue.stacks[0].1.visibility = Some(false);
    assert_eq!(
        queue.consume_events(),
        vec![Event::StackPlace(2, placement(5)), Event::StackVisibility(2, false)]
    );
}
