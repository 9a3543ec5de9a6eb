use pop_tiler::fork::Branch;
use pop_tiler::{
    Event, ForkUpdate, Orientation, Placement, Rect, Request, Service, StackMovement, Tiler,
    WindowID,
};

const A: WindowID = WindowID(0, 0);
const B: WindowID = WindowID(0, 1);
const C: WindowID = WindowID(0, 2);
const D: WindowID = WindowID(0, 3);
const E: WindowID = WindowID(0, 4);
const F: WindowID = WindowID(0, 5);

fn screen() -> Rect {
    Rect::new(1, 1, 2560, 1440)
}

fn single_display() -> Tiler {
    let mut tiler = Tiler::default();
    tiler.display_update(0, screen());
    tiler.workspace_update(0, 0);
    tiler
}

fn rect_of(tiler: &Tiler, id: WindowID) -> Rect {
    tiler.find(id).unwrap().rect
}

fn places(events: &[Event]) -> Vec<(WindowID, Rect)> {
    events
        .iter()
        .filter_map(|e| match e {
            Event::WindowPlace(id, p) => Some((*id, p.area)),
            _ => None,
        })
        .collect()
}

fn six_windows() -> Tiler {
    let mut tiler = single_display();
    for id in [A, B, C, D, E, F] {
        tiler.attach(id);
        tiler.focus(id);
    }
    tiler
}

#[test]
fn a_new_tiler_is_empty() {
    let mut tiler = Tiler::default();
    assert_eq!(tiler.active_window(), None);
    assert_eq!(tiler.active_workspace(), 0);
    assert!(tiler.windows().is_empty());
    assert!(tiler.workspaces().is_empty());
    assert!(tiler.displays().is_empty());
    assert_eq!(tiler.events(), vec![]);
}

#[test]
fn single_window_fills_the_display() {
    let mut tiler = single_display();
    tiler.attach(A);
    let events = tiler.events();
    assert_eq!(
        events,
        vec![
            Event::Fork(
                0,
                ForkUpdate {
                    workspace: 0,
                    orientation: Orientation::Horizontal,
                    rect: screen(),
                    handle: 1279,
                },
            ),
            Event::WindowPlace(A, Placement { area: screen(), workspace: 0 }),
            Event::Focus(A),
        ]
    );
    assert_eq!(tiler.events(), vec![]);
}

#[test]
fn second_window_splits_in_half() {
    let mut tiler = single_display();
    tiler.attach(A);
    tiler.events();
    tiler.attach(B);
    tiler.focus(B);
    let events = tiler.events();
    assert_eq!(
        events,
        vec![
            Event::Fork(
                0,
                ForkUpdate {
                    workspace: 0,
                    orientation: Orientation::Horizontal,
                    rect: screen(),
                    handle: 1280,
                },
            ),
            Event::WindowPlace(A, Placement { area: Rect::new(1, 1, 1280, 1440), workspace: 0 }),
            Event::WindowPlace(B, Placement { area: Rect::new(1281, 1, 1280, 1440), workspace: 0 }),
            Event::Focus(B),
        ]
    );
    let root = tiler.workspaces()[0].fork().unwrap();
    assert!(matches!(&root.left, Branch::Window(w) if w.id == A));
    assert!(matches!(root.right.as_ref().unwrap(), Branch::Window(w) if w.id == B));
}

#[test]
fn six_windows_nest_to_the_right() {
    let tiler = six_windows();
    assert_eq!(rect_of(&tiler, A), Rect::new(1, 1, 1280, 1440));
    assert_eq!(rect_of(&tiler, B), Rect::new(1281, 1, 1280, 720));
    assert_eq!(rect_of(&tiler, C), Rect::new(1281, 721, 640, 720));
    assert_eq!(rect_of(&tiler, D), Rect::new(1921, 721, 640, 360));
    assert_eq!(rect_of(&tiler, E), Rect::new(1921, 1081, 320, 360));
    assert_eq!(rect_of(&tiler, F), Rect::new(2241, 1081, 320, 360));
    let ids: Vec<WindowID> = tiler.windows().iter().map(|w| w.id).collect();
    assert_eq!(ids, vec![A, B, C, D, E, F]);
    assert!(tiler.windows().iter().all(|w| w.workspace == 0 && w.visible));
}

#[test]
fn fork_resize_halves_the_left_side() {
    let mut tiler = six_windows();
    let events = tiler.events();
    let first = events
        .iter()
        .find_map(|e| match e {
            Event::Fork(id, update) => Some((*id, update.handle)),
            _ => None,
        })
        .unwrap();
    assert_eq!(first, (0, 1280));
    tiler.fork_resize(first.0, first.1 / 2);
    assert_eq!(rect_of(&tiler, A), Rect::new(1, 1, 640, 1440));
    assert_eq!(rect_of(&tiler, B), Rect::new(641, 1, 1920, 720));
    assert_eq!(rect_of(&tiler, C), Rect::new(641, 721, 960, 720));
    assert_eq!(rect_of(&tiler, D), Rect::new(1601, 721, 960, 360));
    assert_eq!(rect_of(&tiler, E), Rect::new(1601, 1081, 480, 360));
    assert_eq!(rect_of(&tiler, F), Rect::new(2081, 1081, 480, 360));
    let events = tiler.events();
    assert_eq!(places(&events).len(), 6);
    tiler.fork_resize(77, 5);
    assert_eq!(tiler.events(), vec![]);
}

#[test]
fn detach_collapses_the_tree() {
    let mut tiler = six_windows();
    tiler.events();
    tiler.detach(A);
    let events = tiler.events();
    assert_eq!(events[0], Event::ForkDestroy(0));
    assert_eq!(rect_of(&tiler, B), Rect::new(1, 1, 2560, 720));
    assert_eq!(rect_of(&tiler, C), Rect::new(1, 721, 1280, 720));
    let root = tiler.workspaces()[0].fork().unwrap();
    assert_eq!(root.handle, 1);
    assert_eq!(root.parent, None);
    assert_eq!(root.area, screen());
    assert_eq!(tiler.windows().len(), 5);
    assert!(tiler.find(A).is_none());
}

#[test]
fn detach_of_the_active_window_clears_the_focus() {
    let mut tiler = single_display();
    tiler.attach(A);
    tiler.attach(B);
    tiler.events();
    tiler.detach(A);
    assert_eq!(tiler.active_window(), None);
    let events = tiler.events();
    assert!(!events.iter().any(|e| matches!(e, Event::Focus(_))));
    tiler.detach(B);
    assert!(tiler.workspaces()[0].fork().is_none());
    assert_eq!(tiler.events(), vec![Event::ForkDestroy(0)]);
}

#[test]
fn detach_then_attach_restores_a_single_window_root() {
    let mut tiler = single_display();
    tiler.attach(A);
    tiler.events();
    tiler.detach(A);
    tiler.attach(A);
    let root = tiler.workspaces()[0].fork().unwrap();
    assert!(matches!(&root.left, Branch::Window(w) if w.id == A && w.rect == screen()));
    assert!(root.right.is_none());
    assert!(root.parent.is_none());
    assert_eq!(tiler.active_window(), Some(A));
    assert_eq!(tiler.windows().len(), 1);
}

#[test]
fn the_registry_holds_the_attached_windows() {
    let mut tiler = single_display();
    assert!(tiler.registry().is_empty());
    tiler.attach(B);
    tiler.attach(A);
    tiler.attach(C);
    tiler.attach(A);
    assert_eq!(tiler.registry(), &vec![B, A, C]);
    assert!(tiler.is_registered(A));
    assert!(!tiler.is_registered(D));
    tiler.detach(A);
    tiler.detach(D);
    assert_eq!(tiler.registry(), &vec![B, C]);
    tiler.swap(B, C);
    assert_eq!(tiler.registry(), &vec![B, C]);
    tiler.focus(C);
    tiler.stack_toggle();
    tiler.attach(E);
    tiler.stack_toggle();
    assert_eq!(tiler.registry(), &vec![B, E]);
    assert!(tiler.find(C).is_none());
    let mut attached: Vec<WindowID> = tiler.windows().iter().map(|w| w.id).collect();
    attached.sort();
    assert_eq!(attached, vec![B, E]);
}

#[test]
fn handles_are_free_again_after_the_drain() {
    let mut tiler = single_display();
    tiler.attach(A);
    tiler.detach(A);
    tiler.attach(A);
    assert_eq!(tiler.workspaces()[0].fork().unwrap().handle, 1);
    tiler.events();
    tiler.detach(A);
    tiler.events();
    tiler.attach(A);
    assert_eq!(tiler.workspaces()[0].fork().unwrap().handle, 0);
}

#[test]
fn attach_of_an_attached_window_changes_nothing() {
    let mut tiler = single_display();
    tiler.attach(A);
    tiler.attach(B);
    tiler.events();
    tiler.attach(A);
    assert_eq!(tiler.events(), vec![]);
    assert_eq!(tiler.windows().len(), 2);
}

#[test]
fn attach_without_a_workspace_changes_nothing() {
    let mut tiler = Tiler::default();
    tiler.attach(A);
    assert_eq!(tiler.events(), vec![]);
    assert_eq!(tiler.active_window(), None);
    assert_eq!(tiler.window(A).fork, None);
}

#[test]
fn unknown_windows_are_ignored() {
    let mut tiler = single_display();
    tiler.attach(A);
    tiler.events();
    tiler.detach(B);
    tiler.focus(B);
    tiler.swap(A, B);
    tiler.swap(B, A);
    assert_eq!(tiler.events(), vec![]);
    assert_eq!(tiler.active_window(), Some(A));
}

#[test]
fn stack_toggle_and_detach() {
    let mut tiler = single_display();
    tiler.attach(A);
    tiler.attach(B);
    tiler.attach(C);
    tiler.focus(C);
    let slot = rect_of(&tiler, C);
    assert_eq!(slot, Rect::new(1, 721, 1280, 720));
    tiler.events();
    tiler.stack_toggle();
    assert_eq!(
        tiler.events(),
        vec![
            Event::StackPlace(0, Placement { area: slot, workspace: 0 }),
            Event::StackAssign(0, C),
        ]
    );
    let stacked = tiler.find(C).unwrap();
    assert_eq!(stacked.stack, Some(0));
    assert_eq!(stacked.rect, slot);
    tiler.detach(C);
    let events = tiler.events();
    assert!(events.contains(&Event::StackDestroy(0)));
    assert!(events.contains(&Event::StackDetach(0, C)));
    assert_eq!(rect_of(&tiler, A), Rect::new(1, 1, 1280, 1440));
    assert_eq!(tiler.windows().len(), 2);
}

#[test]
fn stack_toggle_twice_restores_the_window() {
    let mut tiler = single_display();
    tiler.attach(A);
    tiler.attach(B);
    tiler.stack_toggle();
    tiler.stack_toggle();
    let a = tiler.find(A).unwrap();
    assert_eq!(a.stack, None);
    assert_eq!(a.rect, Rect::new(1, 1, 1280, 1440));
    assert_eq!(tiler.active_window(), Some(A));
}

#[test]
fn windows_attach_into_the_stack_of_the_active_window() {
    let mut tiler = single_display();
    tiler.attach(A);
    tiler.stack_toggle();
    tiler.attach(B);
    tiler.attach(C);
    assert!(tiler.windows().iter().all(|w| w.stack == Some(0) && w.rect == screen()));
    assert!(tiler.windows().iter().all(|w| w.visible == (w.id == A)));
    tiler.events();
    tiler.focus_right();
    assert_eq!(tiler.active_window(), Some(B));
    assert_eq!(
        tiler.events(),
        vec![
            Event::WindowVisibility(A, false),
            Event::WindowVisibility(B, true),
            Event::Focus(B),
        ]
    );
    tiler.focus_right();
    assert_eq!(tiler.active_window(), Some(C));
    tiler.focus_right();
    assert_eq!(tiler.active_window(), Some(C));
    tiler.events();
    tiler.focus_left();
    assert_eq!(tiler.active_window(), Some(B));
    assert!(tiler.windows().iter().all(|w| w.visible == (w.id == B)));
    assert_eq!(
        tiler.events(),
        vec![
            Event::WindowVisibility(B, true),
            Event::WindowVisibility(C, false),
            Event::Focus(B),
        ]
    );
    tiler.move_left();
    let ids: Vec<WindowID> = tiler.windows().iter().map(|w| w.id).collect();
    assert_eq!(ids, vec![B, A, C]);
    assert_eq!(tiler.events(), vec![Event::StackMovement(0, StackMovement::Left(B))]);
    tiler.move_right();
    tiler.move_right();
    let ids: Vec<WindowID> = tiler.windows().iter().map(|w| w.id).collect();
    assert_eq!(ids, vec![A, C, B]);
}

#[test]
fn focus_in_a_stack_raises_the_window() {
    let mut tiler = single_display();
    tiler.attach(A);
    tiler.stack_toggle();
    tiler.attach(B);
    tiler.events();
    tiler.focus(B);
    assert_eq!(
        tiler.events(),
        vec![
            Event::WindowVisibility(A, false),
            Event::WindowVisibility(B, true),
            Event::Focus(B),
        ]
    );
    assert!(!tiler.find(A).unwrap().visible);
    assert!(tiler.find(B).unwrap().visible);
}

#[test]
fn unstacking_one_of_several_takes_it_out_of_the_tree() {
    let mut tiler = single_display();
    tiler.attach(A);
    tiler.stack_toggle();
    tiler.attach(B);
    tiler.events();
    tiler.stack_toggle();
    assert_eq!(
        tiler.events(),
        vec![
            Event::StackDetach(0, A),
            Event::StackRaise(0, B),
            Event::WindowVisibility(B, true),
        ]
    );
    assert!(tiler.find(B).unwrap().visible);
    assert!(tiler.find(A).is_none());
    assert_eq!(tiler.active_window(), None);
    assert_eq!(tiler.windows().len(), 1);
}

#[test]
fn move_out_of_a_stack() {
    let mut tiler = single_display();
    tiler.attach(A);
    tiler.stack_toggle();
    tiler.attach(B);
    tiler.focus(B);
    tiler.events();
    tiler.move_below();
    let b = tiler.find(B).unwrap();
    assert_eq!(b.stack, None);
    assert_eq!(b.rect, Rect::new(1, 720, 2560, 721));
    assert_eq!(rect_of(&tiler, A), Rect::new(1, 1, 2560, 719));
    let root = tiler.workspaces()[0].fork().unwrap();
    assert_eq!(root.handle, 1);
    assert_eq!(root.orientation, Orientation::Vertical);
    assert!(matches!(&root.left, Branch::Stack(_)));
    let events = tiler.events();
    assert!(events.contains(&Event::ForkDestroy(0)));
    assert!(events.contains(&Event::StackDetach(0, B)));
}

#[test]
fn focus_moves_to_the_nearest_window() {
    let mut tiler = six_windows();
    tiler.events();
    assert_eq!(tiler.active_window(), Some(F));
    tiler.focus_left();
    assert_eq!(tiler.active_window(), Some(E));
    tiler.focus_above();
    assert_eq!(tiler.active_window(), Some(D));
    tiler.focus_left();
    assert_eq!(tiler.active_window(), Some(C));
    tiler.focus_above();
    assert_eq!(tiler.active_window(), Some(B));
    tiler.focus_left();
    assert_eq!(tiler.active_window(), Some(A));
    tiler.focus_left();
    assert_eq!(tiler.active_window(), Some(A));
    tiler.focus_above();
    assert_eq!(tiler.active_window(), Some(A));
    tiler.focus_right_absolute();
    assert_eq!(tiler.active_window(), Some(B));
    tiler.focus_below();
    assert_eq!(tiler.active_window(), Some(C));
    assert_eq!(tiler.events(), vec![Event::Focus(C)]);
}

#[test]
fn of_two_windows_as_near_focus_goes_to_the_lesser_id() {
    let mut tiler = single_display();
    tiler.attach(A);
    tiler.attach(B);
    tiler.focus(B);
    tiler.attach(C);
    tiler.swap(B, C);
    let ids: Vec<WindowID> = tiler.windows().iter().map(|w| w.id).collect();
    assert_eq!(ids, vec![A, C, B]);
    assert_eq!(rect_of(&tiler, C), Rect::new(1281, 1, 1280, 720));
    assert_eq!(rect_of(&tiler, B), Rect::new(1281, 721, 1280, 720));
    tiler.focus(A);
    tiler.focus_right();
    assert_eq!(tiler.active_window(), Some(B));
}

#[test]
fn a_window_attached_into_a_stack_is_hidden() {
    let mut tiler = single_display();
    tiler.attach(A);
    tiler.stack_toggle();
    tiler.events();
    tiler.attach(B);
    let b = tiler.find(B).unwrap();
    assert!(!b.visible);
    assert_eq!(b.stack, Some(0));
    assert!(tiler.find(A).unwrap().visible);
    let events = tiler.events();
    assert!(events.contains(&Event::WindowVisibility(B, false)));
    assert!(events.contains(&Event::StackAssign(0, B)));
    tiler.detach(A);
    assert!(tiler.find(B).unwrap().visible);
    assert!(tiler.events().contains(&Event::WindowVisibility(B, true)));
}

#[test]
fn move_swaps_the_branches_of_a_shared_fork() {
    let mut tiler = single_display();
    tiler.attach(A);
    tiler.attach(B);
    tiler.events();
    tiler.move_right();
    assert_eq!(rect_of(&tiler, A), Rect::new(1281, 1, 1280, 1440));
    assert_eq!(rect_of(&tiler, B), Rect::new(1, 1, 1280, 1440));
    assert_eq!(places(&tiler.events()).len(), 2);
    tiler.move_right();
    assert_eq!(tiler.events(), vec![]);
    tiler.move_left_absolute();
    assert_eq!(rect_of(&tiler, A), Rect::new(1, 1, 1280, 1440));
}

#[test]
fn move_into_another_fork() {
    let mut tiler = single_display();
    tiler.attach(A);
    tiler.attach(B);
    tiler.focus(B);
    tiler.attach(C);
    tiler.focus(A);
    tiler.events();
    // A is alone on the left; B above C on the right. A moves beside B.
    tiler.move_right();
    assert_eq!(tiler.active_window(), Some(A));
    let ids: Vec<WindowID> = tiler.windows().iter().map(|w| w.id).collect();
    assert_eq!(ids, vec![B, A, C]);
    assert_eq!(rect_of(&tiler, B), Rect::new(1, 1, 1280, 720));
    assert_eq!(rect_of(&tiler, A), Rect::new(1281, 1, 1280, 720));
    assert_eq!(rect_of(&tiler, C), Rect::new(1, 721, 2560, 720));
}

#[test]
fn toggle_orientation_turns_the_fork_of_the_active_window() {
    let mut tiler = single_display();
    tiler.toggle_orientation();
    tiler.attach(A);
    tiler.attach(B);
    tiler.events();
    tiler.toggle_orientation();
    assert_eq!(rect_of(&tiler, A), Rect::new(1, 1, 2560, 720));
    assert_eq!(rect_of(&tiler, B), Rect::new(1, 721, 2560, 720));
    tiler.toggle_orientation();
    assert_eq!(rect_of(&tiler, B), Rect::new(1, 1, 1280, 1440));
    assert_eq!(rect_of(&tiler, A), Rect::new(1281, 1, 1280, 1440));
    let root = tiler.workspaces()[0].fork().unwrap();
    assert_eq!(root.orientation, Orientation::Horizontal);
}

#[test]
fn swap_exchanges_the_places() {
    let mut tiler = six_windows();
    tiler.events();
    let a = rect_of(&tiler, A);
    let f = rect_of(&tiler, F);
    tiler.swap(A, F);
    assert_eq!(rect_of(&tiler, A), f);
    assert_eq!(rect_of(&tiler, F), a);
    assert_eq!(tiler.active_window(), Some(F));
    let placed = places(&tiler.events());
    assert!(placed.contains(&(A, f)));
    assert!(placed.contains(&(F, a)));
}

#[test]
fn swap_with_itself_is_silent() {
    let mut tiler = six_windows();
    tiler.events();
    tiler.swap(C, C);
    assert_eq!(tiler.events(), vec![]);
}

#[test]
fn switch_to_the_workspace_on_view_is_silent() {
    let mut tiler = six_windows();
    tiler.events();
    tiler.workspace_switch(0);
    assert_eq!(tiler.events(), vec![]);
}

/// Leaves the tiler without an active window: attaches a window beside the active one,
/// gives it the focus and detaches it.
fn drop_focus(tiler: &mut Tiler) {
    let helper = WindowID(9, 9);
    tiler.attach(helper);
    tiler.focus(helper);
    tiler.detach(helper);
    assert_eq!(tiler.active_window(), None);
}

#[test]
fn workspace_switch_hides_non_members() {
    let mut tiler = single_display();
    tiler.workspace_update(1, 0);
    tiler.workspace_switch(1);
    tiler.attach(C);
    assert_eq!(tiler.find(C).unwrap().workspace, 1);
    drop_focus(&mut tiler);
    tiler.workspace_switch(0);
    assert_eq!(tiler.active_window(), None);
    tiler.attach(A);
    tiler.attach(B);
    assert!(tiler.windows().iter().all(|w| w.visible == (w.workspace == 0)));
    tiler.events();
    tiler.workspace_switch(1);
    assert_eq!(
        tiler.events(),
        vec![
            Event::WindowVisibility(A, false),
            Event::WindowVisibility(B, false),
            Event::WindowVisibility(C, true),
            Event::FocusWorkspace(1),
            Event::Focus(C),
        ]
    );
    assert!(tiler.windows().iter().all(|w| w.visible == (w.workspace == 1)));
    tiler.workspace_switch(0);
    assert_eq!(tiler.events()[3..], [Event::FocusWorkspace(0), Event::Focus(A)]);
}

#[test]
fn attach_goes_beside_the_active_window_on_any_workspace() {
    let mut tiler = single_display();
    tiler.workspace_update(1, 0);
    tiler.attach(A);
    tiler.workspace_switch(1);
    assert_eq!(tiler.active_window(), Some(A));
    tiler.events();
    tiler.attach(B);
    let b = tiler.find(B).unwrap();
    assert_eq!(b.workspace, 0);
    assert!(!b.visible);
    assert_eq!(b.rect, Rect::new(1281, 1, 1280, 1440));
    assert!(tiler.workspaces()[1].fork().is_none());
    assert_eq!(tiler.active_window(), Some(A));
    assert!(tiler.events().contains(&Event::WindowVisibility(B, false)));
    tiler.stack_toggle();
    tiler.attach(C);
    let c = tiler.find(C).unwrap();
    assert_eq!(c.workspace, 0);
    assert_eq!(c.stack, Some(0));
    assert!(!c.visible);
    assert!(!tiler.find(A).unwrap().visible);
}

#[test]
fn workspace_switch_shows_only_the_raised_member() {
    let mut tiler = single_display();
    tiler.workspace_update(1, 0);
    tiler.attach(A);
    tiler.stack_toggle();
    tiler.attach(B);
    tiler.workspace_switch(1);
    tiler.workspace_switch(0);
    assert!(tiler.find(A).unwrap().visible);
    assert!(!tiler.find(B).unwrap().visible);
}

#[test]
fn switch_makes_a_missing_workspace() {
    let mut tiler = single_display();
    tiler.workspace_switch(4);
    assert_eq!(tiler.events(), vec![Event::FocusWorkspace(4)]);
    assert_eq!(tiler.workspaces().len(), 2);
    assert_eq!(tiler.workspaces()[1].id(), 4);
    assert_eq!(tiler.workspaces()[1].area(), screen());
    tiler.attach(A);
    assert_eq!(tiler.find(A).unwrap().workspace, 4);
}

#[test]
fn focus_crosses_to_the_next_display() {
    let mut tiler = Tiler::default();
    tiler.display_update(0, Rect::new(1, 1, 1920, 1080));
    tiler.display_update(1, Rect::new(1921, 1, 1920, 1080));
    tiler.workspace_update(0, 0);
    tiler.workspace_update(1, 1);
    tiler.workspace_switch(1);
    tiler.attach(B);
    drop_focus(&mut tiler);
    tiler.workspace_switch(0);
    tiler.attach(A);
    tiler.attach(C);
    tiler.focus(C);
    assert_eq!(rect_of(&tiler, B), Rect::new(1921, 1, 1920, 1080));
    assert_eq!(rect_of(&tiler, C), Rect::new(961, 1, 960, 1080));
    tiler.events();
    tiler.focus_right();
    assert_eq!(tiler.active_window(), Some(B));
    assert_eq!(tiler.active_workspace(), 1);
    assert_eq!(
        tiler.events(),
        vec![
            Event::WindowVisibility(A, false),
            Event::WindowVisibility(B, true),
            Event::WindowVisibility(C, false),
            Event::FocusWorkspace(1),
            Event::Focus(B),
        ]
    );
    tiler.focus_right();
    assert_eq!(tiler.active_window(), Some(B));
    tiler.focus_display_left();
    assert_eq!(tiler.active_window(), Some(A));
    tiler.focus_display_above();
    tiler.focus_display_below();
    tiler.focus_display_left();
    assert_eq!(tiler.active_window(), Some(A));
    tiler.focus_display_right();
    assert_eq!(tiler.active_window(), Some(B));
}

#[test]
fn display_update_retiles_its_workspaces() {
    let mut tiler = single_display();
    tiler.attach(A);
    tiler.attach(B);
    tiler.events();
    tiler.display_update(0, Rect::new(1, 1, 1000, 500));
    assert_eq!(rect_of(&tiler, A), Rect::new(1, 1, 500, 500));
    assert_eq!(rect_of(&tiler, B), Rect::new(501, 1, 500, 500));
    assert_eq!(places(&tiler.events()).len(), 2);
    tiler.display_update(0, Rect::new(2, 0, u32::MAX, 10));
    assert_eq!(tiler.events(), vec![]);
    assert_eq!(tiler.displays()[0].area(), Rect::new(1, 1, 1000, 500));
}

#[test]
fn display_detach_migrates_the_workspaces() {
    let mut tiler = Tiler::default();
    tiler.display_update(0, Rect::new(1, 1, 1920, 1080));
    tiler.display_update(1, Rect::new(1921, 1, 1000, 1000));
    tiler.workspace_update(0, 0);
    tiler.workspace_update(1, 1);
    tiler.workspace_switch(1);
    tiler.attach(B);
    tiler.workspace_switch(0);
    tiler.events();
    tiler.display_detach(7);
    tiler.display_detach(0);
    assert_eq!(tiler.displays().len(), 2);
    assert_eq!(tiler.events(), vec![]);
    tiler.display_detach(1);
    assert_eq!(tiler.displays().len(), 1);
    assert_eq!(tiler.workspaces()[1].display, 0);
    assert_eq!(rect_of(&tiler, B), Rect::new(1, 1, 1920, 1080));
    assert_eq!(places(&tiler.events()), vec![(B, Rect::new(1, 1, 1920, 1080))]);
}

#[test]
fn workspace_update_moves_a_workspace() {
    let mut tiler = single_display();
    tiler.display_update(1, Rect::new(3000, 1, 800, 600));
    tiler.attach(A);
    tiler.events();
    tiler.workspace_update(0, 9);
    tiler.workspace_update(0, 0);
    assert_eq!(tiler.events(), vec![]);
    tiler.workspace_update(0, 1);
    assert_eq!(rect_of(&tiler, A), Rect::new(3000, 1, 800, 600));
    assert_eq!(tiler.workspaces()[0].display, 1);
    assert_eq!(tiler.displays()[0].active, Some(0));
    assert_eq!(tiler.displays()[1].active, None);
    tiler.workspace_update(5, 1);
    assert_eq!(tiler.displays()[1].active, Some(5));
}

#[test]
fn requests_are_answered_with_their_events() {
    let mut service = Service::default();
    assert_eq!(service.handle(Request::DisplayUpdate { display: 0, rect: screen() }), vec![]);
    assert_eq!(service.handle(Request::WorkspaceUpdate { workspace: 0, display: 0 }), vec![]);
    let events = service.handle(Request::Attach(A));
    assert_eq!(events.len(), 3);
    assert_eq!(events[2], Event::Focus(A));
    assert_eq!(service.handle(Request::Attach(B)).len(), 3);
    assert_eq!(service.handle(Request::Focus(B)), vec![Event::Focus(B)]);
    assert_eq!(service.handle(Request::FocusLeft), vec![Event::Focus(A)]);
    assert_eq!(service.handle(Request::FocusRight), vec![Event::Focus(B)]);
    assert_eq!(service.handle(Request::FocusAbove), vec![]);
    assert_eq!(service.handle(Request::FocusBelow), vec![]);
    assert_eq!(service.handle(Request::FocusDisplayAbove), vec![]);
    assert_eq!(service.handle(Request::FocusDisplayBelow), vec![]);
    assert_eq!(service.handle(Request::FocusDisplayLeft), vec![]);
    assert_eq!(service.handle(Request::FocusDisplayRight), vec![]);
    assert_eq!(service.handle(Request::MoveAbove), vec![]);
    assert_eq!(service.handle(Request::MoveBelow), vec![]);
    assert_eq!(service.handle(Request::MoveRight), vec![]);
    assert_eq!(service.handle(Request::MoveLeft).len(), 3);
    assert_eq!(service.handle(Request::ToggleOrientation).len(), 3);
    assert_eq!(service.handle(Request::Resize(0, 100)).len(), 3);
    assert_eq!(service.handle(Request::Swap(A, B)).len(), 3);
    assert_eq!(service.handle(Request::ToggleStack).len(), 2);
    assert_eq!(service.handle(Request::WorkspaceSwitch(0)), vec![]);
    assert_eq!(service.handle(Request::Detach(A)).len(), 3);
    assert_eq!(service.handle(Request::DisplayDetach(3)), vec![]);
    assert_eq!(service.tiler.windows().len(), 1);
}
