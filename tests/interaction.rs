use game::{
    aabb_overlap_rect, cursor_collision, relative_cursor_position, within, Container, DropEvent,
    InteractionState, Item, PointerInput, Vec2, World,
};

fn item(item_id: u64, container_id: u64, x: i64, y: i64, state: InteractionState) -> Item {
    Item { item_id, container_id, position: Vec2::new(x, y), size: 100, state }
}

fn container(container_id: u64, x: i64, y: i64, sequence: Vec<u64>) -> Container {
    Container { container_id, position: Vec2::new(x, y), size: 100, sequence }
}

fn no_pointer() -> PointerInput {
    PointerInput { cursor: None, viewport_width: 800, viewport_height: 600, just_pressed: false, held: false }
}

fn pointer(x: i64, y: i64, just_pressed: bool, held: bool) -> PointerInput {
    PointerInput { cursor: Some(Vec2::new(x, y)), viewport_width: 800, viewport_height: 600, just_pressed, held }
}

#[test]
fn within_closed_interval() {
    assert!(within(50, 0, 100));
    assert!(within(-50, 0, 100));
    assert!(within(0, 0, 100));
    assert!(!within(51, 0, 100));
    assert!(!within(-51, 0, 100));
    assert!(within(250, 200, 100));
    assert!(!within(251, 200, 100));
}

#[test]
fn within_odd_size_is_exact() {
    // [-1.5, 1.5]
    assert!(within(1, 0, 3));
    assert!(within(-1, 0, 3));
    assert!(!within(2, 0, 3));
    assert!(!within(-2, 0, 3));
    assert!(!within(0, 0, -1));
}

#[test]
fn within_extreme_values() {
    assert!(within(i64::MAX, i64::MAX, 0));
    assert!(!within(i64::MIN, i64::MAX, 100));
    assert!(within(i64::MIN, i64::MIN, 0));
    assert!(!within(i64::MIN, 0, i64::MAX));
}

#[test]
fn cursor_collision_needs_both_axes() {
    let c = Vec2::new(0, 200);
    let s = Vec2::splat(100);
    assert!(cursor_collision(Vec2::new(50, 250), c, s));
    assert!(!cursor_collision(Vec2::new(50, 251), c, s));
    assert!(!cursor_collision(Vec2::new(51, 200), c, s));
    assert!(cursor_collision(Vec2::new(-50, 150), c, s));
}

#[test]
fn rect_overlap_touching_counts() {
    let s = Vec2::splat(100);
    assert!(aabb_overlap_rect(Vec2::new(0, 0), s, Vec2::new(100, 0), s));
    assert!(!aabb_overlap_rect(Vec2::new(0, 0), s, Vec2::new(101, 0), s));
    assert!(aabb_overlap_rect(Vec2::new(0, 0), s, Vec2::new(100, -100), s));
    assert!(!aabb_overlap_rect(Vec2::new(0, 0), s, Vec2::new(0, 101), s));
    assert!(aabb_overlap_rect(Vec2::new(0, 0), Vec2::new(10, 10), Vec2::new(0, 200), Vec2::new(10, 390)));
}

#[test]
fn rect_overlap_is_symmetric() {
    let cases = [
        (Vec2::new(0, 0), Vec2::new(100, 40), Vec2::new(70, 10), Vec2::new(40, 100)),
        (Vec2::new(-5, 3), Vec2::new(1, 1), Vec2::new(300, 3), Vec2::new(5, 5)),
        (Vec2::new(0, 0), Vec2::splat(100), Vec2::new(0, 200), Vec2::splat(100)),
        (Vec2::new(0, 150), Vec2::splat(100), Vec2::new(0, 200), Vec2::splat(100)),
    ];
    for (a, sa, b, sb) in cases {
        assert_eq!(aabb_overlap_rect(a, sa, b, sb), aabb_overlap_rect(b, sb, a, sa));
    }
}

#[test]
fn viewport_center_maps_to_origin() {
    assert_eq!(relative_cursor_position(Vec2::new(400, 300), 800, 600), Vec2::new(0, 0));
    assert_eq!(relative_cursor_position(Vec2::new(0, 0), 800, 600), Vec2::new(-400, -300));
    assert_eq!(relative_cursor_position(Vec2::new(800, 600), 800, 600), Vec2::new(400, 300));
    assert_eq!(relative_cursor_position(Vec2::new(0, 0), 801, 3), Vec2::new(-400, -1));
}

#[test]
fn mapping_twice_gives_the_same_point() {
    let a = relative_cursor_position(Vec2::new(123, -45), 1024, 768);
    let b = relative_cursor_position(Vec2::new(123, -45), 1024, 768);
    assert_eq!(a, b);
    assert_eq!(a, Vec2::new(-389, -429));
}

#[test]
fn press_on_centered_item_starts_drag() {
    let mut w = World::new(vec![Some(item(0, 0, 0, 0, InteractionState::Idle))], vec![]);
    let events = w.tick(&pointer(400, 300, true, true));
    assert!(events.is_empty());
    let it = w.items[0].unwrap();
    assert_eq!(it.state, InteractionState::Dragging);
    assert_eq!(it.position, Vec2::new(0, 0));
}

#[test]
fn hover_then_leave() {
    let mut w = World::new(vec![Some(item(0, 0, 0, 0, InteractionState::Idle))], vec![]);
    w.tick(&pointer(420, 310, false, false));
    assert_eq!(w.items[0].unwrap().state, InteractionState::Hovered);
    w.tick(&pointer(700, 310, false, false));
    assert_eq!(w.items[0].unwrap().state, InteractionState::Idle);
}

#[test]
fn off_viewport_changes_nothing() {
    let mut w = World::new(vec![Some(item(0, 0, 0, 0, InteractionState::Hovered))], vec![]);
    let events = w.tick(&no_pointer());
    assert!(events.is_empty());
    assert_eq!(w.items[0], Some(item(0, 0, 0, 0, InteractionState::Hovered)));
}

#[test]
fn only_lowest_slot_starts_drag() {
    let mut w = World::new(
        vec![
            Some(item(0, 0, 10, 0, InteractionState::Idle)),
            Some(item(1, 0, -10, 0, InteractionState::Idle)),
        ],
        vec![],
    );
    w.grab(Vec2::new(0, 0), true, true);
    assert_eq!(w.items[0].unwrap().state, InteractionState::Dragging);
    assert_eq!(w.items[1].unwrap().state, InteractionState::Idle);
}

#[test]
fn quick_click_still_updates_other_items() {
    let mut w = World::new(
        vec![
            Some(item(0, 0, 0, 0, InteractionState::Idle)),
            Some(item(1, 0, 10, 0, InteractionState::Idle)),
            Some(item(2, 0, 500, 0, InteractionState::Hovered)),
        ],
        vec![],
    );
    w.grab(Vec2::new(0, 0), true, false);
    assert_eq!(w.items[0].unwrap().state, InteractionState::Dragging);
    assert_eq!(w.items[1].unwrap().state, InteractionState::Hovered);
    assert_eq!(w.items[2].unwrap().state, InteractionState::Idle);
}

#[test]
fn held_button_keeps_states() {
    let mut w = World::new(
        vec![
            Some(item(0, 0, 0, 0, InteractionState::Hovered)),
            Some(item(1, 0, 500, 0, InteractionState::Hovered)),
        ],
        vec![],
    );
    w.grab(Vec2::new(0, 0), false, true);
    assert_eq!(w.items[0].unwrap().state, InteractionState::Hovered);
    assert_eq!(w.items[1].unwrap().state, InteractionState::Hovered);
}

#[test]
fn dragged_item_follows_cursor() {
    let mut w = World::new(
        vec![
            Some(item(0, 0, -300, 250, InteractionState::Dragging)),
            Some(item(1, 0, 5, 5, InteractionState::Idle)),
        ],
        vec![container(0, 0, 200, vec![0, 1])],
    );
    let events = w.tick(&pointer(100, 50, false, true));
    assert!(events.is_empty());
    let it = w.items[0].unwrap();
    assert_eq!(it.position, Vec2::new(-300, -250));
    assert_eq!(it.state, InteractionState::Dragging);
    assert_eq!(w.items[1].unwrap().position, Vec2::new(5, 5));
}

#[test]
fn move_grabbed_only_moves_dragged() {
    let mut w = World::new(
        vec![Some(item(0, 0, 1, 2, InteractionState::Dragging)), None, Some(item(2, 0, 3, 4, InteractionState::Hovered))],
        vec![],
    );
    w.move_grabbed(Vec2::new(-7, 9));
    assert_eq!(w.items[0].unwrap().position, Vec2::new(-7, 9));
    assert_eq!(w.items[1], None);
    assert_eq!(w.items[2].unwrap().position, Vec2::new(3, 4));
}

#[test]
fn out_of_order_drop_is_rejected() {
    let mut w = World::new(
        vec![Some(item(1, 0, 0, 200, InteractionState::Idle))],
        vec![container(0, 0, 200, vec![0, 1, 2])],
    );
    let events = w.insert_dropped();
    assert_eq!(events, vec![DropEvent::WrongOrder { item_id: 1, expected_next: 0, got: 1 }]);
    assert_eq!(w.containers[0].sequence, vec![0, 1, 2]);
    let it = w.items[0].unwrap();
    assert_eq!(it.position, Vec2::new(0, 0));
    assert_eq!(it.state, InteractionState::Idle);
}

#[test]
fn in_order_drop_is_accepted() {
    let mut w = World::new(
        vec![Some(item(0, 0, 0, 200, InteractionState::Hovered))],
        vec![container(0, 0, 200, vec![0, 1, 2])],
    );
    let events = w.insert_dropped();
    assert_eq!(events, vec![DropEvent::Inserted { item_id: 0, container_id: 0 }]);
    assert_eq!(w.containers[0].sequence, vec![1, 2]);
    assert_eq!(w.items[0], None);
}

#[test]
fn whole_sequence_in_order_empties_container() {
    let mut w = World::new(
        vec![
            Some(item(0, 0, -300, 0, InteractionState::Idle)),
            Some(item(1, 0, -150, 0, InteractionState::Idle)),
            Some(item(2, 0, 300, -200, InteractionState::Idle)),
        ],
        vec![container(0, 0, 200, vec![0, 1, 2])],
    );
    for slot in 0..3usize {
        let it = w.items[slot].unwrap();
        w.items[slot] = Some(Item { position: Vec2::new(30, 190), ..it });
        let ev = w.drop_item(slot);
        assert_eq!(ev, Some(DropEvent::Inserted { item_id: slot as u64, container_id: 0 }));
    }
    assert!(w.containers[0].sequence.is_empty());
    assert!(w.items.iter().all(|s| s.is_none()));
}

#[test]
fn second_before_first_keeps_both() {
    let mut w = World::new(
        vec![
            Some(item(0, 0, -300, 0, InteractionState::Idle)),
            Some(item(1, 0, 0, 160, InteractionState::Idle)),
        ],
        vec![container(0, 0, 200, vec![0, 1])],
    );
    let events = w.insert_dropped();
    assert_eq!(events, vec![DropEvent::WrongOrder { item_id: 1, expected_next: 0, got: 1 }]);
    assert_eq!(w.items[0], Some(item(0, 0, -300, 0, InteractionState::Idle)));
    assert_eq!(w.items[1], Some(item(1, 0, 0, 0, InteractionState::Idle)));
    assert_eq!(w.containers[0].sequence, vec![0, 1]);
}

#[test]
fn same_tick_drops_follow_slot_order() {
    let mut w = World::new(
        vec![
            Some(item(0, 0, 0, 200, InteractionState::Idle)),
            Some(item(1, 0, 10, 210, InteractionState::Idle)),
        ],
        vec![container(0, 0, 200, vec![0, 1, 2])],
    );
    let events = w.tick(&no_pointer());
    assert_eq!(
        events,
        vec![
            DropEvent::Inserted { item_id: 0, container_id: 0 },
            DropEvent::Inserted { item_id: 1, container_id: 0 },
        ]
    );
    assert_eq!(w.containers[0].sequence, vec![2]);
}

#[test]
fn wrong_container_drop_is_rejected() {
    let mut w = World::new(
        vec![Some(item(0, 0, 400, 200, InteractionState::Idle))],
        vec![container(0, 0, 200, vec![0]), container(1, 400, 200, vec![5, 6])],
    );
    let events = w.insert_dropped();
    assert_eq!(events, vec![DropEvent::WrongContainer { item_id: 0, container_id: 1 }]);
    assert_eq!(w.containers[0].sequence, vec![0]);
    assert_eq!(w.containers[1].sequence, vec![5, 6]);
    assert_eq!(w.items[0].unwrap().position, Vec2::new(0, 0));
}

#[test]
fn empty_sequence_is_a_no_op() {
    let mut w = World::new(
        vec![Some(item(3, 0, 0, 200, InteractionState::Idle))],
        vec![container(0, 0, 200, vec![])],
    );
    let events = w.insert_dropped();
    assert!(events.is_empty());
    assert_eq!(w.items[0], Some(item(3, 0, 0, 200, InteractionState::Idle)));
}

#[test]
fn dragged_item_is_not_inserted() {
    let mut w = World::new(
        vec![Some(item(0, 0, 0, 200, InteractionState::Dragging))],
        vec![container(0, 0, 200, vec![0])],
    );
    let events = w.insert_dropped();
    assert!(events.is_empty());
    assert_eq!(w.containers[0].sequence, vec![0]);
    assert!(w.items[0].is_some());
}

#[test]
fn first_overlapping_container_decides() {
    let mut w = World::new(
        vec![Some(item(0, 0, 50, 200, InteractionState::Idle))],
        vec![container(1, 0, 200, vec![0]), container(0, 100, 200, vec![0])],
    );
    let events = w.insert_dropped();
    assert_eq!(events, vec![DropEvent::WrongContainer { item_id: 0, container_id: 1 }]);
    assert_eq!(w.containers[1].sequence, vec![0]);
}

#[test]
fn release_over_container_inserts() {
    let mut w = World::new(
        vec![Some(item(0, 0, 0, 0, InteractionState::Idle))],
        vec![container(0, 0, 200, vec![0, 1])],
    );
    w.tick(&pointer(400, 300, true, true));
    let events = w.tick(&pointer(400, 500, false, true));
    assert!(events.is_empty());
    assert_eq!(w.items[0].unwrap().position, Vec2::new(0, 200));
    let events = w.tick(&pointer(400, 500, false, false));
    assert_eq!(events, vec![DropEvent::Inserted { item_id: 0, container_id: 0 }]);
    assert_eq!(w.items[0], None);
    assert_eq!(w.containers[0].sequence, vec![1]);
}
