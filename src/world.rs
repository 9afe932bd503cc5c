use vstd::prelude::*;
use crate::geometry::{
    aabb_overlap_rect, boxes_overlap, cursor_collision, maps_in_range, point_in_box,
    relative_cursor_position, world_point, Vec2,
};

verus! {

/// Interaction state of a draggable item.
#[derive(Clone, Copy, Debug, PartialEq, Eq, Structural)]
pub enum InteractionState {
    Idle,
    Hovered,
    Dragging,
}

/// A draggable item with a fixed home container.
#[derive(Clone, Copy, Debug, PartialEq, Eq, Structural)]
pub struct Item {
    pub item_id: u64,
    pub container_id: u64,
    pub position: Vec2,
    pub size: i64,
    pub state: InteractionState,
}

/// A drop target that accepts its items only in the order of `sequence`.
#[derive(Debug)]
pub struct Container {
    pub container_id: u64,
    pub position: Vec2,
    pub size: i64,
    pub sequence: Vec<u64>,
}

pub struct ContainerModel {
    pub container_id: u64,
    pub position: Vec2,
    pub size: i64,
    pub sequence: Seq<u64>,
}

impl View for Container {
    type V = ContainerModel;

    open spec fn view(&self) -> ContainerModel {
        ContainerModel {
            container_id: self.container_id,
            position: self.position,
            size: self.size,
            sequence: self.sequence@,
        }
    }
}

/// What the pointer did this tick, as the environment reports it.
#[derive(Clone, Copy, Debug)]
pub struct PointerInput {
    /// Viewport position of the pointer; `None` when it is off the viewport.
    pub cursor: Option<Vec2>,
    pub viewport_width: u32,
    pub viewport_height: u32,
    pub just_pressed: bool,
    pub held: bool,
}

/// The observable outcome of a drop over a container.
#[derive(Clone, Copy, Debug, PartialEq, Eq, Structural)]
pub enum DropEvent {
    WrongContainer { item_id: u64, container_id: u64 },
    WrongOrder { item_id: u64, expected_next: u64, got: u64 },
    Inserted { item_id: u64, container_id: u64 },
}

/// The arena of items and containers. An item's handle is its slot index;
/// an inserted item leaves its slot empty.
pub struct World {
    pub items: Vec<Option<Item>>,
    pub containers: Vec<Container>,
}

pub struct WorldModel {
    pub items: Seq<Option<Item>>,
    pub containers: Seq<ContainerModel>,
}

impl View for World {
    type V = WorldModel;

    open spec fn view(&self) -> WorldModel {
        WorldModel { items: self.items@, containers: self.containers@.map_values(|c: Container| c@) }
    }
}

pub open spec fn square(s: i64) -> Vec2 {
    Vec2 { x: s, y: s }
}

pub open spec fn origin() -> Vec2 {
    Vec2 { x: 0, y: 0 }
}

/// The cursor is over the slot's item.
pub open spec fn slot_hit(slot: Option<Item>, cursor: Vec2) -> bool {
    match slot {
        Some(it) => point_in_box(cursor, it.position, square(it.size)),
        None => false,
    }
}

/// Slot `i` holds the first item, in slot order, that the cursor is over.
pub open spec fn first_hit(items: Seq<Option<Item>>, cursor: Vec2, i: int) -> bool {
    slot_hit(items[i], cursor) && forall|j: int| 0 <= j < i ==> !#[trigger] slot_hit(items[j], cursor)
}

/// One transition of the state machine.
pub open spec fn next_state(
    state: InteractionState,
    hit: bool,
    starts_drag: bool,
    held: bool,
) -> InteractionState {
    if starts_drag {
        InteractionState::Dragging
    } else if hit && !held {
        InteractionState::Hovered
    } else if !hit && !held {
        InteractionState::Idle
    } else {
        state
    }
}

/// Slot `i` after the state machine ran: only the first hit item may start
/// a drag, and only on a fresh press.
pub open spec fn grab_slot(
    items: Seq<Option<Item>>,
    cursor: Vec2,
    just_pressed: bool,
    held: bool,
    i: int,
) -> Option<Item> {
    match items[i] {
        Some(it) => Some(
            Item {
                state: next_state(
                    it.state,
                    slot_hit(items[i], cursor),
                    just_pressed && first_hit(items, cursor, i),
                    held,
                ),
                ..it
            },
        ),
        None => None,
    }
}

pub open spec fn grab_model(w: WorldModel, cursor: Vec2, just_pressed: bool, held: bool) -> WorldModel {
    WorldModel {
        items: Seq::new(w.items.len(), |i: int| grab_slot(w.items, cursor, just_pressed, held, i)),
        containers: w.containers,
    }
}

/// A dragged item sits under the cursor; every other slot is unchanged.
pub open spec fn drag_slot(slot: Option<Item>, cursor: Vec2) -> Option<Item> {
    match slot {
        Some(it) => if it.state == InteractionState::Dragging {
            Some(Item { position: cursor, ..it })
        } else {
            slot
        },
        None => None,
    }
}

pub open spec fn drag_model(w: WorldModel, cursor: Vec2) -> WorldModel {
    WorldModel {
        items: Seq::new(w.items.len(), |i: int| drag_slot(w.items[i], cursor)),
        containers: w.containers,
    }
}

pub open spec fn item_over(it: Item, c: ContainerModel) -> bool {
    boxes_overlap(it.position, square(it.size), c.position, square(c.size))
}

/// Index of the first container, from `k` on, that the item overlaps.
pub open spec fn first_overlap_from(it: Item, cs: Seq<ContainerModel>, k: int) -> Option<int>
    decreases cs.len() - k,
{
    if k < 0 || k >= cs.len() {
        None
    } else if item_over(it, cs[k]) {
        Some(k)
    } else {
        first_overlap_from(it, cs, k + 1)
    }
}

pub open spec fn reset_slot(w: WorldModel, i: int, it: Item) -> WorldModel {
    WorldModel { items: w.items.update(i, Some(Item { position: origin(), ..it })), containers: w.containers }
}

/// The drop rule for slot `i`: a live item that is not being dragged is
/// judged by the first container it overlaps.
pub open spec fn drop_step(w: WorldModel, i: int) -> (WorldModel, Option<DropEvent>) {
    match w.items[i] {
        None => (w, None),
        Some(it) => if it.state == InteractionState::Dragging {
            (w, None)
        } else {
            match first_overlap_from(it, w.containers, 0) {
                None => (w, None),
                Some(k) => {
                    let c = w.containers[k];
                    if c.container_id != it.container_id {
                        (
                            reset_slot(w, i, it),
                            Some(
                                DropEvent::WrongContainer {
                                    item_id: it.item_id,
                                    container_id: c.container_id,
                                },
                            ),
                        )
                    } else if c.sequence.len() == 0 {
                        (w, None)
                    } else if c.sequence[0] == it.item_id {
                        (
                            WorldModel {
                                items: w.items.update(i, None),
                                containers: w.containers.update(
                                    k,
                                    ContainerModel { sequence: c.sequence.drop_first(), ..c },
                                ),
                            },
                            Some(
                                DropEvent::Inserted {
                                    item_id: it.item_id,
                                    container_id: c.container_id,
                                },
                            ),
                        )
                    } else {
                        (
                            reset_slot(w, i, it),
                            Some(
                                DropEvent::WrongOrder {
                                    item_id: it.item_id,
                                    expected_next: c.sequence[0],
                                    got: it.item_id,
                                },
                            ),
                        )
                    }
                },
            }
        },
    }
}

/// The drop rule applied to slots `0..n` in order, with the events it gave.
pub open spec fn drop_all(w: WorldModel, n: nat) -> (WorldModel, Seq<DropEvent>)
    decreases n,
{
    if n == 0 {
        (w, Seq::empty())
    } else {
        let (w1, evs) = drop_all(w, (n - 1) as nat);
        let (w2, e) = drop_step(w1, n - 1);
        (
            w2,
            match e {
                Some(ev) => evs.push(ev),
                None => evs,
            },
        )
    }
}

/// The cursor in world space for this tick, if the pointer is on the viewport.
pub open spec fn tick_cursor(input: PointerInput) -> Option<Vec2> {
    match input.cursor {
        Some(raw) => Some(world_point(raw, input.viewport_width, input.viewport_height)),
        None => None,
    }
}

/// The world after the state machine and the drag driver ran; with the
/// pointer off the viewport both leave it as it was.
pub open spec fn pointer_phase(w: WorldModel, input: PointerInput) -> WorldModel {
    match tick_cursor(input) {
        Some(c) => drag_model(grab_model(w, c, input.just_pressed, input.held), c),
        None => w,
    }
}

/// One whole tick: state machine, drag driver, then insertion validator.
pub open spec fn tick_model(w: WorldModel, input: PointerInput) -> (WorldModel, Seq<DropEvent>) {
    drop_all(pointer_phase(w, input), w.items.len())
}

/// The viewport position, if any, maps into the coordinate range.
pub open spec fn input_in_range(input: PointerInput) -> bool {
    input.cursor matches Some(raw) ==> maps_in_range(raw, input.viewport_width, input.viewport_height)
}

impl World {
    pub fn new(items: Vec<Option<Item>>, containers: Vec<Container>) -> (r: World)
        ensures
            r.items@ == items@,
            r.containers@ == containers@,
    {
        World { items, containers }
    }

    /// The interaction state machine for one tick, with the cursor already in
    /// world space. Every item is updated for hover and idle; of the items
    /// under the cursor, the one in the lowest slot starts a drag on a fresh
    /// press.
    pub fn grab(&mut self, cursor: Vec2, just_pressed: bool, held: bool)
        ensures
            final(self)@ == grab_model(old(self)@, cursor, just_pressed, held),
    {
        let ghost old_items = self.items@;
        let n: usize = self.items.len();
        let mut started: bool = false;
        let mut i: usize = 0;
        while i < n
            invariant
                n == old_items.len(),
                self.items@.len() == n,
                self.containers == old(self).containers,
                old_items == old(self).items@,
                0 <= i <= n,
                forall|j: int| 0 <= j < i ==> self.items@[j] == grab_slot(old_items, cursor, just_pressed, held, j),
                forall|j: int| i <= j < n ==> self.items@[j] == old_items[j],
                started == exists|j: int| 0 <= j < i && #[trigger] slot_hit(old_items[j], cursor),
            decreases n - i,
        {
            let slot = self.items[i];
            match slot {
                Some(it) => {
                    let hit = cursor_collision(cursor, it.position, Vec2::splat(it.size));
                    let starts = just_pressed && hit && !started;
                    let state = if starts {
                        InteractionState::Dragging
                    } else if hit && !held {
                        InteractionState::Hovered
                    } else if !hit && !held {
                        InteractionState::Idle
                    } else {
                        it.state
                    };
                    self.items[i] = Some(Item { state, ..it });
                    if hit {
                        started = true;
                    }
                },
                None => {},
            }
            i += 1;
        }
        proof {
            assert(self@.items =~= grab_model(old(self)@, cursor, just_pressed, held).items);
        }
    }

    /// The drag driver: every dragged item moves to the cursor.
    pub fn move_grabbed(&mut self, cursor: Vec2)
        ensures
            final(self)@ == drag_model(old(self)@, cursor),
    {
        let ghost old_items = self.items@;
        let n: usize = self.items.len();
        let mut i: usize = 0;
        while i < n
            invariant
                n == old_items.len(),
                self.items@.len() == n,
                self.containers == old(self).containers,
                old_items == old(self).items@,
                0 <= i <= n,
                forall|j: int| 0 <= j < i ==> self.items@[j] == drag_slot(old_items[j], cursor),
                forall|j: int| i <= j < n ==> self.items@[j] == old_items[j],
            decreases n - i,
        {
            let slot = self.items[i];
            match slot {
                Some(it) => {
                    if it.state == InteractionState::Dragging {
                        self.items[i] = Some(Item { position: cursor, ..it });
                    }
                },
                None => {},
            }
            i += 1;
        }
        proof {
            assert(self@.items =~= drag_model(old(self)@, cursor).items);
        }
    }

    /// Index of the first container that the item overlaps.
    fn first_overlap(&self, it: &Item) -> (r: Option<usize>)
        ensures
            first_overlap_from(*it, self@.containers, 0) == match r {
                Some(k) => Some(k as int),
                None => None::<int>,
            },
            r matches Some(k) ==> k < self.containers@.len(),
    {
        let n: usize = self.containers.len();
        let mut k: usize = 0;
        while k < n
            invariant
                n == self.containers@.len(),
                0 <= k <= n,
                first_overlap_from(*it, self@.containers, 0) == first_overlap_from(*it, self@.containers, k as int),
            decreases n - k,
        {
            let c = &self.containers[k];
            if aabb_overlap_rect(it.position, Vec2::splat(it.size), c.position, Vec2::splat(c.size)) {
                return Some(k);
            }
            k += 1;
        }
        None
    }

    /// Applies the drop rule to the item in slot `i`.
    pub fn drop_item(&mut self, i: usize) -> (r: Option<DropEvent>)
        requires
            i < old(self).items@.len(),
        ensures
            (final(self)@, r) == drop_step(old(self)@, i as int),
            final(self).items@.len() == old(self).items@.len(),
    {
        let slot = self.items[i];
        match slot {
            None => None,
            Some(it) => {
                if it.state == InteractionState::Dragging {
                    return None;
                }
                match self.first_overlap(&it) {
                    None => None,
                    Some(k) => {
                        let cid = self.containers[k].container_id;
                        if cid != it.container_id {
                            self.items[i] = Some(Item { position: Vec2::new(0, 0), ..it });
                            proof {
                                assert(self@.items =~= drop_step(old(self)@, i as int).0.items);
                            }
                            Some(DropEvent::WrongContainer { item_id: it.item_id, container_id: cid })
                        } else if self.containers[k].sequence.len() == 0 {
                            None
                        } else {
                            let next = self.containers[k].sequence[0];
                            if next == it.item_id {
                                self.containers[k].sequence.remove(0);
                                self.items[i] = None;
                                proof {
                                    assert(self@.items =~= drop_step(old(self)@, i as int).0.items);
                                    assert(self@.containers =~= drop_step(old(self)@, i as int).0.containers);
                                }
                                Some(DropEvent::Inserted { item_id: it.item_id, container_id: cid })
                            } else {
                                self.items[i] = Some(Item { position: Vec2::new(0, 0), ..it });
                                proof {
                                    assert(self@.items =~= drop_step(old(self)@, i as int).0.items);
                                }
                                Some(DropEvent::WrongOrder { item_id: it.item_id, expected_next: next, got: it.item_id })
                            }
                        }
                    },
                }
            },
        }
    }

    /// The container insertion validator: the drop rule for every slot, in
    /// slot order, with the events in that order.
    pub fn insert_dropped(&mut self) -> (events: Vec<DropEvent>)
        ensures
            (final(self)@, events@) == drop_all(old(self)@, old(self)@.items.len()),
    {
        let mut events: Vec<DropEvent> = Vec::new();
        let n: usize = self.items.len();
        let mut i: usize = 0;
        while i < n
            invariant
                n == old(self)@.items.len(),
                self.items@.len() == n,
                0 <= i <= n,
                (self@, events@) == drop_all(old(self)@, i as nat),
            decreases n - i,
        {
            let ev = self.drop_item(i);
            match ev {
                Some(e) => events.push(e),
                None => {},
            }
            i += 1;
        }
        events
    }

    /// Advances the world by one tick and reports the drop events.
    pub fn tick(&mut self, input: &PointerInput) -> (events: Vec<DropEvent>)
        requires
            input_in_range(*input),
        ensures
            (final(self)@, events@) == tick_model(old(self)@, *input),
    {
        match input.cursor {
            Some(raw) => {
                let cursor = relative_cursor_position(raw, input.viewport_width, input.viewport_height);
                self.grab(cursor, input.just_pressed, input.held);
                self.move_grabbed(cursor);
            },
            None => {},
        }
        self.insert_dropped()
    }
}

} // verus!
