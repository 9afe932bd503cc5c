use vstd::prelude::*;
use crate::world::{
    drag_slot, drop_all, drop_step, first_overlap_from, grab_model, grab_slot, item_over, origin,
    pointer_phase, tick_cursor, tick_model, ContainerModel, InteractionState, Item, PointerInput,
    WorldModel,
};

verus! {

/// Items dropped one after another, in the order of `slots`.
pub open spec fn drop_slots(w: WorldModel, slots: Seq<int>) -> WorldModel
    decreases slots.len(),
{
    if slots.len() == 0 {
        w
    } else {
        drop_slots(drop_step(w, slots[0]).0, slots.drop_first())
    }
}

/// Which container an item lands on depends only on where the containers
/// are and how large they are.
proof fn lemma_first_overlap_frame(it: Item, cs1: Seq<ContainerModel>, cs2: Seq<ContainerModel>, k: int)
    requires
        cs1.len() == cs2.len(),
        forall|m: int|
            0 <= m < cs1.len() ==> #[trigger] cs1[m].position == cs2[m].position && cs1[m].size
                == cs2[m].size,
    ensures
        first_overlap_from(it, cs1, k) == first_overlap_from(it, cs2, k),
    decreases cs1.len() - k,
{
    if 0 <= k < cs1.len() {
        assert(item_over(it, cs1[k]) == item_over(it, cs2[k]));
        lemma_first_overlap_frame(it, cs1, cs2, k + 1);
    }
}

proof fn lemma_first_overlap_bounds(it: Item, cs: Seq<ContainerModel>, k: int)
    ensures
        first_overlap_from(it, cs, k) matches Some(m) ==> k <= m < cs.len(),
    decreases cs.len() - k,
{
    if 0 <= k < cs.len() {
        lemma_first_overlap_bounds(it, cs, k + 1);
    }
}

/// A drop touches only its own slot, and never moves, resizes or renames a
/// container.
proof fn lemma_drop_step_frame(w: WorldModel, i: int)
    requires
        0 <= i < w.items.len(),
    ensures
        drop_step(w, i).0.items.len() == w.items.len(),
        drop_step(w, i).0.containers.len() == w.containers.len(),
        forall|m: int| 0 <= m < w.items.len() && m != i ==> #[trigger] drop_step(w, i).0.items[m] == w.items[m],
        forall|m: int|
            0 <= m < w.containers.len() ==> {
                &&& #[trigger] drop_step(w, i).0.containers[m].position == w.containers[m].position
                &&& drop_step(w, i).0.containers[m].size == w.containers[m].size
                &&& drop_step(w, i).0.containers[m].container_id == w.containers[m].container_id
            },
{
    if let Some(it) = w.items[i] {
        lemma_first_overlap_bounds(it, w.containers, 0);
    }
}

/// Dropping an item on a container other than its own leaves every
/// container's sequence as it was and sends the item back to the origin.
pub proof fn lemma_wrong_container_rejected(w: WorldModel, i: int, it: Item, k: int)
    requires
        0 <= i < w.items.len(),
        w.items[i] == Some(it),
        it.state != InteractionState::Dragging,
        first_overlap_from(it, w.containers, 0) == Some(k),
        w.containers[k].container_id != it.container_id,
    ensures
        drop_step(w, i).0.containers == w.containers,
        drop_step(w, i).0.items[i] == Some(Item { position: origin(), ..it }),
{
}

/// Dropping an item on its own container while another item is next in the
/// sequence leaves the sequence as it was, keeps the item live at the
/// origin, and touches no other item.
pub proof fn lemma_out_of_order_rejected(w: WorldModel, i: int, it: Item, k: int)
    requires
        0 <= i < w.items.len(),
        w.items[i] == Some(it),
        it.state != InteractionState::Dragging,
        first_overlap_from(it, w.containers, 0) == Some(k),
        w.containers[k].container_id == it.container_id,
        w.containers[k].sequence.len() > 0,
        w.containers[k].sequence[0] != it.item_id,
    ensures
        drop_step(w, i).0.containers == w.containers,
        drop_step(w, i).0.items[i] == Some(Item { position: origin(), ..it }),
        forall|m: int| 0 <= m < w.items.len() && m != i ==> #[trigger] drop_step(w, i).0.items[m] == w.items[m],
{
}

/// Dropping on a container the items named by the front of its sequence,
/// in that order, removes each of them and consumes exactly that front of
/// the sequence; dropping the whole sequence empties it.
pub proof fn lemma_in_order_consumed(w: WorldModel, k: int, slots: Seq<int>)
    requires
        0 <= k < w.containers.len(),
        slots.len() <= w.containers[k].sequence.len(),
        forall|a: int, b: int| 0 <= a < b < slots.len() ==> slots[a] != slots[b],
        forall|j: int|
            0 <= j < slots.len() ==> {
                &&& 0 <= #[trigger] slots[j] < w.items.len()
                &&& w.items[slots[j]] matches Some(it)
                &&& it.item_id == w.containers[k].sequence[j]
                &&& it.container_id == w.containers[k].container_id
                &&& it.state != InteractionState::Dragging
                &&& first_overlap_from(it, w.containers, 0) == Some(k)
            },
    ensures
        drop_slots(w, slots).containers[k].sequence == w.containers[k].sequence.subrange(
            slots.len() as int,
            w.containers[k].sequence.len() as int,
        ),
        forall|j: int| 0 <= j < slots.len() ==> drop_slots(w, slots).items[#[trigger] slots[j]] is None,
        slots.len() == w.containers[k].sequence.len() ==> drop_slots(w, slots).containers[k].sequence.len()
            == 0,
    decreases slots.len(),
{
    let seq = w.containers[k].sequence;
    if slots.len() == 0 {
        assert(seq.subrange(0, seq.len() as int) =~= seq);
    } else {
        let i = slots[0];
        let w1 = drop_step(w, i).0;
        let rest = slots.drop_first();
        lemma_drop_step_frame(w, i);
        assert(w1.containers[k].sequence == seq.drop_first());
        assert(w1.items[i] is None);
        assert forall|j: int| 0 <= j < rest.len() implies {
            &&& 0 <= #[trigger] rest[j] < w1.items.len()
            &&& w1.items[rest[j]] matches Some(it)
            &&& it.item_id == w1.containers[k].sequence[j]
            &&& it.container_id == w1.containers[k].container_id
            &&& it.state != InteractionState::Dragging
            &&& first_overlap_from(it, w1.containers, 0) == Some(k)
        } by {
            assert(rest[j] == slots[j + 1]);
            assert(slots[j + 1] != slots[0]);
            let it = w.items[slots[j + 1]]->Some_0;
            lemma_first_overlap_frame(it, w.containers, w1.containers, 0);
        }
        lemma_in_order_consumed(w1, k, rest);
        lemma_drop_slots_keeps_empty(w1, rest, i);
        assert(seq.drop_first().subrange(rest.len() as int, seq.drop_first().len() as int)
            =~= seq.subrange(slots.len() as int, seq.len() as int));
        assert forall|j: int| 0 <= j < slots.len() implies drop_slots(w, slots).items[#[trigger] slots[j]] is None by {
            if j > 0 {
                assert(rest[j - 1] == slots[j]);
            }
        }
    }
}

proof fn lemma_drop_slots_keeps_empty(w: WorldModel, slots: Seq<int>, m: int)
    requires
        0 <= m < w.items.len(),
        w.items[m] is None,
        forall|j: int| 0 <= j < slots.len() ==> 0 <= #[trigger] slots[j] < w.items.len(),
    ensures
        drop_slots(w, slots).items[m] is None,
    decreases slots.len(),
{
    if slots.len() > 0 {
        let w1 = drop_step(w, slots[0]).0;
        lemma_drop_step_frame(w, slots[0]);
        assert forall|j: int| 0 <= j < slots.drop_first().len() implies 0 <= #[trigger] slots.drop_first()[j]
            < w1.items.len() by {
            assert(slots.drop_first()[j] == slots[j + 1]);
        }
        lemma_drop_slots_keeps_empty(w1, slots.drop_first(), m);
    }
}

/// The validator never touches an item that is being dragged.
proof fn lemma_drop_all_skips_dragged(w: WorldModel, n: nat, i: int)
    requires
        n <= w.items.len(),
        0 <= i < w.items.len(),
        w.items[i] matches Some(it) && it.state == InteractionState::Dragging,
    ensures
        drop_all(w, n).0.items.len() == w.items.len(),
        drop_all(w, n).0.items[i] == w.items[i],
    decreases n,
{
    if n > 0 {
        lemma_drop_all_skips_dragged(w, (n - 1) as nat, i);
        lemma_drop_step_frame(drop_all(w, (n - 1) as nat).0, n - 1);
    }
}

/// While the button is held, an item that is being dragged stays dragged
/// and ends the tick under the mapped cursor, wherever it was before.
pub proof fn lemma_drag_follows_cursor(w: WorldModel, input: PointerInput, i: int, it: Item)
    requires
        input.cursor is Some,
        input.held,
        0 <= i < w.items.len(),
        w.items[i] == Some(it),
        it.state == InteractionState::Dragging,
    ensures
        tick_model(w, input).0.items[i] == Some(
            Item { position: tick_cursor(input)->Some_0, ..it },
        ),
{
    let c = tick_cursor(input)->Some_0;
    let g = grab_model(w, c, input.just_pressed, input.held);
    assert(g.items[i] == grab_slot(w.items, c, input.just_pressed, input.held, i));
    let p = pointer_phase(w, input);
    assert(p.items[i] == drag_slot(g.items[i], c));
    lemma_drop_all_skips_dragged(p, w.items.len(), i);
}

/// `a` is what is left of `b` once some front of it has been taken.
pub open spec fn is_suffix(a: Seq<u64>, b: Seq<u64>) -> bool {
    a.len() <= b.len() && a == b.subrange(b.len() - a.len(), b.len() as int)
}

/// A container keeps its place, size and identity, and its sequence only
/// loses items from the front.
pub open spec fn container_evolves(a: ContainerModel, b: ContainerModel) -> bool {
    &&& b.position == a.position
    &&& b.size == a.size
    &&& b.container_id == a.container_id
    &&& is_suffix(b.sequence, a.sequence)
}

/// An item that is still live keeps its own and its container's identity.
pub open spec fn slot_evolves(a: Option<Item>, b: Option<Item>) -> bool {
    b is Some ==> {
        &&& a is Some
        &&& b->Some_0.item_id == a->Some_0.item_id
        &&& b->Some_0.container_id == a->Some_0.container_id
    }
}

pub open spec fn evolves_to(w: WorldModel, r: WorldModel) -> bool {
    &&& r.items.len() == w.items.len()
    &&& r.containers.len() == w.containers.len()
    &&& forall|m: int|
        0 <= m < w.containers.len() ==> container_evolves(w.containers[m], #[trigger] r.containers[m])
    &&& forall|m: int| 0 <= m < w.items.len() ==> slot_evolves(w.items[m], #[trigger] r.items[m])
}

proof fn lemma_suffix_refl(s: Seq<u64>)
    ensures
        is_suffix(s, s),
{
    assert(s.subrange(0, s.len() as int) =~= s);
}

proof fn lemma_evolves_refl(w: WorldModel)
    ensures
        evolves_to(w, w),
{
    assert forall|m: int| 0 <= m < w.containers.len() implies container_evolves(
        w.containers[m],
        #[trigger] w.containers[m],
    ) by {
        lemma_suffix_refl(w.containers[m].sequence);
    }
}

proof fn lemma_evolves_trans(a: WorldModel, b: WorldModel, c: WorldModel)
    requires
        evolves_to(a, b),
        evolves_to(b, c),
    ensures
        evolves_to(a, c),
{
    assert forall|m: int| 0 <= m < a.containers.len() implies container_evolves(
        a.containers[m],
        #[trigger] c.containers[m],
    ) by {
        let sa = a.containers[m].sequence;
        let sb = b.containers[m].sequence;
        let sc = c.containers[m].sequence;
        assert(container_evolves(a.containers[m], b.containers[m]));
        assert(container_evolves(b.containers[m], c.containers[m]));
        assert(sc =~= sa.subrange(sa.len() - sc.len(), sa.len() as int));
    }
    assert forall|m: int| 0 <= m < a.items.len() implies slot_evolves(a.items[m], #[trigger] c.items[m]) by {
        assert(slot_evolves(a.items[m], b.items[m]));
        assert(slot_evolves(b.items[m], c.items[m]));
    }
}

proof fn lemma_drop_step_evolves(w: WorldModel, i: int)
    requires
        0 <= i < w.items.len(),
    ensures
        evolves_to(w, drop_step(w, i).0),
{
    lemma_drop_step_frame(w, i);
    if let Some(it) = w.items[i] {
        lemma_first_overlap_bounds(it, w.containers, 0);
    }
    let r = drop_step(w, i).0;
    assert forall|m: int| 0 <= m < w.containers.len() implies container_evolves(
        w.containers[m],
        #[trigger] r.containers[m],
    ) by {
        let s = w.containers[m].sequence;
        assert(s.subrange(0, s.len() as int) =~= s);
        if s.len() > 0 {
            assert(s.drop_first() =~= s.subrange(1, s.len() as int));
        }
    }
    assert forall|m: int| 0 <= m < w.items.len() implies slot_evolves(w.items[m], #[trigger] r.items[m]) by {
        if m != i {
            assert(r.items[m] == w.items[m]);
        }
    }
}

proof fn lemma_drop_all_evolves(w: WorldModel, n: nat)
    requires
        n <= w.items.len(),
    ensures
        evolves_to(w, drop_all(w, n).0),
    decreases n,
{
    if n == 0 {
        lemma_evolves_refl(w);
    } else {
        let w1 = drop_all(w, (n - 1) as nat).0;
        lemma_drop_all_evolves(w, (n - 1) as nat);
        lemma_drop_step_evolves(w1, n - 1);
        lemma_evolves_trans(w, w1, drop_step(w1, n - 1).0);
    }
}

proof fn lemma_pointer_phase_evolves(w: WorldModel, input: PointerInput)
    ensures
        evolves_to(w, pointer_phase(w, input)),
{
    lemma_evolves_refl(w);
    let p = pointer_phase(w, input);
    if let Some(c) = tick_cursor(input) {
        let g = grab_model(w, c, input.just_pressed, input.held);
        assert(p.containers == w.containers);
        assert forall|m: int| 0 <= m < w.items.len() implies slot_evolves(w.items[m], #[trigger] p.items[m]) by {
            assert(p.items[m] == drag_slot(g.items[m], c));
            assert(g.items[m] == grab_slot(w.items, c, input.just_pressed, input.held, m));
        }
    }
}

/// Over a tick, containers stay where they are with the same identity and
/// their sequences only shrink from the front, never reorder; an item never
/// changes its container.
pub proof fn lemma_tick_preserves_world_rules(w: WorldModel, input: PointerInput)
    ensures
        evolves_to(w, tick_model(w, input).0),
{
    let p = pointer_phase(w, input);
    lemma_pointer_phase_evolves(w, input);
    lemma_drop_all_evolves(p, w.items.len());
    lemma_evolves_trans(w, p, tick_model(w, input).0);
}

} // verus!
