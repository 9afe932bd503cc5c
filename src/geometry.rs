use vstd::prelude::*;

verus! {

/// A point or an extent in integer pixel units.
#[derive(Clone, Copy, Debug, PartialEq, Eq, Structural)]
pub struct Vec2 {
    pub x: i64,
    pub y: i64,
}

impl Vec2 {
    pub fn new(x: i64, y: i64) -> (r: Vec2)
        ensures
            r.x == x,
            r.y == y,
    {
        Vec2 { x, y }
    }

    /// The same value on both axes (a square extent).
    pub fn splat(v: i64) -> (r: Vec2)
        ensures
            r.x == v,
            r.y == v,
    {
        Vec2 { x: v, y: v }
    }
}

/// `x` lies in the closed interval `[mid - size/2, mid + size/2]`, stated
/// with both sides doubled so that odd sizes are exact.
pub open spec fn within_spec(x: int, mid: int, size: int) -> bool {
    2 * mid - size <= 2 * x <= 2 * mid + size
}

/// The point `p` lies in the closed box of center `c` and extent `s`.
pub open spec fn point_in_box(p: Vec2, c: Vec2, s: Vec2) -> bool {
    within_spec(p.x as int, c.x as int, s.x as int) && within_spec(p.y as int, c.y as int, s.y as int)
}

pub open spec fn abs(v: int) -> int {
    if v < 0 {
        -v
    } else {
        v
    }
}

/// Two closed boxes meet: on neither axis are the centers further apart than
/// the sum of the half extents.
pub open spec fn boxes_overlap(a: Vec2, sa: Vec2, b: Vec2, sb: Vec2) -> bool {
    2 * abs(a.x - b.x) <= sa.x + sb.x && 2 * abs(a.y - b.y) <= sa.y + sb.y
}

/// The world position of a viewport position: the viewport's middle
/// (rounded down on odd dimensions) becomes the origin.
pub open spec fn to_world(raw: Vec2, width: u32, height: u32) -> (int, int) {
    (raw.x - width / 2, raw.y - height / 2)
}

/// The world position as a point; meaningful where `maps_in_range` holds.
pub open spec fn world_point(raw: Vec2, width: u32, height: u32) -> Vec2 {
    Vec2 { x: to_world(raw, width, height).0 as i64, y: to_world(raw, width, height).1 as i64 }
}

/// The mapped position fits in the coordinate type.
pub open spec fn maps_in_range(raw: Vec2, width: u32, height: u32) -> bool {
    i64::MIN <= to_world(raw, width, height).0 && i64::MIN <= to_world(raw, width, height).1
}

/// Closed-interval membership: `mid - size/2 <= x <= mid + size/2`.
pub fn within(x: i64, mid: i64, size: i64) -> (r: bool)
    ensures
        r == within_spec(x as int, mid as int, size as int),
{
    let x2: i128 = 2 * (x as i128);
    let m2: i128 = 2 * (mid as i128);
    let s: i128 = size as i128;
    m2 - s <= x2 && x2 <= m2 + s
}

/// A point against a box: `within` on each axis.
pub fn cursor_collision(cursor_position: Vec2, rect_position: Vec2, rect_size: Vec2) -> (r: bool)
    ensures
        r == point_in_box(cursor_position, rect_position, rect_size),
{
    let h: bool = within(cursor_position.x, rect_position.x, rect_size.x);
    let v: bool = within(cursor_position.y, rect_position.y, rect_size.y);
    h && v
}

fn axis_overlap(a: i64, sa: i64, b: i64, sb: i64) -> (r: bool)
    ensures
        r == (2 * abs(a - b) <= sa + sb),
{
    let d: i128 = if a >= b {
        a as i128 - b as i128
    } else {
        b as i128 - a as i128
    };
    2 * d <= sa as i128 + sb as i128
}

/// Box against box by the separating-axis test; touching boxes overlap.
pub fn aabb_overlap_rect(center_a: Vec2, size_a: Vec2, center_b: Vec2, size_b: Vec2) -> (r: bool)
    ensures
        r == boxes_overlap(center_a, size_a, center_b, size_b),
{
    axis_overlap(center_a.x, size_a.x, center_b.x, size_b.x) && axis_overlap(
        center_a.y,
        size_a.y,
        center_b.y,
        size_b.y,
    )
}

/// Maps a viewport position to the origin-centered world.
pub fn relative_cursor_position(
    absolute_cursor_position: Vec2,
    window_width: u32,
    window_height: u32,
) -> (r: Vec2)
    requires
        maps_in_range(absolute_cursor_position, window_width, window_height),
    ensures
        (r.x as int, r.y as int) == to_world(absolute_cursor_position, window_width, window_height),
        r == world_point(absolute_cursor_position, window_width, window_height),
{
    let half_w: i64 = (window_width / 2) as i64;
    let half_h: i64 = (window_height / 2) as i64;
    Vec2 { x: absolute_cursor_position.x - half_w, y: absolute_cursor_position.y - half_h }
}

/// Both ends of the interval belong to it.
pub proof fn lemma_within_bounds_inclusive(mid: int, half: int)
    requires
        half >= 0,
    ensures
        within_spec(mid - half, mid, 2 * half),
        within_spec(mid + half, mid, 2 * half),
        !within_spec(mid + half + 1, mid, 2 * half),
        !within_spec(mid - half - 1, mid, 2 * half),
{
}

/// The box overlap test does not depend on the order of its two boxes.
pub proof fn lemma_overlap_symmetric(a: Vec2, sa: Vec2, b: Vec2, sb: Vec2)
    ensures
        boxes_overlap(a, sa, b, sb) == boxes_overlap(b, sb, a, sa),
{
}

/// The mapping is a function of its inputs: equal inputs, equal outputs.
pub proof fn lemma_mapping_deterministic(raw1: Vec2, w1: u32, h1: u32, raw2: Vec2, w2: u32, h2: u32)
    requires
        raw1 == raw2,
        w1 == w2,
        h1 == h2,
    ensures
        to_world(raw1, w1, h1) == to_world(raw2, w2, h2),
{
}

} // verus!
