//! Spatial interaction core of a "drag files into folders" desktop toy:
//! pointer mapping, box hit tests, a per-item interaction state machine,
//! the drag driver and the ordered-insertion rule of containers.
//!
//! All positions are integer pixel coordinates; world space has its origin
//! at the middle of the viewport.

pub mod geometry;
pub mod world;
pub mod laws;

pub use geometry::{
    aabb_overlap_rect, cursor_collision, relative_cursor_position, within, Vec2,
};
pub use world::{Container, DropEvent, InteractionState, Item, PointerInput, World};
