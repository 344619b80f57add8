//! Core of a small top-down arcade game: a player moves on a 2D plane,
//! enemies spawn outside the viewport and home toward the player, the player
//! fires projectiles at the nearest enemy, collisions exchange damage, and
//! defeated enemies drop experience pickups that level the player up.
//!
//! Positions are whole world units and time is whole milliseconds, so every
//! per-frame rule is stated and proved exactly. Rendering, input devices and
//! the window are outside services; the driver that owns them calls these
//! passes once per frame in the documented order.

pub mod camera;
pub mod enemy;
pub mod experience_item;
pub mod projectile;
pub mod geometry;
pub mod player;
pub mod timer;
