//! The viewport camera: position only, recentered on the player each frame.

use vstd::prelude::*;
use crate::geometry::in_world;

verus! {

/// Where new sessions place the camera before the first follow pass.
pub const CAMERA_START_X: i64 = 100;

/// See `CAMERA_START_X`.
pub const CAMERA_START_Y: i64 = 200;

/// The camera: a viewport center with no independent velocity.
#[derive(Clone, Copy, PartialEq, Eq, Structural)]
pub struct Camera {
    pub x: i64,
    pub y: i64,
}

/// The camera after one follow pass: centered on the player, whatever it
/// held before.
pub open spec fn follow_spec(camera: Camera, player_x: int, player_y: int) -> Camera {
    Camera { x: player_x as i64, y: player_y as i64 }
}

/// The camera at its session start position.
pub fn create_camera() -> (camera: Camera)
    ensures
        camera == (Camera { x: CAMERA_START_X, y: CAMERA_START_Y }),
{
    Camera { x: CAMERA_START_X, y: CAMERA_START_Y }
}

/// Recenter the viewport on the player, unconditionally.
pub fn follow_player(camera: &mut Camera, player_x: i64, player_y: i64)
    ensures
        *final(camera) == follow_spec(*old(camera), player_x as int, player_y as int),
        in_world(player_x as int, player_y as int) ==> in_world(
            final(camera).x as int,
            final(camera).y as int,
        ),
{
    camera.x = player_x;
    camera.y = player_y;
}

/// The follow pass is idempotent: run twice in one frame with no player
/// movement in between, it leaves the camera exactly where one run did.
pub proof fn lemma_follow_idempotent(camera: Camera, player_x: int, player_y: int)
    ensures
        follow_spec(follow_spec(camera, player_x, player_y), player_x, player_y) == follow_spec(
            camera,
            player_x,
            player_y,
        ),
{
}

} // verus!
