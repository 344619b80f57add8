//! Drives the passes in the fixed per-frame pipeline order for a few
//! simulated seconds and checks the session-level outcomes.

use rust_survivors::camera::{create_camera, follow_player, Camera};
use rust_survivors::enemy::{enemy_collision, move_enemy, spawn_enemy, Enemy, SpawnEnemyTimer};
use rust_survivors::experience_item::ExperienceItem;
use rust_survivors::player::{
    experience_collision, player_collision, sprite_movement, update_hit_timer, Player,
    PlayerHitTimer,
};
use rust_survivors::projectile::{fire_projectile, update_projectiles, Projectile, ProjectileTimer};
use rust_survivors::timer::Timer;

struct Session {
    player: Player,
    camera: Camera,
    enemies: Vec<Enemy>,
    projectiles: Vec<Projectile>,
    pickups: Vec<ExperienceItem>,
    spawn_timer: SpawnEnemyTimer,
    fire_timer: ProjectileTimer,
    hit_timer: PlayerHitTimer,
}

fn new_session() -> Session {
    Session {
        player: Player::new(0, 0),
        camera: create_camera(),
        enemies: Vec::new(),
        projectiles: Vec::new(),
        pickups: Vec::new(),
        spawn_timer: SpawnEnemyTimer(Timer::new(2000, true)),
        fire_timer: ProjectileTimer(Timer::new(4000, true)),
        hit_timer: PlayerHitTimer(Timer::new(2000, true)),
    }
}

/// One frame in the documented pass order: player movement, enemy
/// movement, camera follow, firing, projectile movement, projectile-enemy
/// collision, enemy spawn, enemy-player collision, hit-cooldown tick,
/// pickup collision.
fn frame(s: &mut Session, dt: u64) {
    sprite_movement(&mut s.player, false, false, false, false, dt);
    move_enemy(&mut s.enemies, s.player.x, s.player.y, dt);
    follow_player(&mut s.camera, s.player.x, s.player.y);
    fire_projectile(&mut s.fire_timer, &mut s.projectiles, &s.player, &s.enemies, dt);
    update_projectiles(&mut s.projectiles, dt);
    enemy_collision(&mut s.projectiles, &mut s.enemies, &mut s.pickups);
    spawn_enemy(&mut s.spawn_timer, &mut s.enemies, &s.camera, dt);
    player_collision(&mut s.player, &s.enemies);
    update_hit_timer(&mut s.player, &mut s.hit_timer, dt);
    experience_collision(&mut s.player, &mut s.pickups);
}

#[test]
fn four_seconds_spawn_two_enemies_and_one_shot() {
    let mut s = new_session();
    for _ in 0..250 {
        frame(&mut s, 16);
    }
    // Spawns land at 2 s and 4 s; the single shot fires at 4 s at the
    // nearest enemy, which by then is well off the player in any corner.
    assert_eq!(s.enemies.len(), 2);
    assert_eq!(s.projectiles.len(), 1);
    // Fired from the unmoved player at (0, 0), then glided one 16 ms frame:
    // at most 200 * 16 / 1000 = 3 units along each axis.
    assert!(s.projectiles[0].x.abs() <= 3 && s.projectiles[0].y.abs() <= 3);
    assert!(s.projectiles[0].x_speed.abs() <= 200 && s.projectiles[0].y_speed.abs() <= 200);
    assert_eq!(s.player.health, 100);
    assert_eq!(s.player.experience, 0);
    assert_eq!(s.player.level, 1);
    assert!(s.pickups.is_empty());
    // The camera follows the (unmoved, then glided) player.
    assert_eq!((s.camera.x, s.camera.y), (s.player.x, s.player.y));
    // Every enemy spawned on a spawn side relative to the camera at (0, 0)
    // and has since homed inward; none left the spawn rectangle.
    for e in &s.enemies {
        assert!(e.x.abs() <= 450 && e.y.abs() <= 350);
        assert_eq!(e.health, 3);
    }
}

#[test]
fn idle_session_changes_nothing() {
    let mut s = new_session();
    for _ in 0..10 {
        frame(&mut s, 16);
    }
    assert_eq!((s.player.x, s.player.y), (0, 0));
    assert!(s.enemies.is_empty());
    assert!(s.projectiles.is_empty());
    assert_eq!(s.player.health, 100);
}
