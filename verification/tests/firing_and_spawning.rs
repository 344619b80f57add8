use rust_survivors::camera::Camera;
use rust_survivors::enemy::spawn_enemy;
use rust_survivors::enemy::spawn_position;
use rust_survivors::enemy::Enemy;
use rust_survivors::enemy::SpawnEnemyTimer;
use rust_survivors::enemy::ENEMY_SIZE;
use rust_survivors::enemy::ENEMY_SPEED;
use rust_survivors::player::Player;
use rust_survivors::projectile::fire_projectile;
use rust_survivors::projectile::update_projectiles;
use rust_survivors::projectile::Projectile;
use rust_survivors::projectile::ProjectileTimer;
use rust_survivors::timer::Timer;

fn enemy_at(x: i64, y: i64) -> Enemy {
    Enemy { x, y, move_speed: ENEMY_SPEED, size_x: ENEMY_SIZE, size_y: ENEMY_SIZE, health: 3 }
}

fn fire_once(player: &Player, enemies: &Vec<Enemy>) -> Vec<Projectile> {
    let mut timer = ProjectileTimer(Timer::new(4000, true));
    let mut projectiles: Vec<Projectile> = Vec::new();
    fire_projectile(&mut timer, &mut projectiles, player, enemies, 4000);
    projectiles
}

#[test]
fn projectile_travels_its_velocity_over_one_second() {
    // The enemy sits 200 units east: exactly one second of travel at
    // projectile speed 200. After 1000 ms the projectile stands at its
    // fire-time position plus its velocity times one.
    let player = Player::new(0, 0);
    let enemies = vec![enemy_at(200, 0)];
    let mut projectiles = fire_once(&player, &enemies);

    assert_eq!(projectiles.len(), 1);
    assert_eq!((projectiles[0].x, projectiles[0].y), (0, 0));
    assert_eq!((projectiles[0].x_speed, projectiles[0].y_speed), (200, 0));

    update_projectiles(&mut projectiles, 1000);
    assert_eq!((projectiles[0].x, projectiles[0].y), (200, 0));
}

#[test]
fn fire_waits_for_the_timer() {
    let player = Player::new(0, 0);
    let enemies = vec![enemy_at(200, 0)];
    let mut timer = ProjectileTimer(Timer::new(4000, true));
    let mut projectiles: Vec<Projectile> = Vec::new();
    fire_projectile(&mut timer, &mut projectiles, &player, &enemies, 3999);
    assert!(projectiles.is_empty());
    fire_projectile(&mut timer, &mut projectiles, &player, &enemies, 1);
    assert_eq!(projectiles.len(), 1);
}

#[test]
fn no_enemy_means_no_projectile() {
    let player = Player::new(0, 0);
    let projectiles = fire_once(&player, &Vec::new());
    assert!(projectiles.is_empty());
}

#[test]
fn fires_at_the_nearest_enemy() {
    let player = Player::new(0, 0);
    let enemies = vec![enemy_at(300, 0), enemy_at(-100, 0)];
    let projectiles = fire_once(&player, &enemies);
    assert_eq!(projectiles.len(), 1);
    assert_eq!((projectiles[0].x_speed, projectiles[0].y_speed), (-200, 0));
}

#[test]
fn distance_tie_goes_to_the_first_enemy() {
    let player = Player::new(0, 0);
    let enemies = vec![enemy_at(100, 0), enemy_at(-100, 0)];
    let projectiles = fire_once(&player, &enemies);
    assert_eq!(projectiles.len(), 1);
    assert_eq!((projectiles[0].x_speed, projectiles[0].y_speed), (200, 0));
}

#[test]
fn diagonal_aim_scales_both_components() {
    // 3-4-5 triangle at distance 500: velocity (120, 160) of magnitude 200.
    let player = Player::new(0, 0);
    let enemies = vec![enemy_at(300, 400)];
    let projectiles = fire_once(&player, &enemies);
    assert_eq!((projectiles[0].x_speed, projectiles[0].y_speed), (120, 160));
}

#[test]
fn coincident_nearest_enemy_suppresses_the_shot() {
    // The nearest enemy sits exactly on the player: no direction exists, so
    // the completed tick fires nothing.
    let player = Player::new(0, 0);
    let enemies = vec![enemy_at(0, 0), enemy_at(50, 0)];
    let projectiles = fire_once(&player, &enemies);
    assert!(projectiles.is_empty());
}

#[test]
fn spawn_position_covers_all_four_sides() {
    let camera = Camera { x: 100, y: 200 };
    assert_eq!(spawn_position(&camera, true, true), (550, 550));
    assert_eq!(spawn_position(&camera, true, false), (550, -150));
    assert_eq!(spawn_position(&camera, false, true), (-350, 550));
    assert_eq!(spawn_position(&camera, false, false), (-350, -150));
}

#[test]
fn spawn_waits_for_the_timer() {
    let camera = Camera { x: 0, y: 0 };
    let mut timer = SpawnEnemyTimer(Timer::new(2000, true));
    let mut enemies: Vec<Enemy> = Vec::new();
    spawn_enemy(&mut timer, &mut enemies, &camera, 1999);
    assert!(enemies.is_empty());
}

#[test]
fn spawned_enemy_appears_on_a_spawn_side_with_fixed_stats() {
    let camera = Camera { x: 0, y: 0 };
    let mut timer = SpawnEnemyTimer(Timer::new(2000, true));
    let mut enemies: Vec<Enemy> = Vec::new();
    spawn_enemy(&mut timer, &mut enemies, &camera, 2000);

    assert_eq!(enemies.len(), 1);
    let e = &enemies[0];
    assert!(e.x == 450 || e.x == -450);
    assert!(e.y == 350 || e.y == -350);
    assert_eq!(e.health, 3);
    assert_eq!(e.move_speed, 75);
    assert_eq!((e.size_x, e.size_y), (50, 50));
}

#[test]
fn spawning_keeps_existing_enemies() {
    let camera = Camera { x: 0, y: 0 };
    let mut timer = SpawnEnemyTimer(Timer::new(2000, true));
    let mut enemies = vec![enemy_at(7, 8)];
    spawn_enemy(&mut timer, &mut enemies, &camera, 2500);
    assert_eq!(enemies.len(), 2);
    assert_eq!((enemies[0].x, enemies[0].y), (7, 8));
}
