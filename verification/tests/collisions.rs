use rust_survivors::enemy::enemy_collision;
use rust_survivors::enemy::Enemy;
use rust_survivors::enemy::ENEMY_SIZE;
use rust_survivors::enemy::ENEMY_SPEED;
use rust_survivors::experience_item::ExperienceItem;
use rust_survivors::geometry::boxes_overlap;
use rust_survivors::player::collect_pickup;
use rust_survivors::player::experience_collision;
use rust_survivors::player::player_collision;
use rust_survivors::player::update_hit_timer;
use rust_survivors::player::Player;
use rust_survivors::player::PlayerHitTimer;
use rust_survivors::projectile::Projectile;
use rust_survivors::projectile::PROJECTILE_SIZE;
use rust_survivors::timer::Timer;

fn enemy_at(x: i64, y: i64, health: i64) -> Enemy {
    Enemy { x, y, move_speed: ENEMY_SPEED, size_x: ENEMY_SIZE, size_y: ENEMY_SIZE, health }
}

fn projectile_at(x: i64, y: i64) -> Projectile {
    Projectile { x, y, x_speed: 0, y_speed: 0, size_x: PROJECTILE_SIZE, size_y: PROJECTILE_SIZE }
}

fn pickup_at(x: i64, y: i64, value: u64) -> ExperienceItem {
    ExperienceItem { x, y, experience: value, size_x: 10, size_y: 10 }
}

#[test]
fn touching_boxes_do_not_overlap() {
    // Interval bounds exactly equal: strict inequality classifies this as
    // non-colliding.
    assert!(!boxes_overlap(0, 0, 25, 25, 50, 0, 25, 25));
    assert!(!boxes_overlap(0, 0, 25, 25, 0, 50, 25, 25));
    // One unit closer crosses the bound.
    assert!(boxes_overlap(0, 0, 25, 25, 49, 0, 25, 25));
    assert!(boxes_overlap(0, 0, 25, 25, 0, -49, 25, 25));
}

#[test]
fn hits_accumulate_and_third_hit_kills() {
    let mut enemies = vec![enemy_at(0, 0, 3)];
    let mut pickups: Vec<ExperienceItem> = Vec::new();

    let mut projectiles = vec![projectile_at(0, 0), projectile_at(1, 1)];
    enemy_collision(&mut projectiles, &mut enemies, &mut pickups);
    assert!(projectiles.is_empty());
    assert_eq!(enemies.len(), 1);
    assert_eq!(enemies[0].health, 1);
    assert!(pickups.is_empty());

    let mut projectiles = vec![projectile_at(-2, 3)];
    enemy_collision(&mut projectiles, &mut enemies, &mut pickups);
    assert!(projectiles.is_empty());
    assert!(enemies.is_empty());
    assert_eq!(pickups.len(), 1);
    assert_eq!((pickups[0].x, pickups[0].y), (0, 0));
    assert_eq!(pickups[0].experience, 10);
    assert_eq!((pickups[0].size_x, pickups[0].size_y), (10, 10));
}

#[test]
fn projectile_is_consumed_by_first_enemy_only() {
    // Both enemies overlap the projectile, but a removed projectile takes
    // part in no later collision of the same pass.
    let mut enemies = vec![enemy_at(0, 0, 3), enemy_at(10, 0, 3)];
    let mut pickups: Vec<ExperienceItem> = Vec::new();
    let mut projectiles = vec![projectile_at(5, 0)];
    enemy_collision(&mut projectiles, &mut enemies, &mut pickups);
    assert!(projectiles.is_empty());
    assert_eq!(enemies[0].health, 2);
    assert_eq!(enemies[1].health, 3);
}

#[test]
fn missing_projectile_flies_on() {
    let mut enemies = vec![enemy_at(0, 0, 3)];
    let mut pickups: Vec<ExperienceItem> = Vec::new();
    let mut projectiles = vec![projectile_at(1000, 1000)];
    enemy_collision(&mut projectiles, &mut enemies, &mut pickups);
    assert_eq!(projectiles.len(), 1);
    assert_eq!(enemies[0].health, 3);
    assert!(pickups.is_empty());
}

#[test]
fn one_hit_per_tick_regardless_of_overlap_count() {
    let mut player = Player::new(0, 0);
    let enemies = vec![enemy_at(10, 0, 3), enemy_at(-10, 0, 3), enemy_at(0, 10, 3)];

    player_collision(&mut player, &enemies);
    assert_eq!(player.health, 99);
    assert!(player.recently_hit);

    // Cooldown gate up: further overlapping ticks cost nothing.
    player_collision(&mut player, &enemies);
    assert_eq!(player.health, 99);
}

#[test]
fn exactly_touching_enemy_does_not_hit() {
    let mut player = Player::new(0, 0);
    let enemies = vec![enemy_at(50, 0, 3)];
    player_collision(&mut player, &enemies);
    assert_eq!(player.health, 100);
    assert!(!player.recently_hit);
}

#[test]
fn cooldown_clears_on_timer_completion() {
    let mut player = Player::new(0, 0);
    let enemies = vec![enemy_at(10, 0, 3)];
    let mut timer = PlayerHitTimer(Timer::new(2000, true));

    player_collision(&mut player, &enemies);
    assert_eq!(player.health, 99);

    update_hit_timer(&mut player, &mut timer, 1000);
    assert!(player.recently_hit);
    player_collision(&mut player, &enemies);
    assert_eq!(player.health, 99);

    update_hit_timer(&mut player, &mut timer, 1000);
    assert!(!player.recently_hit);
    player_collision(&mut player, &enemies);
    assert_eq!(player.health, 98);
}

#[test]
fn collecting_levels_up_exactly_once() {
    let mut player = Player::new(0, 0);
    assert_eq!((player.experience, player.level, player.experience_to_next_level), (0, 1, 10));

    collect_pickup(&mut player, 10);
    assert_eq!((player.experience, player.level, player.experience_to_next_level), (0, 2, 20));

    collect_pickup(&mut player, 15);
    assert_eq!((player.experience, player.level, player.experience_to_next_level), (15, 2, 20));
}

#[test]
fn no_chained_level_up_on_a_huge_pickup() {
    // 100 experience clears the threshold of 10 and would clear the doubled
    // threshold of 20 as well; still only one level-up fires and experience
    // resets to zero.
    let mut player = Player::new(0, 0);
    collect_pickup(&mut player, 100);
    assert_eq!((player.experience, player.level, player.experience_to_next_level), (0, 2, 20));
}

#[test]
fn pickup_pass_collects_in_order_and_keeps_the_rest() {
    let mut player = Player::new(0, 0);
    let mut items = vec![pickup_at(5, 0, 10), pickup_at(-5, 0, 10), pickup_at(500, 0, 10)];
    experience_collision(&mut player, &mut items);

    // First pickup levels the player up (10 >= 10); the second leaves 10
    // experience toward the doubled threshold; the far one survives.
    assert_eq!((player.experience, player.level, player.experience_to_next_level), (10, 2, 20));
    assert_eq!(items.len(), 1);
    assert_eq!(items[0].x, 500);
}

#[test]
fn exactly_touching_pickup_is_not_collected() {
    let mut player = Player::new(0, 0);
    let mut items = vec![pickup_at(50, 0, 10)];
    experience_collision(&mut player, &mut items);
    assert_eq!(player.experience, 0);
    assert_eq!(items.len(), 1);
}
