//! Enemies: timed off-screen spawning, homing movement toward the player,
//! and the projectile-versus-enemy collision pass.

use vstd::prelude::*;
use crate::camera::Camera;
use crate::experience_item::dropped_at;
use crate::experience_item::ExperienceItem;
use crate::experience_item::PICKUP_SIZE;
use crate::experience_item::PICKUP_VALUE;
use crate::geometry::boxes_overlap;
use crate::geometry::boxes_overlap_spec;
use crate::geometry::dist_sq;
use crate::geometry::dist_sq_exec;
use crate::geometry::in_world;
use crate::geometry::isqrt;
use crate::geometry::isqrt_spec;
use crate::geometry::lemma_component_within_isqrt;
use crate::geometry::scale_toward;
use crate::geometry::scaled;
use crate::geometry::MAX_SIZE;
use crate::geometry::MAX_SPEED;
use crate::projectile::Projectile;
use crate::projectile::PROJECTILE_MARGIN;
use crate::timer::Timer;
use crate::timer::MAX_DELTA_MS;

verus! {

/// Enemy movement speed, in world units per second.
pub const ENEMY_SPEED: u64 = 75;

/// Enemy bounding-box width and height, in world units.
pub const ENEMY_SIZE: u64 = 50;

/// Health a fresh enemy spawns with.
pub const ENEMY_START_HEALTH: i64 = 3;

/// Interval of the repeating enemy spawn timer, in milliseconds.
pub const SPAWN_INTERVAL_MS: u64 = 2000;

/// Viewport extent used to place spawns outside the visible area.
pub const VIEWPORT_WIDTH: i64 = 800;

/// See `VIEWPORT_WIDTH`.
pub const VIEWPORT_HEIGHT: i64 = 600;

/// Extra distance beyond the viewport edge at which enemies appear.
pub const SPAWN_MARGIN: i64 = 50;

/// Horizontal offset from the camera center to a spawn side: half the
/// viewport width plus the spawn margin.
pub const SPAWN_OFFSET_X: i64 = 450;

/// Vertical offset from the camera center to a spawn side: half the
/// viewport height plus the spawn margin.
pub const SPAWN_OFFSET_Y: i64 = 350;

/// An enemy homing toward the player.
#[derive(Clone, Copy, PartialEq, Eq, Structural)]
pub struct Enemy {
    pub x: i64,
    pub y: i64,
    pub move_speed: u64,
    pub size_x: u64,
    pub size_y: u64,
    pub health: i64,
}

impl Enemy {
    /// A live enemy: at least one health, bounded speed and extents.
    /// Reaching zero health destroys the enemy before it is seen again.
    pub open spec fn wf(self) -> bool {
        &&& self.health >= 1
        &&& self.move_speed <= MAX_SPEED
        &&& self.size_x <= MAX_SIZE
        &&& self.size_y <= MAX_SIZE
    }
}

/// The repeating clock that paces enemy spawning.
#[derive(Clone, Copy, PartialEq, Eq, Structural)]
pub struct SpawnEnemyTimer(pub Timer);

/// Relies on rand::random: an independent draw from the standard
/// distribution — for `bool`, a coin flip. Nothing is promised of the
/// value; callers state what holds of every outcome.
pub assume_specification<T>[ rand::random::<T> ]() -> (r: T)
    where
        rand::distributions::Standard: rand::distributions::Distribution<T>,
;

/// The spawn position picked from two horizontal and two vertical sides of
/// the viewport around the camera center.
pub fn spawn_position(camera: &Camera, east: bool, north: bool) -> (r: (i64, i64))
    requires
        in_world(camera.x as int, camera.y as int),
    ensures
        r.0 == camera.x + if east {
            SPAWN_OFFSET_X as int
        } else {
            -(SPAWN_OFFSET_X as int)
        },
        r.1 == camera.y + if north {
            SPAWN_OFFSET_Y as int
        } else {
            -(SPAWN_OFFSET_Y as int)
        },
{
    let x = if east {
        camera.x + SPAWN_OFFSET_X
    } else {
        camera.x - SPAWN_OFFSET_X
    };
    let y = if north {
        camera.y + SPAWN_OFFSET_Y
    } else {
        camera.y - SPAWN_OFFSET_Y
    };
    (x, y)
}

/// An enemy as the spawn pass creates them: on one of the two spawn sides
/// per axis relative to the camera, with the fixed starting stats.
pub open spec fn spawned_from(camera: Camera, e: Enemy) -> bool {
    &&& (e.x == camera.x + SPAWN_OFFSET_X || e.x == camera.x - SPAWN_OFFSET_X)
    &&& (e.y == camera.y + SPAWN_OFFSET_Y || e.y == camera.y - SPAWN_OFFSET_Y)
    &&& e.move_speed == ENEMY_SPEED
    &&& e.size_x == ENEMY_SIZE
    &&& e.size_y == ENEMY_SIZE
    &&& e.health == ENEMY_START_HEALTH
}

/// Advance the spawn timer; on its completing tick, append one enemy with
/// the fixed starting stats at a randomly drawn spawn side per axis.
pub fn spawn_enemy(
    timer: &mut SpawnEnemyTimer,
    enemies: &mut Vec<Enemy>,
    camera: &Camera,
    dt: u64,
)
    requires
        old(timer).0.wf(),
        dt <= MAX_DELTA_MS,
        in_world(camera.x as int, camera.y as int),
    ensures
        final(timer).0 == old(timer).0.after(dt),
        final(timer).0.wf(),
        old(timer).0.after(dt).just_finished ==> {
            &&& final(enemies)@.len() == old(enemies)@.len() + 1
            &&& final(enemies)@.subrange(0, old(enemies)@.len() as int) == old(enemies)@
            &&& spawned_from(*camera, final(enemies)@.last())
            &&& final(enemies)@.last().wf()
        },
        !old(timer).0.after(dt).just_finished ==> final(enemies)@ == old(enemies)@,
{
    timer.0.advance(dt);
    if timer.0.is_just_complete() {
        let east: bool = rand::random();
        let north: bool = rand::random();
        let pos = spawn_position(camera, east, north);
        enemies.push(
            Enemy {
                x: pos.0,
                y: pos.1,
                move_speed: ENEMY_SPEED,
                size_x: ENEMY_SIZE,
                size_y: ENEMY_SIZE,
                health: ENEMY_START_HEALTH,
            },
        );
        proof {
            assert(enemies@.subrange(0, old(enemies)@.len() as int) =~= old(enemies)@);
        }
    }
}

/// An enemy after one homing step: it moves `move_speed * dt / 1000` units
/// along the unit direction toward the player, in the fixed-point sense;
/// an enemy exactly on the player does not move (no direction exists).
pub open spec fn homing_step(e: Enemy, px: int, py: int, dt: u64) -> Enemy {
    let dx = px - e.x;
    let dy = py - e.y;
    if dx == 0 && dy == 0 {
        e
    } else {
        let len = isqrt_spec(dist_sq(e.x as int, e.y as int, px, py) as nat) as int;
        let q = (e.move_speed as int) * (dt as int) / 1000;
        Enemy { x: (e.x + scaled(dx, q, len)) as i64, y: (e.y + scaled(dy, q, len)) as i64, ..e }
    }
}

/// An enemy exactly coincident with the player stays put for the tick; the
/// zero-distance case moves nothing rather than faulting.
pub proof fn lemma_coincident_enemy_rests(e: Enemy, dt: u64)
    ensures
        homing_step(e, e.x as int, e.y as int, dt) == e,
{
}

/// Move every enemy one homing step toward the player.
pub fn move_enemy(enemies: &mut Vec<Enemy>, player_x: i64, player_y: i64, dt: u64)
    requires
        in_world(player_x as int, player_y as int),
        dt <= MAX_DELTA_MS,
        forall|i: int|
            0 <= i < old(enemies)@.len() ==> (#[trigger] old(enemies)@[i]).wf() && in_world(
                old(enemies)@[i].x as int,
                old(enemies)@[i].y as int,
            ),
    ensures
        final(enemies)@.len() == old(enemies)@.len(),
        forall|i: int|
            0 <= i < old(enemies)@.len() ==> final(enemies)@[i] == homing_step(
                #[trigger] old(enemies)@[i],
                player_x as int,
                player_y as int,
                dt,
            ),
{
    let ghost orig = old(enemies)@;
    let mut idx: usize = 0;
    while idx < enemies.len()
        invariant
            idx <= orig.len(),
            enemies@.len() == orig.len(),
            dt <= MAX_DELTA_MS,
            in_world(player_x as int, player_y as int),
            forall|i: int|
                0 <= i < orig.len() ==> (#[trigger] orig[i]).wf() && in_world(
                    orig[i].x as int,
                    orig[i].y as int,
                ),
            forall|i: int| idx <= i < orig.len() ==> enemies@[i] == #[trigger] orig[i],
            forall|i: int|
                0 <= i < idx ==> enemies@[i] == homing_step(
                    #[trigger] orig[i],
                    player_x as int,
                    player_y as int,
                    dt,
                ),
        decreases orig.len() - idx,
    {
        let e = enemies[idx];
        proof {
            assert(e == orig[idx as int]);
        }
        let dx = player_x - e.x;
        let dy = player_y - e.y;
        if dx != 0 || dy != 0 {
            let d2 = dist_sq_exec(e.x, e.y, player_x, player_y);
            proof {
                assert(d2 == (dx as int) * (dx as int) + (dy as int) * (dy as int));
                if dx != 0 {
                    assert((dx as int) * (dx as int) >= 1) by (nonlinear_arith)
                        requires
                            dx != 0,
                    ;
                } else {
                    assert((dy as int) * (dy as int) >= 1) by (nonlinear_arith)
                        requires
                            dy != 0,
                    ;
                    assert((dx as int) * (dx as int) >= 0) by (nonlinear_arith);
                }
                assert((dy as int) * (dy as int) >= 0) by (nonlinear_arith);
                lemma_component_within_isqrt(dx as int, dy as int);
            }
            let len = isqrt(d2);
            let speed = e.move_speed;
            proof {
                assert((speed as int) * (dt as int) <= 1_000_000_000_000) by (nonlinear_arith)
                    requires
                        speed <= 1_000_000 && dt <= 1_000_000,
                ;
            }
            let q = speed * dt / 1000;
            let sx = scale_toward(dx, q, len);
            let sy = scale_toward(dy, q, len);
            enemies[idx] = Enemy { x: e.x + sx, y: e.y + sy, ..e };
        }
        idx = idx + 1;
    }
}

/// Contact between an enemy and a projectile: the enemy's own half-size
/// against the fixed projectile margin, strict on both bounds.
pub open spec fn overlaps_proj_enemy(e: Enemy, p: Projectile) -> bool {
    boxes_overlap_spec(
        e.x as int,
        e.y as int,
        e.size_x as int / 2,
        e.size_y as int / 2,
        p.x as int,
        p.y as int,
        PROJECTILE_MARGIN as int,
        PROJECTILE_MARGIN as int,
    )
}

/// The first enemy at or after index `i` that the projectile overlaps.
pub open spec fn first_hit_from(es: Seq<Enemy>, p: Projectile, i: int) -> Option<int>
    decreases es.len() - i,
{
    if i < 0 || i >= es.len() {
        Option::None
    } else if overlaps_proj_enemy(es[i], p) {
        Option::Some(i)
    } else {
        first_hit_from(es, p, i + 1)
    }
}

/// When no enemy before `i` overlaps, the scan from the start and the scan
/// from `i` agree.
proof fn lemma_first_hit_prefix(es: Seq<Enemy>, p: Projectile, i: int)
    requires
        0 <= i <= es.len(),
        forall|k: int| 0 <= k < i ==> !overlaps_proj_enemy(#[trigger] es[k], p),
    ensures
        first_hit_from(es, p, 0) == first_hit_from(es, p, i),
    decreases i,
{
    if i > 0 {
        lemma_first_hit_prefix(es, p, i - 1);
    }
}

/// An enemy after taking one hit.
pub open spec fn struck(e: Enemy) -> Enemy {
    Enemy { health: (e.health - 1) as i64, ..e }
}

/// What one landed hit does to the enemies and the pickups: an enemy whose
/// last health point is taken is removed and drops a pickup where it
/// stood; any other takes the hit and lives on.
pub open spec fn hit_outcome(enemies: Seq<Enemy>, pickups: Seq<ExperienceItem>, i: int) -> (
    Seq<Enemy>,
    Seq<ExperienceItem>,
) {
    if enemies[i].health <= 1 {
        (enemies.remove(i), pickups.push(dropped_at(enemies[i].x, enemies[i].y)))
    } else {
        (enemies.update(i, struck(enemies[i])), pickups)
    }
}

/// The world after one projectile–enemy collision pass: projectiles are
/// taken in order; each that overlaps an enemy is consumed by the first
/// such enemy (one hit, by `hit_outcome`, visible to every later
/// projectile in the same pass), the rest fly on.
pub open spec fn projectile_pass(
    projs: Seq<Projectile>,
    enemies: Seq<Enemy>,
    pickups: Seq<ExperienceItem>,
) -> (Seq<Projectile>, Seq<Enemy>, Seq<ExperienceItem>)
    decreases projs.len(),
{
    if projs.len() == 0 {
        (projs, enemies, pickups)
    } else {
        let rest = projs.drop_first();
        match first_hit_from(enemies, projs[0], 0) {
            Option::Some(i) => {
                let o = hit_outcome(enemies, pickups, i);
                projectile_pass(rest, o.0, o.1)
            },
            Option::None => {
                let r = projectile_pass(rest, enemies, pickups);
                (seq![projs[0]] + r.0, r.1, r.2)
            },
        }
    }
}

/// Index of the first enemy this projectile overlaps, if any.
fn find_first_hit(enemies: &Vec<Enemy>, p: &Projectile) -> (r: Option<usize>)
    requires
        in_world(p.x as int, p.y as int),
        forall|i: int|
            0 <= i < enemies@.len() ==> (#[trigger] enemies@[i]).wf() && in_world(
                enemies@[i].x as int,
                enemies@[i].y as int,
            ),
    ensures
        match r {
            Option::Some(i) => i < enemies@.len() && first_hit_from(enemies@, *p, 0)
                == Option::Some(i as int),
            Option::None => first_hit_from(enemies@, *p, 0) is None,
        },
{
    let mut i: usize = 0;
    while i < enemies.len()
        invariant
            i <= enemies@.len(),
            in_world(p.x as int, p.y as int),
            forall|j: int|
                0 <= j < enemies@.len() ==> (#[trigger] enemies@[j]).wf() && in_world(
                    enemies@[j].x as int,
                    enemies@[j].y as int,
                ),
            forall|k: int| 0 <= k < i ==> !overlaps_proj_enemy(#[trigger] enemies@[k], *p),
        decreases enemies@.len() - i,
    {
        let e = enemies[i];
        proof {
            assert(e == enemies@[i as int]);
        }
        let o = boxes_overlap(
            e.x,
            e.y,
            (e.size_x / 2) as i64,
            (e.size_y / 2) as i64,
            p.x,
            p.y,
            PROJECTILE_MARGIN as i64,
            PROJECTILE_MARGIN as i64,
        );
        if o {
            proof {
                lemma_first_hit_prefix(enemies@, *p, i as int);
            }
            return Option::Some(i);
        }
        i = i + 1;
    }
    proof {
        lemma_first_hit_prefix(enemies@, *p, enemies@.len() as int);
    }
    Option::None
}

/// One projectile–enemy collision pass over the whole world: every
/// projectile that overlaps an enemy is consumed, the struck enemy loses
/// one health or — on its last point — is destroyed and replaced by a
/// pickup at its position.
pub fn enemy_collision(
    projectiles: &mut Vec<Projectile>,
    enemies: &mut Vec<Enemy>,
    pickups: &mut Vec<ExperienceItem>,
)
    requires
        forall|i: int|
            0 <= i < old(enemies)@.len() ==> (#[trigger] old(enemies)@[i]).wf() && in_world(
                old(enemies)@[i].x as int,
                old(enemies)@[i].y as int,
            ),
        forall|i: int|
            0 <= i < old(projectiles)@.len() ==> in_world(
                (#[trigger] old(projectiles)@[i]).x as int,
                old(projectiles)@[i].y as int,
            ),
        forall|i: int|
            0 <= i < old(pickups)@.len() ==> (#[trigger] old(pickups)@[i]).wf() && in_world(
                old(pickups)@[i].x as int,
                old(pickups)@[i].y as int,
            ),
    ensures
        final(projectiles)@ == projectile_pass(old(projectiles)@, old(enemies)@, old(pickups)@).0,
        final(enemies)@ == projectile_pass(old(projectiles)@, old(enemies)@, old(pickups)@).1,
        final(pickups)@ == projectile_pass(old(projectiles)@, old(enemies)@, old(pickups)@).2,
        forall|i: int|
            0 <= i < final(enemies)@.len() ==> (#[trigger] final(enemies)@[i]).wf() && in_world(
                final(enemies)@[i].x as int,
                final(enemies)@[i].y as int,
            ),
        forall|i: int|
            0 <= i < final(pickups)@.len() ==> (#[trigger] final(pickups)@[i]).wf() && in_world(
                final(pickups)@[i].x as int,
                final(pickups)@[i].y as int,
            ),
{
    let ghost projs0 = old(projectiles)@;
    let ghost enemies0 = old(enemies)@;
    let ghost pickups0 = old(pickups)@;
    let ghost g = projectile_pass(projs0, enemies0, pickups0);
    let mut kept: Vec<Projectile> = Vec::new();
    let mut idx: usize = 0;
    proof {
        assert(projs0.skip(0) =~= projs0);
        assert(Seq::<Projectile>::empty() + g.0 =~= g.0);
    }
    while idx < projectiles.len()
        invariant
            idx <= projs0.len(),
            projectiles@ == projs0,
            g == projectile_pass(projs0, enemies0, pickups0),
            forall|i: int|
                0 <= i < projs0.len() ==> in_world(
                    (#[trigger] projs0[i]).x as int,
                    projs0[i].y as int,
                ),
            forall|i: int|
                0 <= i < enemies@.len() ==> (#[trigger] enemies@[i]).wf() && in_world(
                    enemies@[i].x as int,
                    enemies@[i].y as int,
                ),
            forall|i: int|
                0 <= i < pickups@.len() ==> (#[trigger] pickups@[i]).wf() && in_world(
                    pickups@[i].x as int,
                    pickups@[i].y as int,
                ),
            ({
                let r = projectile_pass(projs0.skip(idx as int), enemies@, pickups@);
                g.0 == kept@ + r.0 && g.1 == r.1 && g.2 == r.2
            }),
        decreases projs0.len() - idx,
    {
        let p = projectiles[idx];
        proof {
            assert(p == projs0[idx as int]);
            assert(projs0.skip(idx as int)[0] == projs0[idx as int]);
            assert(projs0.skip(idx as int).drop_first() =~= projs0.skip(idx as int + 1));
        }
        match find_first_hit(enemies, &p) {
            Option::Some(i) => {
                let e = enemies[i];
                proof {
                    assert(e == enemies@[i as int]);
                }
                if e.health <= 1 {
                    enemies.remove(i);
                    pickups.push(
                        ExperienceItem {
                            x: e.x,
                            y: e.y,
                            experience: PICKUP_VALUE,
                            size_x: PICKUP_SIZE,
                            size_y: PICKUP_SIZE,
                        },
                    );
                } else {
                    enemies[i] = Enemy { health: e.health - 1, ..e };
                }
            },
            Option::None => {
                proof {
                    let r = projectile_pass(projs0.skip(idx as int + 1), enemies@, pickups@);
                    assert(kept@ + (seq![p] + r.0) =~= kept@.push(p) + r.0);
                }
                kept.push(p);
            },
        }
        idx = idx + 1;
    }
    proof {
        assert(projs0.skip(projs0.len() as int) =~= Seq::<Projectile>::empty());
        assert(kept@ + Seq::<Projectile>::empty() =~= kept@);
    }
    *projectiles = kept;
}

/// The world holding one enemy and its drops after `n` landed hits, each
/// hit applied as the collision pass applies it (`hit_outcome`); once the
/// enemy is gone, further hits land on nothing.
pub open spec fn lone_enemy_after_hits(e: Enemy, n: nat) -> (Seq<Enemy>, Seq<ExperienceItem>)
    decreases n,
{
    if n == 0 {
        (seq![e], Seq::<ExperienceItem>::empty())
    } else {
        let prev = lone_enemy_after_hits(e, (n - 1) as nat);
        if prev.0.len() == 0 {
            prev
        } else {
            hit_outcome(prev.0, prev.1, 0)
        }
    }
}

/// Hits accumulate one by one: with starting health `h`, after `n < h`
/// hits the enemy stands with exactly `h - n` health and nothing has
/// dropped; the `h`-th hit destroys it, leaving exactly one pickup at its
/// position.
pub proof fn lemma_enemy_health_under_fire(e: Enemy, n: nat)
    requires
        e.health >= 1,
        n <= e.health,
    ensures
        n < e.health ==> lone_enemy_after_hits(e, n) == (
            seq![Enemy { health: (e.health - n) as i64, ..e }],
            Seq::<ExperienceItem>::empty(),
        ),
        n == e.health ==> lone_enemy_after_hits(e, n) == (
            Seq::<Enemy>::empty(),
            seq![dropped_at(e.x, e.y)],
        ),
    decreases n,
{
    if n == 0 {
        assert(Enemy { health: (e.health - 0) as i64, ..e } == e);
    } else {
        lemma_enemy_health_under_fire(e, (n - 1) as nat);
        let prev = lone_enemy_after_hits(e, (n - 1) as nat);
        let cur = Enemy { health: (e.health - (n - 1)) as i64, ..e };
        assert(prev.0 == seq![cur]);
        assert(prev.0.len() == 1);
        let o = hit_outcome(prev.0, prev.1, 0);
        assert(lone_enemy_after_hits(e, n) == o);
        if n < e.health {
            assert(cur.health >= 2);
            assert(o.0 =~= seq![struck(cur)]);
            assert(struck(cur) == Enemy { health: (e.health - n) as i64, ..e });
        } else {
            assert(cur.health == 1);
            assert(o.0 =~= Seq::<Enemy>::empty());
            assert(o.1 =~= seq![dropped_at(e.x, e.y)]);
        }
    }
}

} // verus!
