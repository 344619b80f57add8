//! Projectiles: fired at the nearest enemy, then gliding on a fixed
//! velocity until they hit something.

use vstd::prelude::*;
use crate::enemy::Enemy;
use crate::geometry::dist_sq;
use crate::geometry::dist_sq_exec;
use crate::geometry::in_world;
use crate::geometry::isqrt;
use crate::geometry::isqrt_spec;
use crate::geometry::lemma_component_within_isqrt;
use crate::geometry::lemma_isqrt_bounds;
use crate::geometry::lemma_scaled_bounded;
use crate::geometry::scale_toward;
use crate::geometry::scaled;
use crate::geometry::step_coord;
use crate::geometry::MAX_SIZE;
use crate::geometry::MAX_SPEED;
use crate::player::Player;
use crate::timer::Timer;
use crate::timer::MAX_DELTA_MS;

verus! {

/// Projectile speed, in world units per second.
pub const PROJECTILE_SPEED: u64 = 200;

/// Half-extent granted to a projectile when testing contact with an enemy.
pub const PROJECTILE_MARGIN: u64 = 5;

/// Width and height of a projectile, in world units.
pub const PROJECTILE_SIZE: u64 = 5;

/// Interval of the repeating fire timer, in milliseconds.
pub const FIRE_INTERVAL_MS: u64 = 4000;

/// A projectile in flight. The velocity is fixed at fire time; it does not
/// re-track its target.
#[derive(Clone, Copy, PartialEq, Eq, Structural)]
pub struct Projectile {
    pub x: i64,
    pub y: i64,
    pub x_speed: i64,
    pub y_speed: i64,
    pub size_x: u64,
    pub size_y: u64,
}

impl Projectile {
    /// Bounded velocity and extents.
    pub open spec fn wf(self) -> bool {
        &&& -(MAX_SPEED as int) <= self.x_speed <= MAX_SPEED as int
        &&& -(MAX_SPEED as int) <= self.y_speed <= MAX_SPEED as int
        &&& self.size_x <= MAX_SIZE
        &&& self.size_y <= MAX_SIZE
    }
}

/// The repeating clock that paces projectile fire.
#[derive(Clone, Copy, PartialEq, Eq, Structural)]
pub struct ProjectileTimer(pub Timer);

/// A projectile after gliding on its fixed velocity for `dt` milliseconds.
pub open spec fn glided(p: Projectile, dt: u64) -> Projectile {
    Projectile {
        x: (p.x + scaled(p.x_speed as int, dt as int, 1000)) as i64,
        y: (p.y + scaled(p.y_speed as int, dt as int, 1000)) as i64,
        ..p
    }
}

/// Advance every projectile by its own velocity over one frame.
pub fn update_projectiles(projectiles: &mut Vec<Projectile>, dt: u64)
    requires
        dt <= MAX_DELTA_MS,
        forall|i: int|
            0 <= i < old(projectiles)@.len() ==> (#[trigger] old(projectiles)@[i]).wf()
                && in_world(old(projectiles)@[i].x as int, old(projectiles)@[i].y as int),
    ensures
        final(projectiles)@.len() == old(projectiles)@.len(),
        forall|i: int|
            0 <= i < old(projectiles)@.len() ==> final(projectiles)@[i] == glided(
                #[trigger] old(projectiles)@[i],
                dt,
            ),
{
    let ghost orig = old(projectiles)@;
    let mut idx: usize = 0;
    while idx < projectiles.len()
        invariant
            idx <= orig.len(),
            projectiles@.len() == orig.len(),
            dt <= MAX_DELTA_MS,
            forall|i: int|
                0 <= i < orig.len() ==> (#[trigger] orig[i]).wf() && in_world(
                    orig[i].x as int,
                    orig[i].y as int,
                ),
            forall|i: int| idx <= i < orig.len() ==> projectiles@[i] == #[trigger] orig[i],
            forall|i: int| 0 <= i < idx ==> projectiles@[i] == glided(#[trigger] orig[i], dt),
        decreases orig.len() - idx,
    {
        let p = projectiles[idx];
        proof {
            assert(p == orig[idx as int]);
        }
        let nx = step_coord(p.x, p.x_speed, dt);
        let ny = step_coord(p.y, p.y_speed, dt);
        projectiles[idx] = Projectile { x: nx, y: ny, ..p };
        idx = idx + 1;
    }
}

/// The index scanning from `i` would settle on, starting from current best
/// `best`: only a strictly smaller squared distance displaces the best, so
/// the earliest of equally near enemies wins.
pub open spec fn first_min_from(es: Seq<Enemy>, px: int, py: int, i: int, best: int) -> int
    decreases es.len() - i,
{
    if i < 0 || i >= es.len() {
        best
    } else if dist_sq(px, py, es[i].x as int, es[i].y as int) < dist_sq(
        px,
        py,
        es[best].x as int,
        es[best].y as int,
    ) {
        first_min_from(es, px, py, i + 1, i)
    } else {
        first_min_from(es, px, py, i + 1, best)
    }
}

/// The enemy a fired projectile aims for: the first enemy at minimal
/// Euclidean distance from the player.
pub open spec fn nearest_enemy(es: Seq<Enemy>, px: int, py: int) -> int {
    first_min_from(es, px, py, 1, 0)
}

/// The projectile fired from the player at an enemy: it starts at the
/// player's position with the unit direction toward the enemy scaled to
/// `PROJECTILE_SPEED`.
pub open spec fn aimed_projectile(p: Player, e: Enemy) -> Projectile {
    let dx = e.x - p.x;
    let dy = e.y - p.y;
    let len = isqrt_spec(dist_sq(p.x as int, p.y as int, e.x as int, e.y as int) as nat) as int;
    Projectile {
        x: p.x,
        y: p.y,
        x_speed: scaled(dx as int, PROJECTILE_SPEED as int, len) as i64,
        y_speed: scaled(dy as int, PROJECTILE_SPEED as int, len) as i64,
        size_x: PROJECTILE_SIZE,
        size_y: PROJECTILE_SIZE,
    }
}

/// A projectile aimed at an enemy off the player's position starts at the
/// player and flies no faster than `PROJECTILE_SPEED` per component.
pub proof fn lemma_aimed_projectile_wf(p: Player, e: Enemy)
    requires
        dist_sq(p.x as int, p.y as int, e.x as int, e.y as int) != 0,
    ensures
        aimed_projectile(p, e).wf(),
        aimed_projectile(p, e).x == p.x,
        aimed_projectile(p, e).y == p.y,
{
    let dx = e.x - p.x as int;
    let dy = e.y - p.y as int;
    let d2 = dist_sq(p.x as int, p.y as int, e.x as int, e.y as int);
    assert(d2 == dx * dx + dy * dy);
    lemma_component_within_isqrt(dx, dy);
    let len = isqrt_spec(d2 as nat) as int;
    lemma_isqrt_bounds(d2 as nat);
    if len == 0 {
        assert(d2 < 1);
    }
    lemma_scaled_bounded(dx, PROJECTILE_SPEED as int, len);
    lemma_scaled_bounded(dy, PROJECTILE_SPEED as int, len);
}

/// `nearest_enemy` names what its scan computes: the enemy at minimal
/// squared distance from the player, the earliest one on ties.
pub proof fn lemma_nearest_enemy_is_min(es: Seq<Enemy>, px: int, py: int)
    requires
        es.len() > 0,
    ensures
        0 <= nearest_enemy(es, px, py) < es.len(),
        forall|j: int|
            0 <= j < es.len() ==> dist_sq(
                px,
                py,
                es[nearest_enemy(es, px, py)].x as int,
                es[nearest_enemy(es, px, py)].y as int,
            ) <= dist_sq(px, py, (#[trigger] es[j]).x as int, es[j].y as int),
        forall|j: int|
            0 <= j < nearest_enemy(es, px, py) ==> dist_sq(
                px,
                py,
                (#[trigger] es[j]).x as int,
                es[j].y as int,
            ) > dist_sq(px, py, es[nearest_enemy(es, px, py)].x as int, es[nearest_enemy(es, px, py)].y as int),
{
    lemma_first_min_from_is_min(es, px, py, 1, 0);
}

/// The running-best scan invariant: if `best` is the first minimum of the
/// prefix before `i`, the scan's answer is the first minimum of the whole
/// sequence.
proof fn lemma_first_min_from_is_min(es: Seq<Enemy>, px: int, py: int, i: int, best: int)
    requires
        1 <= i <= es.len(),
        0 <= best < i,
        forall|j: int|
            0 <= j < i ==> dist_sq(px, py, es[best].x as int, es[best].y as int) <= dist_sq(
                px,
                py,
                (#[trigger] es[j]).x as int,
                es[j].y as int,
            ),
        forall|j: int|
            0 <= j < best ==> dist_sq(px, py, (#[trigger] es[j]).x as int, es[j].y as int)
                > dist_sq(px, py, es[best].x as int, es[best].y as int),
    ensures
        ({
            let r = first_min_from(es, px, py, i, best);
            &&& 0 <= r < es.len()
            &&& forall|j: int|
                0 <= j < es.len() ==> dist_sq(px, py, es[r].x as int, es[r].y as int) <= dist_sq(
                    px,
                    py,
                    (#[trigger] es[j]).x as int,
                    es[j].y as int,
                )
            &&& forall|j: int|
                0 <= j < r ==> dist_sq(px, py, (#[trigger] es[j]).x as int, es[j].y as int)
                    > dist_sq(px, py, es[r].x as int, es[r].y as int)
        }),
    decreases es.len() - i,
{
    if i < es.len() {
        if dist_sq(px, py, es[i].x as int, es[i].y as int) < dist_sq(
            px,
            py,
            es[best].x as int,
            es[best].y as int,
        ) {
            lemma_first_min_from_is_min(es, px, py, i + 1, i);
        } else {
            lemma_first_min_from_is_min(es, px, py, i + 1, best);
        }
    }
}

/// What one completed fire tick adds: nothing when no enemy exists or the
/// nearest enemy sits exactly on the player (no direction to aim), else one
/// projectile aimed at the nearest enemy.
pub open spec fn fire_attempt(p: Player, enemies: Seq<Enemy>, projectiles: Seq<Projectile>) -> Seq<
    Projectile,
> {
    if enemies.len() == 0 {
        projectiles
    } else {
        let k = nearest_enemy(enemies, p.x as int, p.y as int);
        if dist_sq(p.x as int, p.y as int, enemies[k].x as int, enemies[k].y as int) == 0 {
            projectiles
        } else {
            projectiles.push(aimed_projectile(p, enemies[k]))
        }
    }
}

/// Advance the fire timer; on its completing tick, fire one projectile at
/// the nearest enemy, if any enemy lies in a fireable direction.
pub fn fire_projectile(
    timer: &mut ProjectileTimer,
    projectiles: &mut Vec<Projectile>,
    player: &Player,
    enemies: &Vec<Enemy>,
    dt: u64,
)
    requires
        old(timer).0.wf(),
        dt <= MAX_DELTA_MS,
        in_world(player.x as int, player.y as int),
        forall|i: int|
            0 <= i < enemies@.len() ==> in_world(
                (#[trigger] enemies@[i]).x as int,
                enemies@[i].y as int,
            ),
    ensures
        final(timer).0 == old(timer).0.after(dt),
        final(timer).0.wf(),
        old(timer).0.after(dt).just_finished ==> final(projectiles)@ == fire_attempt(
            *player,
            enemies@,
            old(projectiles)@,
        ),
        !old(timer).0.after(dt).just_finished ==> final(projectiles)@ == old(projectiles)@,
{
    timer.0.advance(dt);
    if !timer.0.is_just_complete() {
        return ;
    }
    if enemies.len() == 0 {
        return ;
    }
    let px = player.x;
    let py = player.y;
    let mut best: usize = 0;
    let mut best_d2 = dist_sq_exec(px, py, enemies[0].x, enemies[0].y);
    let mut i: usize = 1;
    while i < enemies.len()
        invariant
            1 <= i <= enemies@.len(),
            0 <= best < i,
            in_world(px as int, py as int),
            forall|j: int|
                0 <= j < enemies@.len() ==> in_world(
                    (#[trigger] enemies@[j]).x as int,
                    enemies@[j].y as int,
                ),
            best_d2 == dist_sq(px as int, py as int, enemies@[best as int].x as int, enemies@[best as int].y as int),
            nearest_enemy(enemies@, px as int, py as int) == first_min_from(
                enemies@,
                px as int,
                py as int,
                i as int,
                best as int,
            ),
        decreases enemies@.len() - i,
    {
        let d2 = dist_sq_exec(px, py, enemies[i].x, enemies[i].y);
        if d2 < best_d2 {
            best = i;
            best_d2 = d2;
        }
        i = i + 1;
    }
    let target = enemies[best];
    let d2 = dist_sq_exec(px, py, target.x, target.y);
    if d2 == 0 {
        return ;
    }
    let len = isqrt(d2);
    let dx = target.x - px;
    let dy = target.y - py;
    proof {
        lemma_component_within_isqrt(dx as int, dy as int);
        assert(dist_sq(px as int, py as int, target.x as int, target.y as int) == (dx as int) * (
        dx as int) + (dy as int) * (dy as int));
    }
    let vx = scale_toward(dx, PROJECTILE_SPEED, len);
    let vy = scale_toward(dy, PROJECTILE_SPEED, len);
    projectiles.push(
        Projectile {
            x: px,
            y: py,
            x_speed: vx,
            y_speed: vy,
            size_x: PROJECTILE_SIZE,
            size_y: PROJECTILE_SIZE,
        },
    );
}

} // verus!
