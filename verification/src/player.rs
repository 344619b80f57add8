//! The player: input-driven movement, the hit cooldown, and experience
//! collection with leveling.

use vstd::prelude::*;
use crate::enemy::Enemy;
use vstd::arithmetic::power2::pow2;
use vstd::arithmetic::power2::lemma_pow2_pos;
use vstd::arithmetic::power2::lemma_pow2_unfold;
use crate::experience_item::ExperienceItem;
use crate::experience_item::MAX_PICKUP_VALUE;
use crate::geometry::boxes_overlap;
use crate::geometry::boxes_overlap_spec;
use crate::geometry::in_world;
use crate::geometry::scaled;
use crate::geometry::MAX_SIZE;
use crate::geometry::MAX_SPEED;
use crate::timer::Timer;
use crate::timer::MAX_DELTA_MS;

verus! {

/// Starting health of a fresh player.
pub const PLAYER_START_HEALTH: i64 = 100;

/// Player movement speed, in world units per second.
pub const PLAYER_SPEED: u64 = 100;

/// Player bounding-box width and height, in world units.
pub const PLAYER_SIZE: u64 = 50;

/// Stored fire rate, in seconds per shot (kept as data; the projectile
/// module's timer drives actual firing).
pub const PLAYER_FIRE_RATE: u64 = 4;

/// Experience needed for the first level-up; doubles on each level-up.
pub const FIRST_LEVEL_THRESHOLD: u64 = 10;

/// Half-extent, in world units, granted to the other party when testing
/// contact between the player and an enemy or a pickup.
pub const CONTACT_MARGIN: u64 = 25;

/// The player avatar. Health is not clamped at zero; the level counter
/// starts at one and only grows.
#[derive(Clone, Copy, PartialEq, Eq, Structural)]
pub struct Player {
    pub x: i64,
    pub y: i64,
    pub health: i64,
    pub move_speed: u64,
    pub fire_rate: u64,
    pub size_x: u64,
    pub size_y: u64,
    pub experience: u64,
    pub level: u64,
    pub experience_to_next_level: u64,
    pub recently_hit: bool,
}

impl Player {
    /// Bounded speed and extents, a live level counter and a positive
    /// level-up threshold.
    pub open spec fn wf(self) -> bool {
        &&& self.move_speed <= MAX_SPEED
        &&& self.size_x <= MAX_SIZE
        &&& self.size_y <= MAX_SIZE
        &&& self.level >= 1
        &&& self.experience_to_next_level >= 1
    }

    /// A fresh player at the given position with the fixed starting stats.
    pub fn new(x: i64, y: i64) -> (player: Player)
        ensures
            player == (Player {
                x,
                y,
                health: PLAYER_START_HEALTH,
                move_speed: PLAYER_SPEED,
                fire_rate: PLAYER_FIRE_RATE,
                size_x: PLAYER_SIZE,
                size_y: PLAYER_SIZE,
                experience: 0,
                level: 1,
                experience_to_next_level: FIRST_LEVEL_THRESHOLD,
                recently_hit: false,
            }),
            player.wf(),
    {
        Player {
            x,
            y,
            health: PLAYER_START_HEALTH,
            move_speed: PLAYER_SPEED,
            fire_rate: PLAYER_FIRE_RATE,
            size_x: PLAYER_SIZE,
            size_y: PLAYER_SIZE,
            experience: 0,
            level: 1,
            experience_to_next_level: FIRST_LEVEL_THRESHOLD,
            recently_hit: false,
        }
    }
}

/// The hit-cooldown clock; while it has not completed, a hit player cannot
/// be hit again.
#[derive(Clone, Copy, PartialEq, Eq, Structural)]
pub struct PlayerHitTimer(pub Timer);

/// The player after one movement pass. Each pressed key contributes a full
/// `move_speed * dt / 1000` step on its axis, so diagonal movement is
/// additive and unnormalized, as designed.
pub open spec fn moved_player(p: Player, up: bool, down: bool, left: bool, right: bool, dt: u64) -> Player {
    let s = (p.move_speed as int) * (dt as int) / 1000;
    let x2 = p.x + (if right { s } else { 0 }) - (if left { s } else { 0 });
    let y2 = p.y + (if up { s } else { 0 }) - (if down { s } else { 0 });
    Player { x: x2 as i64, y: y2 as i64, ..p }
}

/// Move the player by the four directional key states over one frame.
pub fn sprite_movement(player: &mut Player, up: bool, down: bool, left: bool, right: bool, dt: u64)
    requires
        old(player).wf(),
        in_world(old(player).x as int, old(player).y as int),
        dt <= MAX_DELTA_MS,
    ensures
        *final(player) == moved_player(*old(player), up, down, left, right, dt),
        final(player).wf(),
{
    let speed = player.move_speed;
    proof {
        assert((speed as int) * (dt as int) <= 1_000_000_000_000) by (nonlinear_arith)
            requires
                speed <= 1_000_000 && dt <= 1_000_000,
        ;
    }
    let step = speed * dt / 1000;
    let s = step as i64;
    let mut x = player.x;
    let mut y = player.y;
    if up {
        y = y + s;
    }
    if down {
        y = y - s;
    }
    if left {
        x = x - s;
    }
    if right {
        x = x + s;
    }
    player.x = x;
    player.y = y;
}

/// The player's recently-hit flag clears whenever the cooldown timer
/// reports its completed state (level-triggered, fixed-phase).
pub fn update_hit_timer(player: &mut Player, timer: &mut PlayerHitTimer, dt: u64)
    requires
        old(timer).0.wf(),
        dt <= MAX_DELTA_MS,
    ensures
        final(timer).0 == old(timer).0.after(dt),
        final(timer).0.wf(),
        *final(player) == if old(timer).0.after(dt).finished {
            Player { recently_hit: false, ..*old(player) }
        } else {
            *old(player)
        },
{
    timer.0.advance(dt);
    if timer.0.is_complete() {
        player.recently_hit = false;
    }
}

/// Contact between the player and an enemy: the player's own half-size
/// against the fixed contact margin, strict on both bounds.
pub open spec fn overlaps_player_enemy(p: Player, e: Enemy) -> bool {
    boxes_overlap_spec(
        p.x as int,
        p.y as int,
        p.size_x as int / 2,
        p.size_y as int / 2,
        e.x as int,
        e.y as int,
        CONTACT_MARGIN as int,
        CONTACT_MARGIN as int,
    )
}

/// Some enemy is in contact with the player.
pub open spec fn any_enemy_contact(p: Player, enemies: Seq<Enemy>) -> bool {
    exists|i: int| 0 <= i < enemies.len() && overlaps_player_enemy(p, #[trigger] enemies[i])
}

/// The player after one enemy-contact pass: while the recently-hit
/// cooldown gate is up nothing happens; otherwise any contact — however
/// many enemies overlap at once — costs exactly one health and raises the
/// gate.
pub open spec fn player_after_contact(p: Player, enemies: Seq<Enemy>) -> Player {
    if !p.recently_hit && any_enemy_contact(p, enemies) {
        Player { health: (p.health - 1) as i64, recently_hit: true, ..p }
    } else {
        p
    }
}

/// One enemy-contact pass: at most one hit lands per tick regardless of
/// how many enemies overlap the player.
pub fn player_collision(player: &mut Player, enemies: &Vec<Enemy>)
    requires
        old(player).wf(),
        old(player).health > i64::MIN,
        in_world(old(player).x as int, old(player).y as int),
        forall|i: int|
            0 <= i < enemies@.len() ==> in_world(
                (#[trigger] enemies@[i]).x as int,
                enemies@[i].y as int,
            ),
    ensures
        *final(player) == player_after_contact(*old(player), enemies@),
        final(player).wf(),
{
    let mut contact = false;
    let mut i: usize = 0;
    while i < enemies.len()
        invariant
            i <= enemies@.len(),
            *player == *old(player),
            old(player).wf(),
            in_world(player.x as int, player.y as int),
            forall|j: int|
                0 <= j < enemies@.len() ==> in_world(
                    (#[trigger] enemies@[j]).x as int,
                    enemies@[j].y as int,
                ),
            contact == exists|j: int|
                0 <= j < i && overlaps_player_enemy(*player, #[trigger] enemies@[j]),
        decreases enemies@.len() - i,
    {
        let e = enemies[i];
        proof {
            assert(e == enemies@[i as int]);
        }
        let o = boxes_overlap(
            player.x,
            player.y,
            (player.size_x / 2) as i64,
            (player.size_y / 2) as i64,
            e.x,
            e.y,
            CONTACT_MARGIN as i64,
            CONTACT_MARGIN as i64,
        );
        if o {
            contact = true;
            proof {
                assert(overlaps_player_enemy(*player, enemies@[i as int]));
            }
        }
        i = i + 1;
    }
    if contact && !player.recently_hit {
        player.health = player.health - 1;
        player.recently_hit = true;
    }
}

/// Contact between the player and a pickup: the player's own half-size
/// against the fixed contact margin, strict on both bounds.
pub open spec fn overlaps_player_item(p: Player, it: ExperienceItem) -> bool {
    boxes_overlap_spec(
        p.x as int,
        p.y as int,
        p.size_x as int / 2,
        p.size_y as int / 2,
        it.x as int,
        it.y as int,
        CONTACT_MARGIN as int,
        CONTACT_MARGIN as int,
    )
}

/// The player after collecting one pickup worth `value` experience: the
/// value is added, then, if the total reaches the threshold, exactly one
/// level-up fires — experience resets to zero and the threshold doubles.
pub open spec fn collected(p: Player, value: u64) -> Player {
    let gained = p.experience + value;
    if gained >= p.experience_to_next_level {
        Player {
            experience: 0,
            level: (p.level + 1) as u64,
            experience_to_next_level: (p.experience_to_next_level * 2) as u64,
            ..p
        }
    } else {
        Player { experience: gained as u64, ..p }
    }
}

/// Collecting levels up at most once, however large the collected value:
/// after a level-up experience is exactly zero even when the pre-reset
/// total would also clear the doubled threshold.
pub proof fn lemma_collect_no_chaining(p: Player, value: u64)
    ensures
        collected(p, value).level <= p.level + 1,
        p.experience + value >= p.experience_to_next_level ==> collected(p, value) == (Player {
            experience: 0,
            level: (p.level + 1) as u64,
            experience_to_next_level: (p.experience_to_next_level * 2) as u64,
            ..p
        }),
        p.experience + value < p.experience_to_next_level ==> collected(p, value) == (Player {
            experience: (p.experience + value) as u64,
            ..p
        }),
{
}

/// The level-up threshold never decreases when a pickup is collected: it
/// either stays (no level-up) or doubles.
pub proof fn lemma_threshold_monotone(p: Player, value: u64)
    requires
        p.experience_to_next_level * 2 <= u64::MAX,
        p.level < u64::MAX,
    ensures
        collected(p, value).experience_to_next_level >= p.experience_to_next_level,
        collected(p, value).level >= p.level,
{
}

/// Add one pickup's experience to the player and apply at most one
/// level-up.
pub fn collect_pickup(player: &mut Player, value: u64)
    requires
        old(player).wf(),
        old(player).experience + value <= u64::MAX,
        old(player).experience_to_next_level * 2 <= u64::MAX,
        old(player).level + 1 <= u64::MAX,
    ensures
        *final(player) == collected(*old(player), value),
        final(player).wf(),
{
    player.experience = player.experience + value;
    if player.experience >= player.experience_to_next_level {
        player.level = player.level + 1;
        player.experience = 0;
        player.experience_to_next_level = player.experience_to_next_level * 2;
    }
}

/// The player and the surviving pickups after one collection pass:
/// pickups are visited in order, every pickup overlapping the player is
/// collected (its effects applying immediately) and removed, the rest stay.
pub open spec fn pickup_pass(p: Player, items: Seq<ExperienceItem>) -> (Player, Seq<
    ExperienceItem,
>)
    decreases items.len(),
{
    if items.len() == 0 {
        (p, Seq::<ExperienceItem>::empty())
    } else {
        let it = items[0];
        let rest = items.drop_first();
        if overlaps_player_item(p, it) {
            pickup_pass(collected(p, it.experience), rest)
        } else {
            let r = pickup_pass(p, rest);
            (r.0, seq![it] + r.1)
        }
    }
}

/// One pickup-collection pass: collect and despawn every pickup the player
/// overlaps, in order.
pub fn experience_collision(player: &mut Player, items: &mut Vec<ExperienceItem>)
    requires
        old(player).wf(),
        in_world(old(player).x as int, old(player).y as int),
        forall|i: int|
            0 <= i < old(items)@.len() ==> (#[trigger] old(items)@[i]).wf() && in_world(
                old(items)@[i].x as int,
                old(items)@[i].y as int,
            ),
        (old(player).experience_to_next_level as nat) * pow2(old(items)@.len() as nat)
            <= u64::MAX as nat,
        old(player).experience + old(items)@.len() * (MAX_PICKUP_VALUE as int) <= u64::MAX,
        old(player).level + old(items)@.len() <= u64::MAX,
    ensures
        *final(player) == pickup_pass(*old(player), old(items)@).0,
        final(items)@ == pickup_pass(*old(player), old(items)@).1,
        final(player).wf(),
{
    let ghost p0 = *old(player);
    let ghost items0 = old(items)@;
    let mut kept: Vec<ExperienceItem> = Vec::new();
    let mut idx: usize = 0;
    proof {
        assert(items0.skip(0) =~= items0);
        assert(Seq::<ExperienceItem>::empty() + pickup_pass(p0, items0).1 =~= pickup_pass(
            p0,
            items0,
        ).1);
    }
    while idx < items.len()
        invariant
            idx <= items0.len(),
            items@ == items0,
            player.wf(),
            in_world(player.x as int, player.y as int),
            forall|i: int|
                0 <= i < items0.len() ==> (#[trigger] items0[i]).wf() && in_world(
                    items0[i].x as int,
                    items0[i].y as int,
                ),
            (player.experience_to_next_level as nat) * pow2((items0.len() - idx) as nat)
                <= u64::MAX as nat,
            player.experience + (items0.len() - idx) * (MAX_PICKUP_VALUE as int) <= u64::MAX,
            player.level + (items0.len() - idx) <= u64::MAX,
            pickup_pass(p0, items0).0 == pickup_pass(*player, items0.skip(idx as int)).0,
            pickup_pass(p0, items0).1 == kept@ + pickup_pass(*player, items0.skip(idx as int)).1,
        decreases items0.len() - idx,
    {
        let ghost rem = (items0.len() - idx) as nat;
        let it = items[idx];
        proof {
            assert(items0.skip(idx as int)[0] == items0[idx as int]);
            assert(items0.skip(idx as int).drop_first() =~= items0.skip(idx as int + 1));
        }
        let overlap = boxes_overlap(
            player.x,
            player.y,
            (player.size_x / 2) as i64,
            (player.size_y / 2) as i64,
            it.x,
            it.y,
            CONTACT_MARGIN as i64,
            CONTACT_MARGIN as i64,
        );
        if overlap {
            proof {
                lemma_pow2_unfold(rem);
                lemma_pow2_pos((rem - 1) as nat);
                assert(pow2(rem) >= 2);
                let t = player.experience_to_next_level as int;
                let m = u64::MAX as int;
                assert(t * 2 <= m) by (nonlinear_arith)
                    requires
                        t * pow2(rem) <= m,
                        pow2(rem) >= 2,
                        t >= 0,
                ;
            }
            let ghost before = *player;
            collect_pickup(player, it.experience);
            proof {
                let t0 = before.experience_to_next_level as int;
                let t1 = player.experience_to_next_level as int;
                let m = u64::MAX as int;
                lemma_pow2_unfold(rem);
                lemma_pow2_pos((rem - 1) as nat);
                assert(t1 * pow2((rem - 1) as nat) <= m) by (nonlinear_arith)
                    requires
                        t0 * pow2(rem) <= m,
                        pow2(rem) == 2 * pow2((rem - 1) as nat),
                        pow2((rem - 1) as nat) >= 1,
                        t0 >= 0,
                        t1 == t0 || t1 == 2 * t0,
                ;
            }
        } else {
            proof {
                let t = player.experience_to_next_level as int;
                let m = u64::MAX as int;
                lemma_pow2_unfold(rem);
                lemma_pow2_pos((rem - 1) as nat);
                assert(t * pow2((rem - 1) as nat) <= m) by (nonlinear_arith)
                    requires
                        t * pow2(rem) <= m,
                        pow2(rem) == 2 * pow2((rem - 1) as nat),
                        pow2((rem - 1) as nat) >= 1,
                        t >= 0,
                ;
                let r = pickup_pass(*player, items0.skip(idx as int + 1));
                assert(kept@ + (seq![it] + r.1) =~= kept@.push(it) + r.1);
            }
            kept.push(it);
        }
        idx = idx + 1;
    }
    proof {
        assert(items0.skip(items0.len() as int) =~= Seq::<ExperienceItem>::empty());
        assert(kept@ + Seq::<ExperienceItem>::empty() =~= kept@);
    }
    *items = kept;
}

} // verus!
