//! The activity of spawners and mobs: dormant while the player is far,
//! active while it is near; what an active spawner and an active mob do.

use vstd::prelude::*;
use crate::geometry::{clamp_coordinate, farther_than, is_farther_than, shifted_x, Point3};
use crate::random::draw_between;
use crate::scatter::{placed_on_ring, scatter, Placement};
use crate::world::{find_player, player_found, single_player, Player, PlayerError};

verus! {

/// The distance, in sub-units, beyond which a spawner is dormant.
pub const SPAWNER_RANGE: u32 = 100_000;

/// The distance, in sub-units, beyond which a mob is dormant.
pub const MOB_RANGE: u32 = 50_000;

/// The cooldown of a spawner, in milliseconds, is drawn anew at each check
/// from `COOLDOWN_MIN..COOLDOWN_MAX`.
pub const COOLDOWN_MIN: u32 = 3000;

pub const COOLDOWN_MAX: u32 = 5000;

/// The number of mobs that a spawner releases at once.
pub const CLUSTER_SIZE: usize = 4;

/// The radius of a mob's body, in sub-units.
pub const MOB_RADIUS: i32 = 500;

/// The distance between two neighbours of a cluster: 1.1 times the radius.
pub const MOB_SPACING: i32 = 550;

/// The speed of a mob in pursuit, in sub-units per second.
pub const MOB_SPEED: i32 = 3000;

/// The tag that a released mob carries until it is first activated.
#[derive(Clone, Copy, Debug, PartialEq, Eq, Structural)]
pub struct TestStart(pub usize);

/// A spawner: where it stands, the time since it last released mobs, in
/// milliseconds, and whether it is dormant.
#[derive(Clone, Copy, Debug, PartialEq, Eq, Structural)]
pub struct Spawner {
    pub position: Point3,
    pub timer: u32,
    pub sleeping: bool,
}

/// A horizontal direction, not normalised.
#[derive(Clone, Copy, Debug, PartialEq, Eq, Structural)]
pub struct Heading {
    pub dx: i64,
    pub dz: i64,
}

/// A mob: where it stands, whether it is dormant, whether it is shown, and
/// the direction in which it moves and faces.
#[derive(Clone, Copy, Debug, PartialEq, Eq, Structural)]
pub struct Mob {
    pub position: Point3,
    pub sleeping: bool,
    pub visible: bool,
    pub heading: Heading,
}

/// A mob to create, with the tag it carries.
#[derive(Clone, Copy, Debug, PartialEq, Eq, Structural)]
pub struct MobSpawn {
    pub mob: Mob,
    pub tag: TestStart,
}

/// The spawner after a tick with the player at `player`: dormant exactly if
/// the player is farther than `SPAWNER_RANGE`.
pub open spec fn spawner_near(spawner: Spawner, player: Point3) -> Spawner {
    Spawner { sleeping: farther_than(player, spawner.position, SPAWNER_RANGE), ..spawner }
}

/// The horizontal direction from `from` to `to`.
pub open spec fn heading_to(from: Point3, to: Point3) -> Heading {
    Heading { dx: (to.x - from.x) as i64, dz: (to.z - from.z) as i64 }
}

/// The mob after a tick with the player at `player`. Farther than
/// `MOB_RANGE` it is dormant and hidden, its heading as it was. Within the
/// range it is active and heads for the player; one that was dormant shows
/// again.
pub open spec fn mob_near(mob: Mob, player: Point3) -> Mob {
    if farther_than(player, mob.position, MOB_RANGE) {
        Mob { sleeping: true, visible: false, ..mob }
    } else {
        Mob {
            sleeping: false,
            visible: if mob.sleeping {
                true
            } else {
                mob.visible
            },
            heading: heading_to(mob.position, player),
            ..mob
        }
    }
}

/// Dormancy follows the distance alone: a spawner or mob is dormant after a
/// tick exactly if the player is strictly farther than its range, whatever
/// it was before. At exactly the range it is active.
pub proof fn lemma_activity_follows_distance(spawner: Spawner, mob: Mob, player: Point3)
    ensures
        spawner_near(spawner, player).sleeping == farther_than(
            player,
            spawner.position,
            SPAWNER_RANGE,
        ),
        mob_near(mob, player).sleeping == farther_than(player, mob.position, MOB_RANGE),
        mob_near(mob, player).sleeping ==> !mob_near(mob, player).visible,
        mob.sleeping && !mob_near(mob, player).sleeping ==> mob_near(mob, player).visible,
{
}

/// A second tick with nothing moved changes nothing: no state flips back
/// and forth, at the range or elsewhere.
pub proof fn lemma_activity_is_stable(spawner: Spawner, mob: Mob, player: Point3)
    ensures
        spawner_near(spawner_near(spawner, player), player) == spawner_near(spawner, player),
        mob_near(mob_near(mob, player), player) == mob_near(mob, player),
{
}

/// The spawners after a tick: each set by its distance to the one player;
/// all as they were without exactly one player.
pub open spec fn spawners_near(spawners: Seq<Spawner>, players: Seq<Player>) -> Seq<Spawner> {
    match single_player(players) {
        Ok(player) => Seq::new(spawners.len(), |i: int| spawner_near(spawners[i], player)),
        Err(_) => spawners,
    }
}

/// The mobs after a tick: each set by its distance to the one player; all
/// as they were without exactly one player.
pub open spec fn mobs_near(mobs: Seq<Mob>, players: Seq<Player>) -> Seq<Mob> {
    match single_player(players) {
        Ok(player) => Seq::new(mobs.len(), |i: int| mob_near(mobs[i], player)),
        Err(_) => mobs,
    }
}

/// Sets each spawner dormant or active by its distance to the player.
/// Without exactly one player the tick fails and changes nothing.
pub fn update_spawner(players: &Vec<Player>, spawners: &mut Vec<Spawner>) -> (result: Result<
    (),
    PlayerError,
>)
    ensures
        result == player_found(players@),
        final(spawners)@ == spawners_near(old(spawners)@, players@),
{
    let player_position = match find_player(players) {
        Ok(position) => position,
        Err(error) => {
            return Err(error);
        },
    };
    let ghost goal = Seq::new(
        old(spawners)@.len(),
        |i: int| spawner_near(old(spawners)@[i], player_position),
    );
    let mut i: usize = 0;
    while i < spawners.len()
        invariant
            i <= spawners.len(),
            spawners@.len() == old(spawners)@.len(),
            goal == Seq::new(
                old(spawners)@.len(),
                |i: int| spawner_near(old(spawners)@[i], player_position),
            ),
            forall|j: int| 0 <= j < i ==> spawners@[j] == goal[j],
            forall|j: int| i <= j < spawners@.len() ==> spawners@[j] == old(spawners)@[j],
        decreases spawners.len() - i,
    {
        let far = is_farther_than(player_position, spawners[i].position, SPAWNER_RANGE);
        spawners[i].sleeping = far;
        i = i + 1;
    }
    proof {
        assert(spawners@ =~= goal);
    }
    Ok(())
}

/// Sets each mob dormant or active by its distance to the player, and heads
/// the active ones for the player. Without exactly one player the tick
/// fails and changes nothing.
pub fn update_mobs(players: &Vec<Player>, mobs: &mut Vec<Mob>) -> (result: Result<(), PlayerError>)
    ensures
        result == player_found(players@),
        final(mobs)@ == mobs_near(old(mobs)@, players@),
{
    let player_position = match find_player(players) {
        Ok(position) => position,
        Err(error) => {
            return Err(error);
        },
    };
    let ghost goal = Seq::new(
        old(mobs)@.len(),
        |i: int| mob_near(old(mobs)@[i], player_position),
    );
    let mut i: usize = 0;
    while i < mobs.len()
        invariant
            i <= mobs.len(),
            mobs@.len() == old(mobs)@.len(),
            goal == Seq::new(old(mobs)@.len(), |i: int| mob_near(old(mobs)@[i], player_position)),
            forall|j: int| 0 <= j < i ==> mobs@[j] == goal[j],
            forall|j: int| i <= j < mobs@.len() ==> mobs@[j] == old(mobs)@[j],
        decreases mobs.len() - i,
    {
        let mob = mobs[i];
        if is_farther_than(player_position, mob.position, MOB_RANGE) {
            mobs[i].visible = false;
            mobs[i].sleeping = true;
        } else if mob.sleeping {
            mobs[i].sleeping = false;
            mobs[i].visible = true;
        }
        if !mobs[i].sleeping {
            mobs[i].heading = Heading {
                dx: player_position.x as i64 - mob.position.x as i64,
                dz: player_position.z as i64 - mob.position.z as i64,
            };
        }
        i = i + 1;
    }
    proof {
        assert(mobs@ =~= goal);
    }
    Ok(())
}

/// The timer of a spawner after `dt` more milliseconds. It stops at the end
/// of its range.
pub open spec fn elapsed_after(timer: u32, dt: u32) -> u32 {
    if timer + dt > u32::MAX {
        u32::MAX
    } else {
        (timer + dt) as u32
    }
}

/// An active spawner releases mobs once its time exceeds the cooldown drawn
/// for this check. A dormant spawner never does.
pub open spec fn fires(spawner: Spawner, dt: u32, cooldown: u32) -> bool {
    !spawner.sleeping && elapsed_after(spawner.timer, dt) > cooldown
}

/// The spawner after a check: a dormant one is as before; an active one has
/// its timer advanced by `dt`, or back at zero where it released mobs.
pub open spec fn spawner_after(spawner: Spawner, dt: u32, cooldown: u32) -> Spawner {
    if spawner.sleeping {
        spawner
    } else if fires(spawner, dt, cooldown) {
        Spawner { timer: 0, ..spawner }
    } else {
        Spawner { timer: elapsed_after(spawner.timer, dt), ..spawner }
    }
}

/// Mob `k` of a cluster released at `origin`: `k` spacings along the x axis,
/// dormant, hidden and at rest.
pub open spec fn released(origin: Point3, k: int) -> MobSpawn {
    MobSpawn {
        mob: Mob {
            position: Point3 {
                x: clamp_coordinate(origin.x + k * MOB_SPACING) as i32,
                y: origin.y,
                z: origin.z,
            },
            sleeping: true,
            visible: false,
            heading: Heading { dx: 0, dz: 0 },
        },
        tag: TestStart(0),
    }
}

/// The cluster released at `origin`.
pub open spec fn cluster(origin: Point3) -> Seq<MobSpawn> {
    Seq::new(CLUSTER_SIZE as nat, |k: int| released(origin, k))
}

/// What a spawner releases at a check.
pub open spec fn released_by(spawner: Spawner, dt: u32, cooldown: u32) -> Seq<MobSpawn> {
    if fires(spawner, dt, cooldown) {
        cluster(spawner.position)
    } else {
        Seq::empty()
    }
}

/// What the first `count` spawners release at a check, in their order;
/// spawner `i` is checked against `cooldowns[i]`.
pub open spec fn released_upto(
    spawners: Seq<Spawner>,
    dt: u32,
    cooldowns: Seq<u32>,
    count: nat,
) -> Seq<MobSpawn>
    decreases count,
{
    if count == 0 {
        Seq::empty()
    } else {
        released_upto(spawners, dt, cooldowns, (count - 1) as nat) + released_by(
            spawners[count - 1],
            dt,
            cooldowns[count - 1],
        )
    }
}

/// One cooldown for each of `count` spawners, each from
/// `COOLDOWN_MIN..COOLDOWN_MAX`.
pub open spec fn cooldowns_for(cooldowns: Seq<u32>, count: nat) -> bool {
    &&& cooldowns.len() == count
    &&& forall|i: int| 0 <= i < count ==> COOLDOWN_MIN <= #[trigger] cooldowns[i] < COOLDOWN_MAX
}

proof fn lemma_released_upto_reads_prefix(
    spawners: Seq<Spawner>,
    dt: u32,
    a: Seq<u32>,
    b: Seq<u32>,
    count: nat,
)
    requires
        count <= a.len(),
        count <= b.len(),
        forall|i: int| 0 <= i < count ==> a[i] == b[i],
    ensures
        released_upto(spawners, dt, a, count) == released_upto(spawners, dt, b, count),
    decreases count,
{
    if count > 0 {
        lemma_released_upto_reads_prefix(spawners, dt, a, b, (count - 1) as nat);
    }
}

/// A spawner whose time exceeds every cooldown that can be drawn releases
/// its cluster and starts over, whatever was drawn; one whose time exceeds
/// none keeps counting.
pub proof fn lemma_cooldown_decides(spawner: Spawner, dt: u32, cooldown: u32)
    requires
        !spawner.sleeping,
        COOLDOWN_MIN <= cooldown < COOLDOWN_MAX,
    ensures
        elapsed_after(spawner.timer, dt) >= COOLDOWN_MAX ==> spawner_after(
            spawner,
            dt,
            cooldown,
        ).timer == 0 && released_by(spawner, dt, cooldown) == cluster(spawner.position),
        elapsed_after(spawner.timer, dt) <= COOLDOWN_MIN ==> spawner_after(
            spawner,
            dt,
            cooldown,
        ).timer == elapsed_after(spawner.timer, dt) && released_by(spawner, dt, cooldown).len()
            == 0,
        cluster(spawner.position).len() == CLUSTER_SIZE,
{
}

impl Spawner {
    /// A spawner at `position`, dormant, its timer at zero.
    pub fn new(position: Point3) -> (spawner: Spawner)
        ensures
            spawner == (Spawner { position, timer: 0, sleeping: true }),
    {
        Spawner { position, timer: 0, sleeping: true }
    }

    /// Checks the spawner after `dt` more milliseconds against the cooldown
    /// drawn for this check, and returns the mobs it releases.
    pub fn tick(&mut self, dt: u32, cooldown: u32) -> (mobs: Vec<MobSpawn>)
        ensures
            *final(self) == spawner_after(*old(self), dt, cooldown),
            mobs@ == released_by(*old(self), dt, cooldown),
    {
        let mut mobs: Vec<MobSpawn> = Vec::new();
        if self.sleeping {
            return mobs;
        }
        let elapsed: u32 = if self.timer > u32::MAX - dt {
            u32::MAX
        } else {
            self.timer + dt
        };
        if elapsed > cooldown {
            let origin = self.position;
            let mut count: usize = 0;
            while count < CLUSTER_SIZE
                invariant
                    count <= CLUSTER_SIZE,
                    mobs@ == Seq::new(count as nat, |k: int| released(origin, k)),
                decreases CLUSTER_SIZE - count,
            {
                let offset: i32 = MOB_SPACING * (count as i32);
                mobs.push(
                    MobSpawn {
                        mob: Mob {
                            position: shifted_x(origin, offset),
                            sleeping: true,
                            visible: false,
                            heading: Heading { dx: 0, dz: 0 },
                        },
                        tag: TestStart(0),
                    },
                );
                count = count + 1;
                proof {
                    assert(mobs@ =~= Seq::new(count as nat, |k: int| released(origin, k)));
                }
            }
            self.timer = 0;
        } else {
            self.timer = elapsed;
        }
        mobs
    }
}

/// A check of all spawners after `dt` more milliseconds: for some cooldowns,
/// one drawn for each spawner, every spawner is as its check leaves it, and
/// the mobs are those that the spawners release, in the order of the
/// spawners.
pub open spec fn is_check(
    spawners: Seq<Spawner>,
    dt: u32,
    spawners_after: Seq<Spawner>,
    mobs: Seq<MobSpawn>,
) -> bool {
    exists|cooldowns: Seq<u32>|
        {
            &&& #[trigger] cooldowns_for(cooldowns, spawners.len())
            &&& spawners_after == Seq::new(
                spawners.len(),
                |i: int| spawner_after(spawners[i], dt, cooldowns[i]),
            )
            &&& mobs == released_upto(spawners, dt, cooldowns, spawners.len())
        }
}

/// Checks every spawner after `dt` more milliseconds, each active one
/// against a cooldown drawn for it, and returns the mobs released, in the
/// order of the spawners.
pub fn spawning(dt: u32, spawners: &mut Vec<Spawner>) -> (mobs: Vec<MobSpawn>)
    ensures
        is_check(old(spawners)@, dt, final(spawners)@, mobs@),
{
    let mut rng = rand::thread_rng();
    let mut mobs: Vec<MobSpawn> = Vec::new();
    let ghost mut drawn: Seq<u32> = Seq::empty();
    let mut i: usize = 0;
    while i < spawners.len()
        invariant
            i <= spawners.len(),
            spawners@.len() == old(spawners)@.len(),
            cooldowns_for(drawn, i as nat),
            forall|j: int|
                0 <= j < i ==> spawners@[j] == spawner_after(old(spawners)@[j], dt, drawn[j]),
            forall|j: int| i <= j < spawners@.len() ==> spawners@[j] == old(spawners)@[j],
            mobs@ == released_upto(old(spawners)@, dt, drawn, i as nat),
        decreases spawners.len() - i,
    {
        let ghost before = drawn;
        let mut cooldown: u32 = COOLDOWN_MIN;
        if !spawners[i].sleeping {
            cooldown = draw_between(&mut rng, COOLDOWN_MIN, COOLDOWN_MAX);
        }
        let mut spawner = spawners[i];
        let mut released = spawner.tick(dt, cooldown);
        spawners.set(i, spawner);
        mobs.append(&mut released);
        proof {
            drawn = drawn.push(cooldown);
            lemma_released_upto_reads_prefix(old(spawners)@, dt, before, drawn, i as nat);
        }
        i = i + 1;
    }
    proof {
        assert(spawners@ =~= Seq::new(
            old(spawners)@.len(),
            |i: int| spawner_after(old(spawners)@[i], dt, drawn[i]),
        ));
        assert(cooldowns_for(drawn, old(spawners)@.len()));
    }
    mobs
}

/// The number of spawners that are set out around the player.
pub const SPAWNER_COUNT: usize = 200;

/// Spawners are set out between these distances from the player, in
/// sub-units.
pub const SPAWNER_RING_MIN: u32 = 20_000;

pub const SPAWNER_RING_MAX: u32 = 150_000;

/// The spawners stand on a ring around `player`, one at each of
/// `SPAWNER_COUNT` places.
pub open spec fn spawner_ring(places: Seq<Placement>, player: Point3) -> bool {
    &&& places.len() == SPAWNER_COUNT
    &&& forall|i: int|
        0 <= i < SPAWNER_COUNT ==> placed_on_ring(
            #[trigger] places[i],
            player,
            SPAWNER_RING_MIN,
            SPAWNER_RING_MAX,
        )
}

/// Draws the places of the spawners around the player. Without exactly one
/// player nothing is drawn.
pub fn add_spawner(players: &Vec<Player>) -> (result: Result<Vec<Placement>, PlayerError>)
    ensures
        single_player(players@) matches Ok(player) ==> result.is_ok() && spawner_ring(
            result.unwrap()@,
            player,
        ),
        single_player(players@) matches Err(error) ==> result matches Err(reported) && reported
            == error,
{
    match find_player(players) {
        Ok(position) => Ok(scatter(position, SPAWNER_COUNT, SPAWNER_RING_MIN, SPAWNER_RING_MAX)),
        Err(error) => Err(error),
    }
}

} // verus!
