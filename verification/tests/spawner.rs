use world_core::geometry::Point3;
use world_core::spawner::{
    add_spawner, spawning, update_mobs, update_spawner, Heading, Mob, MobSpawn, Spawner,
    TestStart, CLUSTER_SIZE, COOLDOWN_MAX, COOLDOWN_MIN, MOB_RADIUS, MOB_RANGE, MOB_SPACING,
    SPAWNER_COUNT, SPAWNER_RANGE, SPAWNER_RING_MAX, SPAWNER_RING_MIN,
};
use world_core::scatter::FULL_TURN;
use world_core::world::{Player, PlayerError};

fn at(x: i32, y: i32, z: i32) -> Point3 {
    Point3 { x, y, z }
}

fn player_at(x: i32, y: i32, z: i32) -> Vec<Player> {
    vec![Player { position: at(x, y, z) }]
}

fn spawner(x: i32, timer: u32, sleeping: bool) -> Spawner {
    Spawner { position: at(x, 0, 0), timer, sleeping }
}

fn mob(x: i32, sleeping: bool, visible: bool) -> Mob {
    Mob { position: at(x, 0, 0), sleeping, visible, heading: Heading { dx: 9, dz: 9 } }
}

#[test]
fn the_activity_constants_are_those_of_the_game() {
    assert_eq!(SPAWNER_RANGE, 100_000);
    assert_eq!(MOB_RANGE, 50_000);
    assert_eq!((COOLDOWN_MIN, COOLDOWN_MAX), (3000, 5000));
    assert_eq!(CLUSTER_SIZE, 4);
    assert_eq!(MOB_RADIUS, 500);
    assert_eq!(MOB_SPACING, 550);
}

#[test]
fn a_spawner_is_dormant_beyond_its_range_and_active_within() {
    let mut spawners = vec![
        spawner(100_001, 7, false),
        spawner(100_000, 7, true),
        spawner(99_999, 7, true),
        spawner(-100_001, 7, false),
        spawner(0, 7, false),
    ];
    assert_eq!(update_spawner(&player_at(0, 0, 0), &mut spawners), Ok(()));
    let sleeping: Vec<bool> = spawners.iter().map(|s| s.sleeping).collect();
    assert_eq!(sleeping, vec![true, false, false, true, false]);
    assert!(spawners.iter().all(|s| s.timer == 7));
}

#[test]
fn a_spawner_at_the_threshold_does_not_thrash() {
    let mut spawners = vec![spawner(100_000, 0, true)];
    for _ in 0..5 {
        assert_eq!(update_spawner(&player_at(0, 0, 0), &mut spawners), Ok(()));
        assert!(!spawners[0].sleeping);
    }
    let mut mobs = vec![mob(50_000, true, false)];
    for _ in 0..5 {
        assert_eq!(update_mobs(&player_at(0, 0, 0), &mut mobs), Ok(()));
        assert!(!mobs[0].sleeping);
        assert!(mobs[0].visible);
    }
}

#[test]
fn a_spawner_that_comes_within_range_wakes_within_one_tick() {
    let mut spawners = vec![spawner(150_000, 0, false)];
    assert_eq!(update_spawner(&player_at(0, 0, 0), &mut spawners), Ok(()));
    assert!(spawners[0].sleeping);
    spawners[0].position = at(80_000, 0, 0);
    assert_eq!(update_spawner(&player_at(0, 0, 0), &mut spawners), Ok(()));
    assert!(!spawners[0].sleeping);
}

#[test]
fn the_height_of_the_player_counts_for_the_distance() {
    let mut spawners = vec![spawner(100_000, 0, false)];
    assert_eq!(update_spawner(&player_at(0, 1_000, 0), &mut spawners), Ok(()));
    assert!(spawners[0].sleeping);
}

#[test]
fn a_tick_without_exactly_one_player_fails_and_changes_nothing() {
    let before = vec![spawner(150_000, 3, false), spawner(0, 3, true)];
    let mut spawners = before.clone();
    assert_eq!(update_spawner(&vec![], &mut spawners), Err(PlayerError::NoPlayer));
    assert_eq!(spawners, before);
    let two = vec![Player { position: at(0, 0, 0) }, Player { position: at(1, 1, 1) }];
    assert_eq!(update_spawner(&two, &mut spawners), Err(PlayerError::ManyPlayers));
    assert_eq!(spawners, before);

    let mobs_before = vec![mob(60_000, false, true), mob(0, true, false)];
    let mut mobs = mobs_before.clone();
    assert_eq!(update_mobs(&vec![], &mut mobs), Err(PlayerError::NoPlayer));
    assert_eq!(mobs, mobs_before);
    assert_eq!(update_mobs(&two, &mut mobs), Err(PlayerError::ManyPlayers));
    assert_eq!(mobs, mobs_before);
    assert_eq!(add_spawner(&vec![]), Err(PlayerError::NoPlayer));
    assert_eq!(add_spawner(&two), Err(PlayerError::ManyPlayers));
}

#[test]
fn a_far_mob_is_hidden_and_keeps_its_heading() {
    let mut mobs = vec![mob(50_001, false, true)];
    assert_eq!(update_mobs(&player_at(0, 0, 0), &mut mobs), Ok(()));
    assert_eq!(
        mobs[0],
        Mob {
            position: at(50_001, 0, 0),
            sleeping: true,
            visible: false,
            heading: Heading { dx: 9, dz: 9 },
        }
    );
}

#[test]
fn a_dormant_mob_within_range_wakes_shows_and_heads_for_the_player() {
    let mut mobs = vec![Mob {
        position: at(1_000, 500, -2_000),
        sleeping: true,
        visible: false,
        heading: Heading { dx: 0, dz: 0 },
    }];
    assert_eq!(update_mobs(&player_at(4_000, 9_000, 2_000), &mut mobs), Ok(()));
    assert_eq!(
        mobs[0],
        Mob {
            position: at(1_000, 500, -2_000),
            sleeping: false,
            visible: true,
            heading: Heading { dx: 3_000, dz: 4_000 },
        }
    );
}

#[test]
fn an_active_mob_within_range_keeps_its_visibility() {
    let mut mobs = vec![mob(10_000, false, false)];
    assert_eq!(update_mobs(&player_at(0, 0, 0), &mut mobs), Ok(()));
    assert!(!mobs[0].sleeping);
    assert!(!mobs[0].visible);
    assert_eq!(mobs[0].heading, Heading { dx: -10_000, dz: 0 });
}

#[test]
fn headings_do_not_overflow_at_the_ends_of_the_range() {
    let mut mobs = vec![Mob {
        position: at(i32::MAX, 0, i32::MIN),
        sleeping: false,
        visible: true,
        heading: Heading { dx: 0, dz: 0 },
    }];
    assert_eq!(update_mobs(&player_at(i32::MAX, 0, i32::MIN), &mut mobs), Ok(()));
    assert_eq!(mobs[0].heading, Heading { dx: 0, dz: 0 });
    assert!(!mobs[0].sleeping);
}

#[test]
fn a_new_spawner_is_dormant_with_its_timer_at_zero() {
    assert_eq!(
        Spawner::new(at(1, 2, 3)),
        Spawner { position: at(1, 2, 3), timer: 0, sleeping: true }
    );
}

#[test]
fn a_spawner_releases_four_mobs_once_its_time_exceeds_the_cooldown() {
    let mut s = Spawner { position: at(10_000, 1_000, -3_000), timer: 2_000, sleeping: false };
    assert!(s.tick(1_500, 3_500).is_empty());
    assert_eq!(s.timer, 3_500);
    let mobs = s.tick(1, 3_500);
    assert_eq!(s.timer, 0);
    assert!(!s.sleeping);
    let expected: Vec<MobSpawn> = [10_000, 10_550, 11_100, 11_650]
        .iter()
        .map(|x| MobSpawn {
            mob: Mob {
                position: at(*x, 1_000, -3_000),
                sleeping: true,
                visible: false,
                heading: Heading { dx: 0, dz: 0 },
            },
            tag: TestStart(0),
        })
        .collect();
    assert_eq!(mobs, expected);
}

#[test]
fn a_dormant_spawner_does_not_count_or_spawn() {
    let mut s = spawner(0, 4_000, true);
    assert!(s.tick(10_000, 3_000).is_empty());
    assert_eq!(s, spawner(0, 4_000, true));
    let mut spawners = vec![spawner(0, 4_000, true)];
    assert!(spawning(60_000, &mut spawners).is_empty());
    assert_eq!(spawners, vec![spawner(0, 4_000, true)]);
}

#[test]
fn the_timer_stops_at_the_end_of_its_range() {
    let mut s = spawner(0, u32::MAX - 5, false);
    assert!(s.tick(100, u32::MAX).is_empty());
    assert_eq!(s.timer, u32::MAX);
}

#[test]
fn a_cluster_stops_at_the_end_of_the_coordinate_range() {
    let mut s = spawner(i32::MAX - 600, 0, false);
    let mobs = s.tick(10, 5);
    let xs: Vec<i32> = mobs.iter().map(|m| m.mob.position.x).collect();
    assert_eq!(xs, vec![i32::MAX - 600, i32::MAX - 50, i32::MAX, i32::MAX]);
}

#[test]
fn spawning_draws_a_cooldown_between_three_and_five_seconds() {
    // At three seconds no cooldown is exceeded, at five seconds every one is.
    let mut spawners = vec![spawner(0, 0, false), spawner(7_000, 1_000, false)];
    assert!(spawning(2_000, &mut spawners).is_empty());
    assert_eq!(spawners[0].timer, 2_000);
    assert_eq!(spawners[1].timer, 3_000);
    assert!(spawning(0, &mut spawners).is_empty());
    let mobs = spawning(3_000, &mut spawners);
    assert_eq!(mobs.len(), 8);
    assert_eq!(spawners[0].timer, 0);
    assert_eq!(spawners[1].timer, 0);
    let xs: Vec<i32> = mobs.iter().map(|m| m.mob.position.x).collect();
    assert_eq!(xs, vec![0, 550, 1_100, 1_650, 7_000, 7_550, 8_100, 8_650]);
    assert!(mobs.iter().all(|m| m.mob.sleeping && !m.mob.visible && m.tag == TestStart(0)));
}

#[test]
fn between_three_and_five_seconds_the_draw_decides() {
    let mut fired = 0;
    let mut held = 0;
    for _ in 0..400 {
        let mut spawners = vec![spawner(0, 0, false)];
        let mobs = spawning(4_000, &mut spawners);
        if mobs.is_empty() {
            assert_eq!(spawners[0].timer, 4_000);
            held += 1;
        } else {
            assert_eq!(mobs.len(), 4);
            assert_eq!(spawners[0].timer, 0);
            fired += 1;
        }
    }
    assert!(fired > 0);
    assert!(held > 0);
}

#[test]
fn spawners_are_set_out_on_a_ring_around_the_player() {
    let places = add_spawner(&player_at(5_000, 1_000, -5_000)).unwrap();
    assert_eq!(places.len(), SPAWNER_COUNT);
    assert_eq!(SPAWNER_COUNT, 200);
    for place in &places {
        assert_eq!(place.centre, at(5_000, 1_000, -5_000));
        assert!(SPAWNER_RING_MIN <= place.radius && place.radius < SPAWNER_RING_MAX);
        assert!(place.angle < FULL_TURN);
    }
    assert!(places.iter().any(|p| p.radius != places[0].radius));
    assert!(places.iter().any(|p| p.angle != places[0].angle));
}
