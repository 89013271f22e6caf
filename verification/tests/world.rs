use world_core::asset_loader::GameAssets;
use world_core::asset_model::{AssetKind, AssetRef, LoadState, Observation};
use world_core::flat_mesh::{gen_flat_mesh, MeshPoint};
use world_core::geometry::Point3;
use world_core::scatter::{scatter, Placement, FULL_TURN};
use world_core::world::{
    find_player, plan_world, player_placement, world_builder, Chunk, ColliderBox, ColliderCone,
    Player, PlayerError, World, CHUNK_RADIUS, CHUNK_SIZE, EYE, GROUND_TEXTURE, PROP_COUNT,
    PROP_RING_MAX, PROP_RING_MIN, PROP_SCENE,
};

fn at(x: i32, y: i32, z: i32) -> Point3 {
    Point3 { x, y, z }
}

fn player_at(x: i32, y: i32, z: i32) -> Vec<Player> {
    vec![Player { position: at(x, y, z) }]
}

#[test]
fn the_streaming_constants_are_those_of_the_game() {
    assert_eq!(CHUNK_RADIUS, 5);
    assert_eq!(CHUNK_SIZE, 50);
    assert_eq!(EYE, 2_000);
    assert_eq!(PROP_COUNT, 60);
    assert_eq!(GROUND_TEXTURE, "textures/gravier_16px.png");
    assert_eq!(PROP_SCENE, "models/deco/stalagmite_base.glb#Scene0");
}

#[test]
fn the_player_starts_in_the_middle_of_the_first_chunk() {
    let mut assets = GameAssets::new();
    let start = player_placement(&mut assets);
    assert_eq!(start.player.position, at(25_000, 1_000, 25_000));
    assert_eq!(start.world_handle, 0);
    assert_eq!(assets.session_count(), 1);
    assert!(assets.is_ready(start.world_handle));
}

#[test]
fn exactly_one_player_is_needed() {
    assert_eq!(find_player(&vec![]), Err(PlayerError::NoPlayer));
    assert_eq!(find_player(&player_at(1, 2, 3)), Ok(at(1, 2, 3)));
    let two = vec![Player { position: at(0, 0, 0) }, Player { position: at(0, 0, 0) }];
    assert_eq!(find_player(&two), Err(PlayerError::ManyPlayers));
}

#[test]
fn the_first_pass_builds_the_square_around_the_player() {
    let mut world = World::new();
    let mut assets = GameAssets::new();
    let start = player_placement(&mut assets);
    let plan = world_builder(&mut world, &vec![start.player], &mut assets).unwrap();

    assert_eq!(plan.world_handle, 1);
    assert_eq!(plan.mesh, gen_flat_mesh(0, 0, 50, 50));
    assert_eq!(plan.chunks.len(), 100);
    let texture = AssetRef { kind: AssetKind::Image, index: 0 };
    let mut k = 0;
    for z in -5..5 {
        for x in -5..5 {
            let chunk = plan.chunks[k];
            assert_eq!(chunk.chunk, Chunk(x, z));
            assert_eq!(chunk.origin, MeshPoint { x: x * 50, y: 0, z: z * 50 });
            assert_eq!(chunk.texture, texture);
            assert_eq!(
                chunk.collider,
                ColliderBox {
                    half_extents: at(25_000, 250, 25_000),
                    centre: at(25_000, -500, 25_000),
                }
            );
            k += 1;
        }
    }
    let built: Vec<Chunk> = plan.chunks.iter().map(|c| c.chunk).collect();
    assert_eq!(world.built(), &built);
    assert!(world.has_chunk(Chunk(-5, -5)));
    assert!(world.has_chunk(Chunk(4, 4)));
    assert!(!world.has_chunk(Chunk(5, 0)));
    assert!(!world.has_chunk(Chunk(0, -6)));
}

#[test]
fn a_pass_scatters_sixty_props_around_the_origin() {
    let mut world = World::new();
    let mut assets = GameAssets::new();
    let plan = world_builder(&mut world, &player_at(25_000, 1_000, 25_000), &mut assets).unwrap();
    assert_eq!(plan.props.len(), 60);
    let scene = AssetRef { kind: AssetKind::Scene, index: 0 };
    for prop in &plan.props {
        assert_eq!(prop.scene, scene);
        assert_eq!(prop.place.centre, at(0, 0, 0));
        assert!(PROP_RING_MIN <= prop.place.radius && prop.place.radius < PROP_RING_MAX);
        assert!(prop.place.angle < FULL_TURN);
        assert_eq!(
            prop.collider,
            ColliderCone { half_height: 6_500, radius: 2_000, centre: at(0, 6_500, 0) }
        );
    }
    assert!(plan.props.iter().any(|p| p.place != plan.props[0].place));
}

#[test]
fn the_assets_of_a_pass_are_pending_under_its_session_until_they_are_loaded() {
    let mut world = World::new();
    let mut assets = GameAssets::new();
    let plan = world_builder(&mut world, &player_at(0, 0, 0), &mut assets).unwrap();
    let texture = assets.lookup(AssetKind::Image, &GROUND_TEXTURE.to_string()).unwrap();
    let scene = assets.lookup(AssetKind::Scene, &PROP_SCENE.to_string()).unwrap();
    assert_eq!(assets.pending_assets(plan.world_handle), vec![texture, scene]);
    assert!(plan.chunks.iter().all(|c| c.texture == texture));
    assert!(plan.props.iter().all(|p| p.scene == scene));

    let mut rounds = 0;
    loop {
        let reports: Vec<Observation> = assets
            .pending_assets(plan.world_handle)
            .into_iter()
            .map(|asset| Observation {
                asset,
                state: if rounds == 0 { LoadState::Loading } else { LoadState::Loaded },
            })
            .collect();
        rounds += 1;
        if assets.wait_for_world_assets(plan.world_handle, &reports) {
            break;
        }
    }
    assert_eq!(rounds, 2);
    assert!(assets.pending_assets(plan.world_handle).is_empty());
    assert_eq!(assets.load_state(texture), Some(LoadState::Loaded));
    assert_eq!(assets.load_state(scene), Some(LoadState::Loaded));
}

#[test]
fn a_second_pass_in_the_same_place_builds_no_chunk() {
    let mut world = World::new();
    let mut assets = GameAssets::new();
    let players = player_at(25_000, 1_000, 25_000);
    let first = world_builder(&mut world, &players, &mut assets).unwrap();
    let second = world_builder(&mut world, &players, &mut assets).unwrap();
    assert_eq!(first.world_handle, 0);
    assert_eq!(second.world_handle, 1);
    assert!(second.chunks.is_empty());
    assert_eq!(second.props.len(), 60);
    assert_eq!(world.built().len(), 100);
    // Nothing new was requested, so the second session has nothing to wait for.
    assert!(assets.is_ready(second.world_handle));
    assert!(!assets.is_ready(first.world_handle));
}

#[test]
fn crossing_into_the_next_chunk_builds_one_more_column() {
    let mut world = World::new();
    let mut assets = GameAssets::new();
    world_builder(&mut world, &player_at(25_000, 1_000, 25_000), &mut assets).unwrap();
    let plan = world_builder(&mut world, &player_at(50_000, 1_000, 25_000), &mut assets).unwrap();
    let built: Vec<Chunk> = plan.chunks.iter().map(|c| c.chunk).collect();
    let expected: Vec<Chunk> = (-5..5).map(|z| Chunk(5, z)).collect();
    assert_eq!(built, expected);
    assert_eq!(plan.chunks[0].origin, MeshPoint { x: 250, y: 0, z: -250 });
    assert_eq!(world.built().len(), 110);
}

#[test]
fn the_square_follows_the_player_into_negative_coordinates() {
    let mut world = World::new();
    let mut assets = GameAssets::new();
    let plan = plan_world(&mut world, at(-1, 0, -50_001), &mut assets, &vec![]);
    assert_eq!(plan.chunks.len(), 100);
    assert_eq!(plan.chunks[0].chunk, Chunk(-6, -7));
    assert_eq!(plan.chunks[99].chunk, Chunk(3, 2));
    assert!(plan.props.is_empty());
    // Without props no scene is requested.
    assert_eq!(assets.lookup(AssetKind::Scene, &PROP_SCENE.to_string()), None);
    assert_eq!(assets.pending_assets(plan.world_handle).len(), 1);
}

#[test]
fn the_square_is_built_at_the_ends_of_the_coordinate_range() {
    let mut world = World::new();
    let mut assets = GameAssets::new();
    let plan = plan_world(&mut world, at(i32::MAX, 0, i32::MIN), &mut assets, &vec![]);
    assert_eq!(plan.chunks[0].chunk, Chunk(42_944, -42_955));
    assert_eq!(plan.chunks[99].chunk, Chunk(42_953, -42_946));
    assert_eq!(plan.chunks[99].origin, MeshPoint { x: 2_147_650, y: 0, z: -2_147_300 });
}

#[test]
fn props_stand_where_they_were_placed() {
    let mut world = World::new();
    let mut assets = GameAssets::new();
    let places = vec![
        Placement { centre: at(0, 0, 0), radius: 10_000, angle: 0 },
        Placement { centre: at(0, 0, 0), radius: 149_999, angle: 62_833 },
    ];
    let plan = plan_world(&mut world, at(0, 0, 0), &mut assets, &places);
    let placed: Vec<Placement> = plan.props.iter().map(|p| p.place).collect();
    assert_eq!(placed, places);
}

#[test]
fn without_exactly_one_player_a_pass_fails_and_changes_nothing() {
    let mut world = World::new();
    let mut assets = GameAssets::new();
    assert_eq!(world_builder(&mut world, &vec![], &mut assets), Err(PlayerError::NoPlayer));
    let two = vec![Player { position: at(0, 0, 0) }, Player { position: at(9, 9, 9) }];
    assert_eq!(world_builder(&mut world, &two, &mut assets), Err(PlayerError::ManyPlayers));
    assert!(world.built().is_empty());
    assert_eq!(assets.session_count(), 0);
    assert_eq!(assets.lookup(AssetKind::Image, &GROUND_TEXTURE.to_string()), None);
}

#[test]
fn scatter_draws_within_the_ring() {
    let places = scatter(at(1, 2, 3), 500, 7, 9);
    assert_eq!(places.len(), 500);
    for place in &places {
        assert_eq!(place.centre, at(1, 2, 3));
        assert!(place.radius == 7 || place.radius == 8);
        assert!(place.angle < 62_834);
    }
    assert!(places.iter().any(|p| p.radius == 7));
    assert!(places.iter().any(|p| p.radius == 8));
    assert!(scatter(at(0, 0, 0), 0, 1, 2).is_empty());
}
