//! The player, and the streaming of terrain and decoration around it.

use vstd::prelude::*;
use crate::asset_loader::GameAssets;
use crate::asset_model::{
    has_path, index_of_path, lemma_request_deduplicates, AssetKind, AssetRef, RegistryModel,
};
use crate::flat_mesh::{flat_grid, gen_flat_mesh, FlatMesh, MeshPoint};
use crate::geometry::{chunk_coordinate, grid_cell, lemma_grid_cell_bounds, Point3, UNIT};
use crate::scatter::{placed_on_ring, scatter, Placement};

verus! {

/// The player, as a tick sees it: where it stands.
#[derive(Clone, Copy, Debug, PartialEq, Eq, Structural)]
pub struct Player {
    pub position: Point3,
}

/// Why a step that needs the player could not run.
#[derive(Clone, Copy, Debug, PartialEq, Eq, Structural)]
pub enum PlayerError {
    /// No entity is marked as the player.
    NoPlayer,
    /// More than one entity is marked as the player.
    ManyPlayers,
}

/// The position of the one player among the entities marked as such.
pub open spec fn single_player(players: Seq<Player>) -> Result<Point3, PlayerError> {
    if players.len() == 0 {
        Err(PlayerError::NoPlayer)
    } else if players.len() == 1 {
        Ok(players[0].position)
    } else {
        Err(PlayerError::ManyPlayers)
    }
}

/// Whether a step that needs the one player can run, and why not.
pub open spec fn player_found(players: Seq<Player>) -> Result<(), PlayerError> {
    match single_player(players) {
        Ok(_) => Ok(()),
        Err(error) => Err(error),
    }
}

/// Finds the one player among the entities marked as such.
pub fn find_player(players: &Vec<Player>) -> (found: Result<Point3, PlayerError>)
    ensures
        found == single_player(players@),
{
    if players.len() == 0 {
        Err(PlayerError::NoPlayer)
    } else if players.len() == 1 {
        Ok(players[0].position)
    } else {
        Err(PlayerError::ManyPlayers)
    }
}

/// Terrain is kept for this many chunks to each side of the player's chunk.
pub const CHUNK_RADIUS: i32 = 5;

/// The edge of a chunk, in world units.
pub const CHUNK_SIZE: i32 = 50;

/// The height of the player's eyes above its feet, in sub-units.
pub const EYE: i32 = 2000;

/// The number of chunks along one edge of the streamed square.
pub const WINDOW_SIDE: i32 = 2 * CHUNK_RADIUS;

/// The number of chunks of the streamed square: `WINDOW_SIDE` squared.
pub const WINDOW_CHUNKS: usize = 100;

/// The number of decoration props that a pass scatters.
pub const PROP_COUNT: usize = 60;

/// Props are scattered between these distances from the world's origin, in
/// sub-units.
pub const PROP_RING_MIN: u32 = 10_000;

pub const PROP_RING_MAX: u32 = 150_000;

/// The texture of the ground.
pub const GROUND_TEXTURE: &'static str = "textures/gravier_16px.png";

/// The scene of a decoration prop.
pub const PROP_SCENE: &'static str = "models/deco/stalagmite_base.glb#Scene0";

/// A terrain chunk, by its coordinates on the chunk grid: x, then z.
#[derive(Clone, Copy, Debug, PartialEq, Eq, Structural)]
pub struct Chunk(pub i32, pub i32);

/// A box collider: half its extent along each axis, and its centre relative
/// to the entity that carries it, in sub-units.
#[derive(Clone, Copy, Debug, PartialEq, Eq, Structural)]
pub struct ColliderBox {
    pub half_extents: Point3,
    pub centre: Point3,
}

/// An upright cone collider: half its height, the radius of its base, and
/// its centre relative to the entity that carries it, in sub-units.
#[derive(Clone, Copy, Debug, PartialEq, Eq, Structural)]
pub struct ColliderCone {
    pub half_height: i32,
    pub radius: i32,
    pub centre: Point3,
}

/// A chunk to create: its coordinates, the place of its near-left corner in
/// whole world units, the texture of its ground and its collider. Its mesh
/// is the one of the plan.
#[derive(Clone, Copy, Debug, PartialEq, Eq, Structural)]
pub struct ChunkPlan {
    pub chunk: Chunk,
    pub origin: MeshPoint,
    pub texture: AssetRef,
    pub collider: ColliderBox,
}

/// A decoration prop to create: its scene, its place and its collider.
#[derive(Clone, Copy, Debug, PartialEq, Eq, Structural)]
pub struct PropPlan {
    pub scene: AssetRef,
    pub place: Placement,
    pub collider: ColliderCone,
}

/// What a streaming pass asks the scene graph to create. Every asset that
/// the plan names was requested: under `world_handle`, unless it was
/// requested before.
#[derive(Clone, Debug, PartialEq, Eq)]
pub struct WorldPlan {
    pub world_handle: usize,
    pub mesh: FlatMesh,
    pub chunks: Vec<ChunkPlan>,
    pub props: Vec<PropPlan>,
}

/// Where the player starts, and the session that was opened with it.
#[derive(Clone, Copy, Debug, PartialEq, Eq, Structural)]
pub struct PlayerStart {
    pub player: Player,
    pub world_handle: usize,
}

/// The player starts at the middle of the chunk at the origin, its eyes'
/// height halved above the ground.
pub open spec fn start_position() -> Point3 {
    Point3 { x: 25_000, y: 1_000, z: 25_000 }
}

/// Places the player and opens a session for what belongs to it.
pub fn player_placement(assets: &mut GameAssets) -> (start: PlayerStart)
    requires
        old(assets).wf(),
        old(assets)@.sessions < usize::MAX,
    ensures
        final(assets).wf(),
        final(assets)@ == old(assets)@.new_session(),
        start.world_handle == old(assets)@.sessions,
        start.player.position == start_position(),
{
    let world_handle = assets.new_world();
    let position = Point3 { x: CHUNK_SIZE * UNIT / 2, y: EYE / 2, z: CHUNK_SIZE * UNIT / 2 };
    PlayerStart { player: Player { position }, world_handle }
}

/// The chunk that holds the player: the floor of its position over the
/// chunk's edge, along x and along z.
pub open spec fn player_chunk(player: Point3) -> Chunk {
    Chunk(
        grid_cell(player.x as int, CHUNK_SIZE * UNIT) as i32,
        grid_cell(player.z as int, CHUNK_SIZE * UNIT) as i32,
    )
}

/// Chunk `k` of the square around `centre`, in the order of creation: row
/// by row along z, each row along x, from `CHUNK_RADIUS` below the centre to
/// one less than `CHUNK_RADIUS` above it.
pub open spec fn window_chunk(centre: Chunk, k: int) -> Chunk {
    Chunk(
        (centre.0 - CHUNK_RADIUS + k % (WINDOW_SIDE as int)) as i32,
        (centre.1 - CHUNK_RADIUS + k / (WINDOW_SIDE as int)) as i32,
    )
}

/// The square of chunks around `centre`.
pub open spec fn window(centre: Chunk) -> Seq<Chunk> {
    Seq::new(WINDOW_CHUNKS as nat, |k: int| window_chunk(centre, k))
}

/// Those of the first `count` chunks of the square around `centre` that
/// `built` does not hold, in the order of creation.
pub open spec fn fresh_upto(built: Seq<Chunk>, centre: Chunk, count: nat) -> Seq<Chunk>
    decreases count,
{
    if count == 0 {
        Seq::empty()
    } else {
        let earlier = fresh_upto(built, centre, (count - 1) as nat);
        let chunk = window_chunk(centre, count - 1);
        if built.contains(chunk) {
            earlier
        } else {
            earlier.push(chunk)
        }
    }
}

/// The chunks that a pass around `centre` creates: those of the square that
/// are not built yet.
pub open spec fn fresh_chunks(built: Seq<Chunk>, centre: Chunk) -> Seq<Chunk> {
    fresh_upto(built, centre, WINDOW_CHUNKS as nat)
}

/// Every chunk of the square around `centre` is among `built`.
pub open spec fn window_is_built(built: Seq<Chunk>, centre: Chunk) -> bool {
    forall|k: int| 0 <= k < WINDOW_CHUNKS ==> built.contains(#[trigger] window_chunk(centre, k))
}

/// The collider of a chunk: a slab as wide as the chunk, a quarter unit to
/// each side of half a unit below the ground, centred under the chunk.
pub open spec fn chunk_collider() -> ColliderBox {
    ColliderBox {
        half_extents: Point3 { x: 25_000, y: 250, z: 25_000 },
        centre: Point3 { x: 25_000, y: -500i32, z: 25_000 },
    }
}

/// The plan of one chunk.
pub open spec fn chunk_plan(chunk: Chunk, texture: AssetRef) -> ChunkPlan {
    ChunkPlan {
        chunk,
        origin: MeshPoint {
            x: (chunk.0 * CHUNK_SIZE) as i32,
            y: 0,
            z: (chunk.1 * CHUNK_SIZE) as i32,
        },
        texture,
        collider: chunk_collider(),
    }
}

/// The collider of a prop: a cone 13 units high on a base of radius 2, its
/// centre 6.5 units above the prop's foot.
pub open spec fn prop_collider() -> ColliderCone {
    ColliderCone { half_height: 6500, radius: 2000, centre: Point3 { x: 0, y: 6500, z: 0 } }
}

/// The plan of one prop.
pub open spec fn prop_plan(scene: AssetRef, place: Placement) -> PropPlan {
    PropPlan { scene, place, collider: prop_collider() }
}

/// The registry after a pass that creates `chunks` chunks and `props` props:
/// a new session, under which the ground texture was requested if a chunk
/// was created, and the prop scene if a prop was.
pub open spec fn requests_of_pass(model: RegistryModel, chunks: nat, props: nat) -> RegistryModel {
    let session = model.sessions as usize;
    let opened = model.new_session();
    let textured = if chunks > 0 {
        opened.request(session, AssetKind::Image, GROUND_TEXTURE@)
    } else {
        opened
    };
    if props > 0 {
        textured.request(session, AssetKind::Scene, PROP_SCENE@)
    } else {
        textured
    }
}

/// What a pass with the player at `player` and the props at `places` makes
/// of the built chunks `built` and the registry `model`: the plan, the
/// chunks built afterwards and the registry afterwards.
pub open spec fn is_pass(
    built: Seq<Chunk>,
    model: RegistryModel,
    player: Point3,
    places: Seq<Placement>,
    plan: WorldPlan,
    built_after: Seq<Chunk>,
    model_after: RegistryModel,
) -> bool {
    let fresh = fresh_chunks(built, player_chunk(player));
    let texture = model.request_handle(AssetKind::Image, GROUND_TEXTURE@);
    let scene = model.request_handle(AssetKind::Scene, PROP_SCENE@);
    &&& plan.world_handle == model.sessions
    &&& plan.mesh@ == flat_grid(0, 0, CHUNK_SIZE as int, CHUNK_SIZE as int)
    &&& plan.chunks@ == Seq::new(fresh.len(), |i: int| chunk_plan(fresh[i], texture))
    &&& plan.props@ == Seq::new(places.len(), |i: int| prop_plan(scene, places[i]))
    &&& built_after == built + fresh
    &&& window_is_built(built_after, player_chunk(player))
    &&& model_after == requests_of_pass(model, fresh.len(), places.len())
}

/// The props of a pass stand on a ring around the world's origin, one at
/// each of `PROP_COUNT` places.
pub open spec fn prop_ring(places: Seq<Placement>) -> bool {
    &&& places.len() == PROP_COUNT
    &&& forall|i: int|
        0 <= i < PROP_COUNT ==> placed_on_ring(
            #[trigger] places[i],
            Point3 { x: 0, y: 0, z: 0 },
            PROP_RING_MIN,
            PROP_RING_MAX,
        )
}

/// A pass with the player at `player` whose props stand at places of the
/// prop ring.
pub open spec fn is_drawn_pass(
    built: Seq<Chunk>,
    model: RegistryModel,
    player: Point3,
    plan: WorldPlan,
    built_after: Seq<Chunk>,
    model_after: RegistryModel,
) -> bool {
    exists|places: Seq<Placement>| #[trigger]
        prop_ring(places) && is_pass(built, model, player, places, plan, built_after, model_after)
}

/// The coordinates of the chunks that were built, each once.
pub struct World {
    chunks: Vec<Chunk>,
}

impl View for World {
    type V = Seq<Chunk>;

    closed spec fn view(&self) -> Seq<Chunk> {
        self.chunks@
    }
}

impl World {
    /// No chunk is built twice.
    pub open spec fn wf(&self) -> bool {
        self@.no_duplicates()
    }

    /// A world without chunks.
    pub fn new() -> (world: World)
        ensures
            world.wf(),
            world@ == Seq::<Chunk>::empty(),
    {
        World { chunks: Vec::new() }
    }

    /// The chunks that were built, in the order of their creation.
    pub fn built(&self) -> (chunks: &Vec<Chunk>)
        ensures
            chunks@ == self@,
    {
        &self.chunks
    }

    /// Whether `chunk` was built.
    pub fn has_chunk(&self, chunk: Chunk) -> (found: bool)
        ensures
            found == self@.contains(chunk),
    {
        let mut i: usize = 0;
        while i < self.chunks.len()
            invariant
                i <= self.chunks.len(),
                forall|j: int| 0 <= j < i ==> self.chunks@[j] != chunk,
            decreases self.chunks.len() - i,
        {
            if self.chunks[i] == chunk {
                return true;
            }
            i = i + 1;
        }
        false
    }
}

/// The player's chunk lies far inside the range of chunk coordinates.
pub proof fn lemma_player_chunk_bounds(player: Point3)
    ensures
        -42950 <= player_chunk(player).0 <= 42949,
        -42950 <= player_chunk(player).1 <= 42949,
        player_chunk(player).0 == grid_cell(player.x as int, CHUNK_SIZE * UNIT),
        player_chunk(player).1 == grid_cell(player.z as int, CHUNK_SIZE * UNIT),
{
    assert(CHUNK_SIZE * UNIT == 50_000) by (nonlinear_arith)
        requires
            CHUNK_SIZE == 50,
            UNIT == 1000,
    ;
    lemma_grid_cell_bounds(player.x as int, 50_000);
    lemma_grid_cell_bounds(player.z as int, 50_000);
}

/// A chunk that a pass creates is one of the square and was not built.
proof fn lemma_fresh_member(built: Seq<Chunk>, centre: Chunk, count: nat, chunk: Chunk)
    requires
        fresh_upto(built, centre, count).contains(chunk),
    ensures
        !built.contains(chunk),
        exists|k: int| 0 <= k < count && chunk == window_chunk(centre, k),
    decreases count,
{
    if count > 0 {
        let earlier = fresh_upto(built, centre, (count - 1) as nat);
        let last = window_chunk(centre, count - 1);
        if earlier.contains(chunk) {
            lemma_fresh_member(built, centre, (count - 1) as nat, chunk);
        } else {
            let now = fresh_upto(built, centre, count);
            let i = choose|i: int| 0 <= i < now.len() && now[i] == chunk;
            if built.contains(last) {
                assert(now == earlier);
            } else {
                assert(now == earlier.push(last));
                if i < earlier.len() {
                    assert(earlier[i] == chunk);
                }
            }
            assert(chunk == window_chunk(centre, count - 1));
        }
    }
}

/// The chunks of a square are all different.
pub proof fn lemma_window_chunks_differ(centre: Chunk, j: int, k: int)
    requires
        -42950 <= centre.0 <= 42949,
        -42950 <= centre.1 <= 42949,
        0 <= j < k < WINDOW_CHUNKS,
    ensures
        window_chunk(centre, j) != window_chunk(centre, k),
{
}

/// A first pass creates the whole square: where nothing is built, every
/// chunk of the square is fresh.
pub proof fn lemma_first_pass_builds_window(centre: Chunk, count: nat)
    ensures
        fresh_upto(Seq::empty(), centre, count) == Seq::new(
            count,
            |k: int| window_chunk(centre, k),
        ),
    decreases count,
{
    let built = Seq::<Chunk>::empty();
    if count > 0 {
        lemma_first_pass_builds_window(centre, (count - 1) as nat);
        assert(!built.contains(window_chunk(centre, count - 1)));
    }
    assert(fresh_upto(built, centre, count) =~= Seq::new(count, |k: int| window_chunk(centre, k)));
}

/// A pass creates no chunk that is built: where the whole square is built,
/// nothing is fresh.
pub proof fn lemma_built_window_is_kept(built: Seq<Chunk>, centre: Chunk, count: nat)
    requires
        forall|k: int| 0 <= k < count ==> built.contains(#[trigger] window_chunk(centre, k)),
    ensures
        fresh_upto(built, centre, count) == Seq::<Chunk>::empty(),
    decreases count,
{
    if count > 0 {
        lemma_built_window_is_kept(built, centre, (count - 1) as nat);
        assert(built.contains(window_chunk(centre, count - 1)));
    }
}

/// After a pass the whole square is built: each of its chunks was built
/// before or is created by the pass.
pub proof fn lemma_pass_builds_window(built: Seq<Chunk>, centre: Chunk)
    ensures
        window_is_built(built + fresh_chunks(built, centre), centre),
{
    assert forall|k: int| 0 <= k < WINDOW_CHUNKS implies (built + fresh_chunks(
        built,
        centre,
    )).contains(#[trigger] window_chunk(centre, k)) by {
        lemma_fresh_upto_holds(built, centre, WINDOW_CHUNKS as nat, k);
    }
}

proof fn lemma_fresh_upto_holds(built: Seq<Chunk>, centre: Chunk, count: nat, k: int)
    requires
        0 <= k < count,
    ensures
        (built + fresh_upto(built, centre, count)).contains(window_chunk(centre, k)),
    decreases count,
{
    let chunk = window_chunk(centre, k);
    let earlier = fresh_upto(built, centre, (count - 1) as nat);
    let now = fresh_upto(built, centre, count);
    let last = window_chunk(centre, count - 1);
    if k < count - 1 {
        lemma_fresh_upto_holds(built, centre, (count - 1) as nat, k);
        let i = choose|i: int| 0 <= i < (built + earlier).len() && (built + earlier)[i] == chunk;
        if !built.contains(last) {
            assert(now == earlier.push(last));
        }
        assert((built + now)[i] == chunk);
    } else if built.contains(chunk) {
        let i = choose|i: int| 0 <= i < built.len() && built[i] == chunk;
        assert((built + now)[i] == chunk);
    } else {
        assert(now == earlier.push(chunk));
        assert((built + now)[(built.len() + earlier.len()) as int] == chunk);
    }
}

/// The collider of a chunk lies under the whole chunk and nothing else: it
/// spans the chunk's mesh from edge to edge along x and along z.
pub proof fn lemma_collider_spans_chunk()
    ensures
        chunk_collider().centre.x - chunk_collider().half_extents.x == 0,
        chunk_collider().centre.x + chunk_collider().half_extents.x == CHUNK_SIZE * UNIT,
        chunk_collider().centre.z - chunk_collider().half_extents.z == 0,
        chunk_collider().centre.z + chunk_collider().half_extents.z == CHUNK_SIZE * UNIT,
        chunk_collider().centre.y + chunk_collider().half_extents.y < 0,
{
    assert(CHUNK_SIZE * UNIT == 50_000) by (nonlinear_arith)
        requires
            CHUNK_SIZE == 50,
            UNIT == 1000,
    ;
}

/// What a pass shows was requested: after a pass that creates a chunk the
/// registry knows the ground texture, after one that creates a prop the
/// prop scene, each by its path; and each is pending under the session of
/// the pass unless it was requested before.
pub proof fn lemma_pass_requests_what_it_shows(model: RegistryModel, chunks: nat, props: nat)
    requires
        model.wf(),
        model.sessions < usize::MAX,
    ensures
        ({
            let after = requests_of_pass(model, chunks, props);
            let session = model.sessions as usize;
            let texture = model.request_handle(AssetKind::Image, GROUND_TEXTURE@);
            let scene = model.request_handle(AssetKind::Scene, PROP_SCENE@);
            &&& chunks > 0 ==> after.knows(texture) && after.record(texture).path
                == GROUND_TEXTURE@ && (model.knows(texture) || after.is_pending(texture, session))
            &&& props > 0 ==> after.knows(scene) && after.record(scene).path == PROP_SCENE@ && (
            model.knows(scene) || after.is_pending(scene, session))
        }),
{
    let session = model.sessions as usize;
    let opened = model.new_session();
    let images = model.table(AssetKind::Image);
    let scenes = model.table(AssetKind::Scene);
    assert(images.len() <= usize::MAX);
    assert(scenes.len() <= usize::MAX);
    assert(opened.table(AssetKind::Image) == images);
    assert(opened.table(AssetKind::Scene) == scenes);
    let textured = if chunks > 0 {
        opened.request(session, AssetKind::Image, GROUND_TEXTURE@)
    } else {
        opened
    };
    assert(textured.table(AssetKind::Scene) == scenes);
    let after = requests_of_pass(model, chunks, props);
    assert(props > 0 ==> after.table(AssetKind::Image) == textured.table(AssetKind::Image));
    if has_path(images, GROUND_TEXTURE@) {
        let i = index_of_path(images, GROUND_TEXTURE@);
        assert(images[i].path == GROUND_TEXTURE@);
    }
    if has_path(scenes, PROP_SCENE@) {
        let i = index_of_path(scenes, PROP_SCENE@);
        assert(scenes[i].path == PROP_SCENE@);
    }
}

/// Asking again for what was just asked for changes nothing.
proof fn lemma_request_again(model: RegistryModel, session: usize, kind: AssetKind, path: Seq<char>)
    requires
        model.wf(),
    ensures
        model.request(session, kind, path).request(session, kind, path) == model.request(
            session,
            kind,
            path,
        ),
        model.request(session, kind, path).request_handle(kind, path) == model.request_handle(
            kind,
            path,
        ),
{
    lemma_request_deduplicates(model, session, session, kind, path);
    let once = model.request(session, kind, path);
    let twice = once.request(session, kind, path);
    assert(twice.table(AssetKind::Image) == once.table(AssetKind::Image));
    assert(twice.table(AssetKind::Scene) == once.table(AssetKind::Scene));
    assert(twice.table(AssetKind::Animation) == once.table(AssetKind::Animation));
    assert(twice.sessions == once.sessions);
}

/// Creates the chunks of the square around `centre` that are not built
/// yet, each with the ground texture requested under `world_handle`.
fn stream_chunks(
    world: &mut World,
    centre: Chunk,
    assets: &mut GameAssets,
    world_handle: usize,
) -> (chunks: Vec<ChunkPlan>)
    requires
        old(world).wf(),
        old(assets).wf(),
        world_handle < old(assets)@.sessions,
        -42950 <= centre.0 <= 42949,
        -42950 <= centre.1 <= 42949,
    ensures
        final(world).wf(),
        final(assets).wf(),
        final(world)@ == old(world)@ + fresh_chunks(old(world)@, centre),
        chunks@ == Seq::new(
            fresh_chunks(old(world)@, centre).len(),
            |i: int|
                chunk_plan(
                    fresh_chunks(old(world)@, centre)[i],
                    old(assets)@.request_handle(AssetKind::Image, GROUND_TEXTURE@),
                ),
        ),
        final(assets)@ == (if fresh_chunks(old(world)@, centre).len() > 0 {
            old(assets)@.request(world_handle, AssetKind::Image, GROUND_TEXTURE@)
        } else {
            old(assets)@
        }),
{
    let ghost built = old(world)@;
    let ghost model = old(assets)@;
    let ghost texture = model.request_handle(AssetKind::Image, GROUND_TEXTURE@);
    let ghost textured = model.request(world_handle, AssetKind::Image, GROUND_TEXTURE@);
    let mut chunks: Vec<ChunkPlan> = Vec::new();
    let mut k: usize = 0;
    while k < WINDOW_CHUNKS
        invariant
            k <= WINDOW_CHUNKS,
            -42950 <= centre.0 <= 42949,
            -42950 <= centre.1 <= 42949,
            model.wf(),
            world_handle < model.sessions,
            texture == model.request_handle(AssetKind::Image, GROUND_TEXTURE@),
            textured == model.request(world_handle, AssetKind::Image, GROUND_TEXTURE@),
            world@ == built + fresh_upto(built, centre, k as nat),
            world@.no_duplicates(),
            chunks@ == Seq::new(
                fresh_upto(built, centre, k as nat).len(),
                |i: int| chunk_plan(fresh_upto(built, centre, k as nat)[i], texture),
            ),
            assets.wf(),
            assets@ == (if fresh_upto(built, centre, k as nat).len() > 0 {
                textured
            } else {
                model
            }),
        decreases WINDOW_CHUNKS - k,
    {
        let ghost earlier = fresh_upto(built, centre, k as nat);
        let column: i32 = (k % (WINDOW_SIDE as usize)) as i32;
        let row: i32 = (k / (WINDOW_SIDE as usize)) as i32;
        let chunk = Chunk(centre.0 - CHUNK_RADIUS + column, centre.1 - CHUNK_RADIUS + row);
        assert(chunk == window_chunk(centre, k as int));
        let found = world.has_chunk(chunk);
        proof {
            if earlier.contains(chunk) {
                lemma_fresh_member(built, centre, k as nat, chunk);
                let j = choose|j: int| 0 <= j < k && chunk == window_chunk(centre, j);
                lemma_window_chunks_differ(centre, j, k as int);
            }
            if built.contains(chunk) {
                let i = choose|i: int| 0 <= i < built.len() && built[i] == chunk;
                assert((built + earlier)[i] == chunk);
            }
            if found {
                let i = choose|i: int| 0 <= i < world@.len() && world@[i] == chunk;
                if i >= built.len() {
                    assert(earlier[i - built.len()] == chunk);
                }
            }
            assert(found == built.contains(chunk));
        }
        if !found {
            proof {
                lemma_request_again(model, world_handle, AssetKind::Image, GROUND_TEXTURE@);
            }
            let texture = assets.request_image(world_handle, GROUND_TEXTURE.to_owned());
            world.chunks.push(chunk);
            chunks.push(
                ChunkPlan {
                    chunk,
                    origin: MeshPoint { x: chunk.0 * CHUNK_SIZE, y: 0, z: chunk.1 * CHUNK_SIZE },
                    texture,
                    collider: ColliderBox {
                        half_extents: Point3 {
                            x: CHUNK_SIZE * UNIT / 2,
                            y: UNIT / 4,
                            z: CHUNK_SIZE * UNIT / 2,
                        },
                        centre: Point3 {
                            x: CHUNK_SIZE / 2 * UNIT,
                            y: -(UNIT / 2),
                            z: CHUNK_SIZE / 2 * UNIT,
                        },
                    },
                },
            );
        }
        k = k + 1;
        proof {
            let now = fresh_upto(built, centre, k as nat);
            assert(world@ =~= built + now);
            assert(chunks@ =~= Seq::new(now.len(), |i: int| chunk_plan(now[i], texture)));
        }
    }
    chunks
}

/// Creates a prop at each of `places`, each with the prop scene requested
/// under `world_handle`.
fn place_props(assets: &mut GameAssets, world_handle: usize, places: &Vec<Placement>) -> (props: Vec<
    PropPlan,
>)
    requires
        old(assets).wf(),
        world_handle < old(assets)@.sessions,
    ensures
        final(assets).wf(),
        props@ == Seq::new(
            places@.len(),
            |i: int|
                prop_plan(
                    old(assets)@.request_handle(AssetKind::Scene, PROP_SCENE@),
                    places@[i],
                ),
        ),
        final(assets)@ == (if places@.len() > 0 {
            old(assets)@.request(world_handle, AssetKind::Scene, PROP_SCENE@)
        } else {
            old(assets)@
        }),
{
    let ghost model = old(assets)@;
    let ghost scene = model.request_handle(AssetKind::Scene, PROP_SCENE@);
    let ghost requested = model.request(world_handle, AssetKind::Scene, PROP_SCENE@);
    let mut props: Vec<PropPlan> = Vec::new();
    let mut i: usize = 0;
    while i < places.len()
        invariant
            i <= places.len(),
            model.wf(),
            world_handle < model.sessions,
            scene == model.request_handle(AssetKind::Scene, PROP_SCENE@),
            requested == model.request(world_handle, AssetKind::Scene, PROP_SCENE@),
            props@ == Seq::new(i as nat, |j: int| prop_plan(scene, places@[j])),
            assets.wf(),
            assets@ == (if i > 0 {
                requested
            } else {
                model
            }),
        decreases places.len() - i,
    {
        proof {
            lemma_request_again(model, world_handle, AssetKind::Scene, PROP_SCENE@);
        }
        let scene = assets.request_scene(world_handle, PROP_SCENE.to_owned());
        props.push(
            PropPlan {
                scene,
                place: places[i],
                collider: ColliderCone {
                    half_height: 6500,
                    radius: 2000,
                    centre: Point3 { x: 0, y: 6500, z: 0 },
                },
            },
        );
        i = i + 1;
        proof {
            assert(props@ =~= Seq::new(i as nat, |j: int| prop_plan(scene, places@[j])));
        }
    }
    props
}

/// Plans a streaming pass with the player at `player` and a prop at each of
/// `places`: opens a session, creates the chunks of the square around the
/// player's chunk that are not built yet, and requests under the session
/// what the new chunks and props show.
pub fn plan_world(
    world: &mut World,
    player: Point3,
    assets: &mut GameAssets,
    places: &Vec<Placement>,
) -> (plan: WorldPlan)
    requires
        old(world).wf(),
        old(assets).wf(),
        old(assets)@.sessions < usize::MAX,
    ensures
        final(world).wf(),
        final(assets).wf(),
        is_pass(old(world)@, old(assets)@, player, places@, plan, final(world)@, final(assets)@),
{
    let ghost model = old(assets)@;
    let world_handle = assets.new_world();
    let centre = Chunk(
        chunk_coordinate(player.x, CHUNK_SIZE),
        chunk_coordinate(player.z, CHUNK_SIZE),
    );
    proof {
        lemma_player_chunk_bounds(player);
    }
    let mesh = gen_flat_mesh(0, 0, CHUNK_SIZE, CHUNK_SIZE);
    let ghost opened = assets@;
    let chunks = stream_chunks(world, centre, assets, world_handle);
    let ghost textured = assets@;
    let props = place_props(assets, world_handle, places);
    proof {
        lemma_pass_builds_window(old(world)@, centre);
        assert(forall|kind: AssetKind| #[trigger] opened.table(kind) == model.table(kind));
        assert(textured.table(AssetKind::Scene) == model.table(AssetKind::Scene));
    }
    WorldPlan { world_handle, mesh, chunks, props }
}

/// Runs a streaming pass around the player: draws the places of the props
/// around the world's origin and plans the pass. Without exactly one player
/// the pass fails and changes nothing.
pub fn world_builder(world: &mut World, players: &Vec<Player>, assets: &mut GameAssets) -> (result:
    Result<WorldPlan, PlayerError>)
    requires
        old(world).wf(),
        old(assets).wf(),
        old(assets)@.sessions < usize::MAX,
    ensures
        final(world).wf(),
        final(assets).wf(),
        single_player(players@) matches Ok(player) ==> result.is_ok() && is_drawn_pass(
            old(world)@,
            old(assets)@,
            player,
            result.unwrap(),
            final(world)@,
            final(assets)@,
        ),
        single_player(players@) matches Err(error) ==> result matches Err(reported) && reported
            == error && final(world)@ == old(world)@ && final(assets)@ == old(assets)@,
{
    let player = match find_player(players) {
        Ok(position) => position,
        Err(error) => {
            return Err(error);
        },
    };
    let places = scatter(Point3 { x: 0, y: 0, z: 0 }, PROP_COUNT, PROP_RING_MIN, PROP_RING_MAX);
    let plan = plan_world(world, player, assets, &places);
    let result = Ok(plan);
    proof {
        assert(single_player(players@) == Ok::<Point3, PlayerError>(player));
        assert(prop_ring(places@));
        assert(is_pass(
            old(world)@,
            old(assets)@,
            player,
            places@,
            result.unwrap(),
            world@,
            assets@,
        ));
    }
    result
}

} // verus!
