//! The flat rectangular grid mesh that terrain chunks are built from.

use vstd::prelude::*;
use vstd::arithmetic::div_mod::lemma_fundamental_div_mod_converse;
use vstd::arithmetic::div_mod::lemma_multiply_divide_lt;
use vstd::arithmetic::div_mod::lemma_div_pos_is_pos;
use vstd::arithmetic::div_mod::lemma_mod_bound;

verus! {

/// A point or direction of a mesh, in whole mesh units.
#[derive(Clone, Copy, Debug, PartialEq, Eq, Structural)]
pub struct MeshPoint {
    pub x: i32,
    pub y: i32,
    pub z: i32,
}

/// A texture coordinate. A flat grid only uses the corners of the unit
/// square, so both parts are 0 or 1.
#[derive(Clone, Copy, Debug, PartialEq, Eq, Structural)]
pub struct TexCoord {
    pub u: i32,
    pub v: i32,
}

/// A triangle-list mesh: one position, texture coordinate and normal per
/// vertex, and three vertex indices per triangle.
#[derive(Clone, Debug, PartialEq, Eq)]
pub struct FlatMesh {
    pub positions: Vec<MeshPoint>,
    pub uvs: Vec<TexCoord>,
    pub normals: Vec<MeshPoint>,
    pub indices: Vec<u32>,
}

/// What a mesh holds, as sequences.
pub struct MeshModel {
    pub positions: Seq<MeshPoint>,
    pub uvs: Seq<TexCoord>,
    pub normals: Seq<MeshPoint>,
    pub indices: Seq<u32>,
}

impl View for FlatMesh {
    type V = MeshModel;

    open spec fn view(&self) -> MeshModel {
        MeshModel {
            positions: self.positions@,
            uvs: self.uvs@,
            normals: self.normals@,
            indices: self.indices@,
        }
    }
}

/// The normal of every vertex of a flat grid: straight up.
pub open spec fn up() -> MeshPoint {
    MeshPoint { x: 0, y: 1, z: 0 }
}

/// Vertex `i` of the grid. Quads are numbered row by row, `width` to a row;
/// quad `q` owns the vertices `4q .. 4q + 4`, its corners in the order
/// near-left, near-right, far-left, far-right.
pub open spec fn grid_position(left: int, top: int, width: int, i: int) -> MeshPoint {
    let quad = i / 4;
    let corner = i % 4;
    MeshPoint {
        x: (left + quad % width + corner % 2) as i32,
        y: 0,
        z: (top + quad / width + corner / 2) as i32,
    }
}

/// The texture coordinate of vertex `i`: each quad spans the whole unit
/// square.
pub open spec fn grid_uv(i: int) -> TexCoord {
    let corner = i % 4;
    TexCoord { u: (corner % 2) as i32, v: (corner / 2) as i32 }
}

/// The corner that slot `k` of a quad's six index slots names: the triangles
/// (0, 2, 1) and (1, 2, 3), both counter-clockwise seen from above.
pub open spec fn triangle_corner(k: int) -> int {
    if k == 0 {
        0
    } else if k == 1 {
        2
    } else if k == 2 {
        1
    } else if k == 3 {
        1
    } else if k == 4 {
        2
    } else {
        3
    }
}

/// Entry `j` of the index list.
pub open spec fn grid_index(j: int) -> int {
    4 * (j / 6) + triangle_corner(j % 6)
}

/// The grid of `width` by `height` unit quads whose near-left corner is at
/// (`left`, `top`).
pub open spec fn flat_grid(left: int, top: int, width: int, height: int) -> MeshModel {
    MeshModel {
        positions: Seq::new(
            (4 * (width * height)) as nat,
            |i: int| grid_position(left, top, width, i),
        ),
        uvs: Seq::new((4 * (width * height)) as nat, |i: int| grid_uv(i)),
        normals: Seq::new((4 * (width * height)) as nat, |i: int| up()),
        indices: Seq::new((6 * (width * height)) as nat, |j: int| grid_index(j) as u32),
    }
}

/// A grid has four vertices and six indices per quad.
pub proof fn lemma_flat_grid_counts(left: int, top: int, width: int, height: int)
    requires
        0 <= width,
        0 <= height,
    ensures
        flat_grid(left, top, width, height).positions.len() == 4 * width * height,
        flat_grid(left, top, width, height).uvs.len() == 4 * width * height,
        flat_grid(left, top, width, height).normals.len() == 4 * width * height,
        flat_grid(left, top, width, height).indices.len() == 6 * width * height,
{
    assert(0 <= width * height) by (nonlinear_arith)
        requires
            0 <= width,
            0 <= height,
    ;
    assert(4 * (width * height) == 4 * width * height) by (nonlinear_arith);
    assert(6 * (width * height) == 6 * width * height) by (nonlinear_arith);
}

/// Every triangle of a flat grid takes its three vertices from one quad:
/// triangle `t` from quad `t / 2`.
pub proof fn lemma_triangle_stays_in_quad(left: int, top: int, width: int, height: int, t: int)
    requires
        0 <= width,
        0 <= height,
        4 * (width * height) <= u32::MAX,
        0 <= t < 2 * (width * height),
    ensures
        ({
            let indices = flat_grid(left, top, width, height).indices;
            &&& 3 * t + 2 < indices.len()
            &&& indices[3 * t] / 4 == t / 2
            &&& indices[3 * t + 1] / 4 == t / 2
            &&& indices[3 * t + 2] / 4 == t / 2
            &&& 4 * (t / 2) + 3 < flat_grid(left, top, width, height).positions.len()
        }),
{
    let indices = flat_grid(left, top, width, height).indices;
    assert(indices[3 * t] == grid_index(3 * t) as u32);
    assert(indices[3 * t + 1] == grid_index(3 * t + 1) as u32);
    assert(indices[3 * t + 2] == grid_index(3 * t + 2) as u32);
}

/// How the corners `a`, `b`, `c` turn for who looks down on them: twice the
/// area of the triangle, positive where the corners run counter-clockwise
/// seen from above, which is where the triangle faces up.
pub open spec fn turn(a: MeshPoint, b: MeshPoint, c: MeshPoint) -> int {
    (b.z - a.z) * (c.x - a.x) - (b.x - a.x) * (c.z - a.z)
}

/// Every triangle of a flat grid is half a unit square and faces up, as the
/// normals do.
pub proof fn lemma_triangle_faces_up(left: int, top: int, width: int, height: int, t: int)
    requires
        0 <= width,
        0 <= height,
        i32::MIN <= left,
        left + width <= i32::MAX,
        i32::MIN <= top,
        top + height <= i32::MAX,
        4 * (width * height) <= u32::MAX,
        0 <= t < 2 * (width * height),
    ensures
        ({
            let mesh = flat_grid(left, top, width, height);
            turn(
                mesh.positions[mesh.indices[3 * t] as int],
                mesh.positions[mesh.indices[3 * t + 1] as int],
                mesh.positions[mesh.indices[3 * t + 2] as int],
            ) == 1
        }),
{
    let mesh = flat_grid(left, top, width, height);
    let quad = t / 2;
    assert(width > 0) by (nonlinear_arith)
        requires
            0 <= width,
            0 < width * height,
    ;
    lemma_multiply_divide_lt(quad, width, height);
    lemma_div_pos_is_pos(quad, width);
    lemma_mod_bound(quad, width);
    lemma_triangle_stays_in_quad(left, top, width, height, t);
    let x = left + quad % width;
    let z = top + quad / width;
    assert(mesh.positions[4 * quad] == MeshPoint { x: x as i32, y: 0, z: z as i32 });
    assert(mesh.positions[4 * quad + 1] == MeshPoint { x: (x + 1) as i32, y: 0, z: z as i32 });
    assert(mesh.positions[4 * quad + 2] == MeshPoint { x: x as i32, y: 0, z: (z + 1) as i32 });
    assert(mesh.positions[4 * quad + 3] == MeshPoint {
        x: (x + 1) as i32,
        y: 0,
        z: (z + 1) as i32,
    });
    assert(mesh.indices[3 * t] == grid_index(3 * t) as u32);
    assert(mesh.indices[3 * t + 1] == grid_index(3 * t + 1) as u32);
    assert(mesh.indices[3 * t + 2] == grid_index(3 * t + 2) as u32);
    let a = mesh.positions[mesh.indices[3 * t] as int];
    let b = mesh.positions[mesh.indices[3 * t + 1] as int];
    let c = mesh.positions[mesh.indices[3 * t + 2] as int];
    if t % 2 == 0 {
        assert(b.z - a.z == 1 && c.x - a.x == 1 && b.x - a.x == 0 && c.z - a.z == 0);
    } else {
        assert(b.z - a.z == 1 && c.x - a.x == 0 && b.x - a.x == -1 && c.z - a.z == 1);
    }
    assert(turn(a, b, c) == 1) by (nonlinear_arith)
        requires
            turn(a, b, c) == (b.z - a.z) * (c.x - a.x) - (b.x - a.x) * (c.z - a.z),
            (b.z - a.z == 1 && c.x - a.x == 1 && b.x - a.x == 0 && c.z - a.z == 0) || (b.z - a.z
                == 1 && c.x - a.x == 0 && b.x - a.x == -1 && c.z - a.z == 1),
    ;
}

/// Builds the flat grid of `width` by `height` unit quads whose near-left
/// corner is at (`left`, `top`). Vertices are not shared between quads.
pub fn gen_flat_mesh(left: i32, top: i32, width: i32, height: i32) -> (mesh: FlatMesh)
    requires
        0 <= width,
        0 <= height,
        left + width <= i32::MAX,
        top + height <= i32::MAX,
        4 * (width * height) <= u32::MAX,
    ensures
        mesh@ == flat_grid(left as int, top as int, width as int, height as int),
        mesh.positions@.len() == 4 * width * height,
        mesh.indices@.len() == 6 * width * height,
{
    let mut positions: Vec<MeshPoint> = Vec::new();
    let mut uvs: Vec<TexCoord> = Vec::new();
    let mut normals: Vec<MeshPoint> = Vec::new();
    let mut indices: Vec<u32> = Vec::new();
    let ghost goal = flat_grid(left as int, top as int, width as int, height as int);
    proof {
        lemma_flat_grid_counts(left as int, top as int, width as int, height as int);
    }
    let mut h: i32 = 0;
    while h < height
        invariant
            0 <= h <= height,
            0 <= width,
            left + width <= i32::MAX,
            top + height <= i32::MAX,
            4 * (width * height) <= u32::MAX,
            goal == flat_grid(left as int, top as int, width as int, height as int),
            positions@ == goal.positions.take(4 * (h * width)),
            uvs@ == goal.uvs.take(4 * (h * width)),
            normals@ == goal.normals.take(4 * (h * width)),
            indices@ == goal.indices.take(6 * (h * width)),
        decreases height - h,
    {
        let mut w: i32 = 0;
        while w < width
            invariant
                0 <= h < height,
                0 <= w <= width,
                left + width <= i32::MAX,
                top + height <= i32::MAX,
                4 * (width * height) <= u32::MAX,
                goal == flat_grid(left as int, top as int, width as int, height as int),
                positions@ == goal.positions.take(4 * (h * width + w)),
                uvs@ == goal.uvs.take(4 * (h * width + w)),
                normals@ == goal.normals.take(4 * (h * width + w)),
                indices@ == goal.indices.take(6 * (h * width + w)),
            decreases width - w,
        {
            let ghost quad: int = h * width + w;
            proof {
                assert(h * width + width <= height * width) by (nonlinear_arith)
                    requires
                        0 <= h < height,
                        0 <= width,
                ;
                assert(height * width == width * height) by (nonlinear_arith);
                assert(0 <= h * width) by (nonlinear_arith)
                    requires
                        0 <= h,
                        0 <= width,
                ;
                assert(width * h == h * width) by (nonlinear_arith);
                lemma_fundamental_div_mod_converse(quad, width as int, h as int, w as int);
            }
            let first: u32 = ((h as u64 * width as u64 + w as u64) * 4) as u32;
            let x: i32 = left + w;
            let z: i32 = top + h;
            positions.push(MeshPoint { x, y: 0, z });
            positions.push(MeshPoint { x: x + 1, y: 0, z });
            positions.push(MeshPoint { x, y: 0, z: z + 1 });
            positions.push(MeshPoint { x: x + 1, y: 0, z: z + 1 });
            uvs.push(TexCoord { u: 0, v: 0 });
            uvs.push(TexCoord { u: 1, v: 0 });
            uvs.push(TexCoord { u: 0, v: 1 });
            uvs.push(TexCoord { u: 1, v: 1 });
            normals.push(MeshPoint { x: 0, y: 1, z: 0 });
            normals.push(MeshPoint { x: 0, y: 1, z: 0 });
            normals.push(MeshPoint { x: 0, y: 1, z: 0 });
            normals.push(MeshPoint { x: 0, y: 1, z: 0 });
            indices.push(first);
            indices.push(first + 2);
            indices.push(first + 1);
            indices.push(first + 1);
            indices.push(first + 2);
            indices.push(first + 3);
            w = w + 1;
            proof {
                assert(positions@ =~= goal.positions.take(4 * (quad + 1)));
                assert(uvs@ =~= goal.uvs.take(4 * (quad + 1)));
                assert(normals@ =~= goal.normals.take(4 * (quad + 1)));
                assert(indices@ =~= goal.indices.take(6 * (quad + 1)));
            }
        }
        proof {
            assert((h + 1) * width == h * width + width) by (nonlinear_arith);
        }
        h = h + 1;
    }
    proof {
        assert(height * width == width * height) by (nonlinear_arith);
        assert(positions@ =~= goal.positions);
        assert(uvs@ =~= goal.uvs);
        assert(normals@ =~= goal.normals);
        assert(indices@ =~= goal.indices);
    }
    FlatMesh { positions, uvs, normals, indices }
}

} // verus!
