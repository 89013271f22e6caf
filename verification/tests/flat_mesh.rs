use world_core::flat_mesh::{gen_flat_mesh, MeshPoint, TexCoord};

#[test]
fn single_quad_has_four_vertices_and_six_indices() {
    let mesh = gen_flat_mesh(0, 0, 1, 1);
    assert_eq!(
        mesh.positions,
        vec![
            MeshPoint { x: 0, y: 0, z: 0 },
            MeshPoint { x: 1, y: 0, z: 0 },
            MeshPoint { x: 0, y: 0, z: 1 },
            MeshPoint { x: 1, y: 0, z: 1 },
        ]
    );
    assert_eq!(
        mesh.uvs,
        vec![
            TexCoord { u: 0, v: 0 },
            TexCoord { u: 1, v: 0 },
            TexCoord { u: 0, v: 1 },
            TexCoord { u: 1, v: 1 },
        ]
    );
    assert_eq!(mesh.normals, vec![MeshPoint { x: 0, y: 1, z: 0 }; 4]);
    assert_eq!(mesh.indices, vec![0, 2, 1, 1, 2, 3]);
}

#[test]
fn grid_counts_are_four_and_six_per_quad() {
    for (w, h) in [(0, 0), (0, 3), (4, 0), (1, 1), (2, 3), (7, 5), (50, 50)] {
        let mesh = gen_flat_mesh(0, 0, w, h);
        let quads = (w * h) as usize;
        assert_eq!(mesh.positions.len(), 4 * quads);
        assert_eq!(mesh.uvs.len(), 4 * quads);
        assert_eq!(mesh.normals.len(), 4 * quads);
        assert_eq!(mesh.indices.len(), 6 * quads);
    }
}

#[test]
fn every_triangle_stays_in_one_quad() {
    let mesh = gen_flat_mesh(0, 0, 6, 4);
    assert_eq!(mesh.indices.len() % 3, 0);
    for (t, triangle) in mesh.indices.chunks(3).enumerate() {
        let quad = (t / 2) as u32;
        assert_eq!(triangle[0] / 4, quad);
        assert_eq!(triangle[1] / 4, quad);
        assert_eq!(triangle[2] / 4, quad);
        assert!(((triangle[2] + 0) as usize) < mesh.positions.len());
    }
}

#[test]
fn quads_are_tiled_row_by_row_from_the_origin() {
    let mesh = gen_flat_mesh(-3, 10, 2, 2);
    // Quad 1 is the second of the first row, quad 2 the first of the second row.
    assert_eq!(mesh.positions[4], MeshPoint { x: -2, y: 0, z: 10 });
    assert_eq!(mesh.positions[7], MeshPoint { x: -1, y: 0, z: 11 });
    assert_eq!(mesh.positions[8], MeshPoint { x: -3, y: 0, z: 11 });
    assert_eq!(mesh.positions[11], MeshPoint { x: -2, y: 0, z: 12 });
    assert_eq!(&mesh.indices[6..12], &[4, 6, 5, 5, 6, 7]);
    assert_eq!(&mesh.indices[18..24], &[12, 14, 13, 13, 14, 15]);
}

#[test]
fn triangles_wind_counter_clockwise_seen_from_above() {
    let mesh = gen_flat_mesh(0, 0, 3, 2);
    for triangle in mesh.indices.chunks(3) {
        let a = mesh.positions[triangle[0] as usize];
        let b = mesh.positions[triangle[1] as usize];
        let c = mesh.positions[triangle[2] as usize];
        // The y part of (b - a) x (c - a) points up, along the normals.
        let up = (b.z - a.z) * (c.x - a.x) - (b.x - a.x) * (c.z - a.z);
        assert!(up > 0);
    }
}

#[test]
fn same_inputs_give_the_same_mesh() {
    assert_eq!(gen_flat_mesh(5, -7, 9, 4), gen_flat_mesh(5, -7, 9, 4));
}

#[test]
fn each_quad_spans_the_whole_texture() {
    let mesh = gen_flat_mesh(2, 2, 3, 3);
    for quad in mesh.uvs.chunks(4) {
        assert_eq!(
            quad,
            &[
                TexCoord { u: 0, v: 0 },
                TexCoord { u: 1, v: 0 },
                TexCoord { u: 0, v: 1 },
                TexCoord { u: 1, v: 1 },
            ]
        );
    }
}
