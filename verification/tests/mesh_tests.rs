use bluprint_core::map::TileMap;
use bluprint_core::mesh::{gen_chunk_mesh, Face, FaceSide, MeshData};
use bluprint_core::tiles::{Tile, TileChunk, TileSet};

fn mesh_of(chunk: &TileChunk) -> MeshData {
    let map = TileMap::new(TileSet::new());
    gen_chunk_mesh(chunk, (0, 0, 0), &map)
}

fn assert_consistent(mesh: &MeshData, faces: usize) {
    assert_eq!(mesh.positions.len(), 4 * faces);
    assert_eq!(mesh.normals.len(), 4 * faces);
    assert_eq!(mesh.uvs.len(), 4 * faces);
    assert_eq!(mesh.indices.len(), 6 * faces);
    for &i in &mesh.indices {
        assert!((i as usize) < mesh.positions.len());
    }
}

#[test]
fn empty_chunk_yields_empty_mesh() {
    let chunk = TileChunk::new();
    let mesh = mesh_of(&chunk);
    assert_consistent(&mesh, 0);
}

#[test]
fn single_voxel_yields_six_faces() {
    let mut chunk = TileChunk::new();
    chunk.set_tile(3, 5, 7, Some(Tile { tile_id: 0 }));
    let mesh = mesh_of(&chunk);
    assert_consistent(&mesh, 6);
}

#[test]
fn corner_voxel_still_emits_boundary_faces() {
    let mut chunk = TileChunk::new();
    chunk.set_tile(0, 0, 0, Some(Tile { tile_id: 0 }));
    let mesh = mesh_of(&chunk);
    assert_consistent(&mesh, 6);
    // The first emitted face is the one toward -x: its outward normal
    // points left even though the voxel sits on the x = 0 boundary.
    assert_eq!(mesh.normals[0], (-1, 0, 0));
    assert_eq!(mesh.positions[0], (0, 0, 0));
}

#[test]
fn adjacent_voxels_suppress_touching_faces() {
    for (a, b) in [
        ((4, 10, 4), (5, 10, 4)),
        ((4, 10, 4), (4, 11, 4)),
        ((4, 10, 4), (4, 10, 5)),
    ] {
        let mut chunk = TileChunk::new();
        chunk.set_tile(a.0, a.1, a.2, Some(Tile { tile_id: 0 }));
        chunk.set_tile(b.0, b.1, b.2, Some(Tile { tile_id: 0 }));
        let mesh = mesh_of(&chunk);
        assert_consistent(&mesh, 10);
    }
}

#[test]
fn suppressed_faces_are_the_shared_boundary() {
    // Two voxels adjacent along z, at z = 4 and z = 5: the faces on their
    // shared boundary (the z = 5 plane) are suppressed; the end caps at
    // z = 4 (normal -z) and z = 6 (normal +z) are emitted.
    let mut chunk = TileChunk::new();
    chunk.set_tile(4, 10, 4, Some(Tile { tile_id: 0 }));
    chunk.set_tile(4, 10, 5, Some(Tile { tile_id: 0 }));
    let mesh = mesh_of(&chunk);
    let mut minus_z_planes = Vec::new();
    let mut plus_z_planes = Vec::new();
    for f in 0..mesh.normals.len() / 4 {
        let n = mesh.normals[4 * f];
        let plane = mesh.positions[4 * f].2;
        if n == (0, 0, -1) {
            minus_z_planes.push(plane);
        } else if n == (0, 0, 1) {
            plus_z_planes.push(plane);
        }
    }
    assert_eq!(minus_z_planes, vec![4], "one back face, on the outer z = 4 plane");
    assert_eq!(plus_z_planes, vec![6], "one front face, on the outer z = 6 plane");
}

#[test]
fn quad_vertices_are_translated_templates() {
    let mut chunk = TileChunk::new();
    chunk.set_tile(2, 3, 4, Some(Tile { tile_id: 0 }));
    let mesh = mesh_of(&chunk);
    // Face 0 is the left face: template corners translated by (2, 3, 4).
    assert_eq!(mesh.positions[0], (2, 3, 4));
    assert_eq!(mesh.positions[1], (2, 3, 5));
    assert_eq!(mesh.positions[2], (2, 4, 5));
    assert_eq!(mesh.positions[3], (2, 4, 4));
    // The texture coordinates trace the unit square on every face.
    for f in 0..6 {
        assert_eq!(mesh.uvs[4 * f], (0, 0));
        assert_eq!(mesh.uvs[4 * f + 1], (0, 1));
        assert_eq!(mesh.uvs[4 * f + 2], (1, 1));
        assert_eq!(mesh.uvs[4 * f + 3], (1, 0));
    }
}

#[test]
fn winding_is_mirrored_between_opposite_faces() {
    let mut chunk = TileChunk::new();
    chunk.set_tile(8, 20, 8, Some(Tile { tile_id: 0 }));
    let mesh = mesh_of(&chunk);
    // Emission order per voxel: left, right, bottom, top, front, back.
    // Left belongs to the top/left/front family.
    assert_eq!(&mesh.indices[0..6], &[0, 1, 2, 2, 3, 0]);
    // Right belongs to the mirrored bottom/right/back family.
    assert_eq!(&mesh.indices[6..12], &[4, 7, 6, 6, 5, 4]);
    // Bottom: mirrored family, base 8.
    assert_eq!(&mesh.indices[12..18], &[8, 11, 10, 10, 9, 8]);
    // Top: plain family, base 12.
    assert_eq!(&mesh.indices[18..24], &[12, 13, 14, 14, 15, 12]);
}

#[test]
fn face_generate_translates_the_template() {
    let face = Face::generate(FaceSide::Top, (1, 2, 3));
    assert_eq!(face.positions.len(), 4);
    assert_eq!(face.positions[0], (1, 3, 3));
    assert_eq!(face.positions[2], (2, 3, 4));
    assert_eq!(face.normals[0], (0, 1, 0));
    assert_eq!(face.uvs[3], (1, 0));
}

#[test]
fn get_verts_returns_four_template_corners() {
    for side in [
        FaceSide::Top,
        FaceSide::Bottom,
        FaceSide::Left,
        FaceSide::Right,
        FaceSide::Front,
        FaceSide::Back,
    ] {
        let verts = side.get_verts();
        assert_eq!(verts.len(), 4);
        for (corner, _normal, uv) in &verts {
            assert!(corner.0 == 0 || corner.0 == 1);
            assert!(corner.1 == 0 || corner.1 == 1);
            assert!(corner.2 == 0 || corner.2 == 1);
            assert!(uv.0 == 0 || uv.0 == 1);
            assert!(uv.1 == 0 || uv.1 == 1);
        }
    }
}

#[test]
fn full_slab_culls_interior_faces() {
    let mut chunk = TileChunk::new();
    for x in 0..16 {
        for z in 0..16 {
            chunk.set_tile(x, 0, z, Some(Tile { tile_id: 0 }));
        }
    }
    let mesh = mesh_of(&chunk);
    // Every voxel shows top and bottom; side faces only at the slab's rim.
    let faces = 16 * 16 * 2 + 16 * 4;
    assert_consistent(&mesh, faces);
}
