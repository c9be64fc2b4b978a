//! Surface mesh generation: a chunk is turned into triangle-list buffers
//! (vertex positions, normals, texture coordinates, triangle indices) by
//! emitting one quad per externally visible voxel face.
//!
//! A face is visible when its voxel is occupied and the neighbor in that
//! direction, inside this chunk, is empty; a neighbor beyond the chunk's
//! bounds is never consulted, so boundary faces are always emitted (no
//! cross-chunk culling). Each quad is two triangles; the winding is
//! mirrored between opposite face directions so all faces present a
//! consistent outward orientation. Positions are integer lattice
//! coordinates of the voxel grid; scaling to render units is the caller's
//! concern.

use crate::iter3d::{
    coord_at, cuboid_volume, in_cuboid, lemma_coord_rank, lemma_rank_coord, rank3, Iterator3D,
};
use vstd::seq_lib::lemma_concat_associative;
use crate::tiles::{valid_local, TileChunk, CHUNK_SIZE_X, CHUNK_SIZE_Y, CHUNK_SIZE_Z, CHUNK_VOLUME};
use vstd::prelude::*;

verus! {

/// The six face directions of a voxel, named from the renderer's point of
/// view.
#[derive(Clone, Copy, PartialEq, Eq, Structural, Debug)]
pub enum FaceSide {
    Top,
    Bottom,
    Left,
    Right,
    Front,
    Back,
}

impl FaceSide {
    /// The outward normal of this face, as integer components.
    pub open spec fn spec_normal(self) -> (int, int, int) {
        match self {
            FaceSide::Top => (0, 1, 0),
            FaceSide::Bottom => (0, -1, 0),
            FaceSide::Left => (-1, 0, 0),
            FaceSide::Right => (1, 0, 0),
            FaceSide::Front => (0, 0, 1),
            FaceSide::Back => (0, 0, -1),
        }
    }

    /// Corner `v` of this face's quad template: the position offset within
    /// the unit voxel cell, in the fixed corner order the templates use.
    pub open spec fn spec_corner(self, v: int) -> (int, int, int) {
        match self {
            FaceSide::Top => {
                if v == 0 { (0, 1, 0) } else if v == 1 { (0, 1, 1) }
                else if v == 2 { (1, 1, 1) } else { (1, 1, 0) }
            },
            FaceSide::Bottom => {
                if v == 0 { (0, 0, 0) } else if v == 1 { (0, 0, 1) }
                else if v == 2 { (1, 0, 1) } else { (1, 0, 0) }
            },
            FaceSide::Left => {
                if v == 0 { (0, 0, 0) } else if v == 1 { (0, 0, 1) }
                else if v == 2 { (0, 1, 1) } else { (0, 1, 0) }
            },
            FaceSide::Right => {
                if v == 0 { (1, 0, 0) } else if v == 1 { (1, 0, 1) }
                else if v == 2 { (1, 1, 1) } else { (1, 1, 0) }
            },
            FaceSide::Front => {
                if v == 0 { (0, 0, 1) } else if v == 1 { (1, 0, 1) }
                else if v == 2 { (1, 1, 1) } else { (0, 1, 1) }
            },
            FaceSide::Back => {
                if v == 0 { (0, 0, 0) } else if v == 1 { (1, 0, 0) }
                else if v == 2 { (1, 1, 0) } else { (0, 1, 0) }
            },
        }
    }

    /// Returns the four template vertices of this face: position offset,
    /// outward normal, and unit-square texture coordinate per corner.
    pub fn get_verts(self) -> (r: Vec<((i32, i32, i32), (i32, i32, i32), (i32, i32))>)
        ensures
            r@.len() == 4,
            forall|v: int|
                0 <= v < 4 ==> {
                    &&& (#[trigger] r@[v]).0.0 == self.spec_corner(v).0
                    &&& r@[v].0.1 == self.spec_corner(v).1
                    &&& r@[v].0.2 == self.spec_corner(v).2
                    &&& r@[v].1.0 == self.spec_normal().0
                    &&& r@[v].1.1 == self.spec_normal().1
                    &&& r@[v].1.2 == self.spec_normal().2
                    &&& r@[v].2.0 == spec_uv(v).0
                    &&& r@[v].2.1 == spec_uv(v).1
                },
    {
        match self {
            FaceSide::Top => vec![
                ((0, 1, 0), (0, 1, 0), (0, 0)),
                ((0, 1, 1), (0, 1, 0), (0, 1)),
                ((1, 1, 1), (0, 1, 0), (1, 1)),
                ((1, 1, 0), (0, 1, 0), (1, 0)),
            ],
            FaceSide::Bottom => vec![
                ((0, 0, 0), (0, -1, 0), (0, 0)),
                ((0, 0, 1), (0, -1, 0), (0, 1)),
                ((1, 0, 1), (0, -1, 0), (1, 1)),
                ((1, 0, 0), (0, -1, 0), (1, 0)),
            ],
            FaceSide::Left => vec![
                ((0, 0, 0), (-1, 0, 0), (0, 0)),
                ((0, 0, 1), (-1, 0, 0), (0, 1)),
                ((0, 1, 1), (-1, 0, 0), (1, 1)),
                ((0, 1, 0), (-1, 0, 0), (1, 0)),
            ],
            FaceSide::Right => vec![
                ((1, 0, 0), (1, 0, 0), (0, 0)),
                ((1, 0, 1), (1, 0, 0), (0, 1)),
                ((1, 1, 1), (1, 0, 0), (1, 1)),
                ((1, 1, 0), (1, 0, 0), (1, 0)),
            ],
            FaceSide::Front => vec![
                ((0, 0, 1), (0, 0, 1), (0, 0)),
                ((1, 0, 1), (0, 0, 1), (0, 1)),
                ((1, 1, 1), (0, 0, 1), (1, 1)),
                ((0, 1, 1), (0, 0, 1), (1, 0)),
            ],
            FaceSide::Back => vec![
                ((0, 0, 0), (0, 0, -1), (0, 0)),
                ((1, 0, 0), (0, 0, -1), (0, 1)),
                ((1, 1, 0), (0, 0, -1), (1, 1)),
                ((0, 1, 0), (0, 0, -1), (1, 0)),
            ],
        }
    }
}

/// Texture coordinate of quad corner `v`: the corners of the unit square,
/// shared by all six face templates.
pub open spec fn spec_uv(v: int) -> (int, int) {
    if v == 0 { (0, 0) } else if v == 1 { (0, 1) } else if v == 2 { (1, 1) } else { (1, 0) }
}

/// Position of corner `v` of the face quad of `side` for the voxel at `p`:
/// the template corner translated by the voxel position.
pub open spec fn face_vertex(side: FaceSide, p: (int, int, int), v: int) -> (int, int, int) {
    (p.0 + side.spec_corner(v).0, p.1 + side.spec_corner(v).1, p.2 + side.spec_corner(v).2)
}

/// Index offset `j` (of 6) within one quad's two triangles: one winding for
/// the top/left/front family, the mirrored winding for bottom/right/back,
/// so opposite faces both wind outward.
pub open spec fn winding_offset(side: FaceSide, j: int) -> int {
    match side {
        FaceSide::Top | FaceSide::Left | FaceSide::Front => {
            if j == 0 { 0int } else if j == 1 { 1 } else if j == 2 { 2 }
            else if j == 3 { 2 } else if j == 4 { 3 } else { 0 }
        },
        FaceSide::Bottom | FaceSide::Right | FaceSide::Back => {
            if j == 0 { 0int } else if j == 1 { 3 } else if j == 2 { 2 }
            else if j == 3 { 2 } else if j == 4 { 1 } else { 0 }
        },
    }
}

/// One face quad: a direction plus the four translated template vertices.
pub struct Face {
    pub side: FaceSide,
    pub positions: Vec<(i32, i32, i32)>,
    pub normals: Vec<(i32, i32, i32)>,
    pub uvs: Vec<(i32, i32)>,
}

impl Face {
    /// The quad carries exactly the template of `side` translated to the
    /// voxel at `p`.
    pub open spec fn matches(self, side: FaceSide, p: (int, int, int)) -> bool {
        &&& self.side == side
        &&& self.positions@.len() == 4
        &&& self.normals@.len() == 4
        &&& self.uvs@.len() == 4
        &&& forall|v: int|
            0 <= v < 4 ==> {
                &&& (#[trigger] self.positions@[v]).0 == face_vertex(side, p, v).0
                &&& self.positions@[v].1 == face_vertex(side, p, v).1
                &&& self.positions@[v].2 == face_vertex(side, p, v).2
                &&& self.normals@[v].0 == side.spec_normal().0
                &&& self.normals@[v].1 == side.spec_normal().1
                &&& self.normals@[v].2 == side.spec_normal().2
                &&& self.uvs@[v].0 == spec_uv(v).0
                &&& self.uvs@[v].1 == spec_uv(v).1
            }
    }

    /// Builds the face quad of `side` for the voxel at local position
    /// `pos`: each template corner translated by the voxel position.
    pub fn generate(side: FaceSide, pos: (i32, i32, i32)) -> (r: Face)
        requires
            0 <= pos.0 < CHUNK_SIZE_X,
            0 <= pos.1 < CHUNK_SIZE_Y,
            0 <= pos.2 < CHUNK_SIZE_Z,
        ensures
            r.matches(side, (pos.0 as int, pos.1 as int, pos.2 as int)),
    {
        let verts = side.get_verts();
        let mut positions: Vec<(i32, i32, i32)> = Vec::new();
        let mut normals: Vec<(i32, i32, i32)> = Vec::new();
        let mut uvs: Vec<(i32, i32)> = Vec::new();
        let mut v: usize = 0;
        while v < 4
            invariant
                verts@.len() == 4,
                v <= 4,
                positions@.len() == v,
                normals@.len() == v,
                uvs@.len() == v,
                forall|w: int|
                    0 <= w < v ==> {
                        &&& (#[trigger] positions@[w]).0 == face_vertex(
                            side,
                            (pos.0 as int, pos.1 as int, pos.2 as int),
                            w,
                        ).0
                        &&& positions@[w].1 == face_vertex(
                            side,
                            (pos.0 as int, pos.1 as int, pos.2 as int),
                            w,
                        ).1
                        &&& positions@[w].2 == face_vertex(
                            side,
                            (pos.0 as int, pos.1 as int, pos.2 as int),
                            w,
                        ).2
                        &&& normals@[w].0 == side.spec_normal().0
                        &&& normals@[w].1 == side.spec_normal().1
                        &&& normals@[w].2 == side.spec_normal().2
                        &&& uvs@[w].0 == spec_uv(w).0
                        &&& uvs@[w].1 == spec_uv(w).1
                    },
                forall|w: int|
                    0 <= w < 4 ==> {
                        &&& (#[trigger] verts@[w]).0.0 == side.spec_corner(w).0
                        &&& verts@[w].0.1 == side.spec_corner(w).1
                        &&& verts@[w].0.2 == side.spec_corner(w).2
                        &&& verts@[w].1.0 == side.spec_normal().0
                        &&& verts@[w].1.1 == side.spec_normal().1
                        &&& verts@[w].1.2 == side.spec_normal().2
                        &&& verts@[w].2.0 == spec_uv(w).0
                        &&& verts@[w].2.1 == spec_uv(w).1
                    },
                0 <= pos.0 < CHUNK_SIZE_X,
                0 <= pos.1 < CHUNK_SIZE_Y,
                0 <= pos.2 < CHUNK_SIZE_Z,
            decreases 4 - v,
        {
            let (corner, normal, uv) = verts[v];
            proof {
                assert(-1 <= side.spec_corner(v as int).0 <= 1);
                assert(-1 <= side.spec_corner(v as int).1 <= 1);
                assert(-1 <= side.spec_corner(v as int).2 <= 1);
            }
            positions.push((pos.0 + corner.0, pos.1 + corner.1, pos.2 + corner.2));
            normals.push(normal);
            uvs.push(uv);
            v = v + 1;
        }
        Face { side, positions, normals, uvs }
    }
}

/// Triangle-list mesh buffers: positions, normals, and texture coordinates
/// are parallel arrays of four entries per face; indices hold six entries
/// per face, each a valid index into the vertex arrays.
pub struct MeshData {
    pub positions: Vec<(i32, i32, i32)>,
    pub normals: Vec<(i32, i32, i32)>,
    pub uvs: Vec<(i32, i32)>,
    pub indices: Vec<u32>,
}

impl MeshData {
    /// The buffers represent exactly the face sequence `fs`, concatenated
    /// in emission order with indices offset by four per preceding face.
    #[verifier::opaque]
    pub open spec fn matches_faces(self, fs: Seq<(FaceSide, (int, int, int))>) -> bool {
        &&& self.positions@.len() == 4 * fs.len()
        &&& self.normals@.len() == 4 * fs.len()
        &&& self.uvs@.len() == 4 * fs.len()
        &&& self.indices@.len() == 6 * fs.len()
        &&& forall|f: int, v: int|
            0 <= f < fs.len() && 0 <= v < 4 ==> {
                &&& (#[trigger] self.positions@[4 * f + v]).0 == face_vertex(fs[f].0, fs[f].1, v).0
                &&& self.positions@[4 * f + v].1 == face_vertex(fs[f].0, fs[f].1, v).1
                &&& self.positions@[4 * f + v].2 == face_vertex(fs[f].0, fs[f].1, v).2
                &&& self.normals@[4 * f + v].0 == fs[f].0.spec_normal().0
                &&& self.normals@[4 * f + v].1 == fs[f].0.spec_normal().1
                &&& self.normals@[4 * f + v].2 == fs[f].0.spec_normal().2
                &&& self.uvs@[4 * f + v].0 == spec_uv(v).0
                &&& self.uvs@[4 * f + v].1 == spec_uv(v).1
            }
        &&& forall|f: int, j: int|
            0 <= f < fs.len() && 0 <= j < 6 ==> (#[trigger] self.indices@[6 * f + j]) == 4 * f
                + winding_offset(fs[f].0, j)
        &&& forall|i: int|
            0 <= i < self.indices@.len() ==> (#[trigger] self.indices@[i]) < self.positions@.len()
    }

    /// An empty mesh: no faces, nothing to draw.
    pub fn new() -> (r: Self)
        ensures
            r.matches_faces(Seq::empty()),
    {
        let r = MeshData {
            positions: Vec::new(),
            normals: Vec::new(),
            uvs: Vec::new(),
            indices: Vec::new(),
        };
        proof {
            reveal(MeshData::matches_faces);
        }
        r
    }

    /// Appends one face quad: four vertices and six indices, the indices
    /// based at four times the number of faces already present, with the
    /// winding chosen by the face's direction family.
    pub fn push_face(&mut self, face: &Face, Ghost(fs): Ghost<Seq<(FaceSide, (int, int, int))>>, Ghost(p): Ghost<(int, int, int)>)
        requires
            old(self).matches_faces(fs),
            face.matches(face.side, p),
            fs.len() < 0x100_0000,
        ensures
            final(self).matches_faces(fs.push((face.side, p))),
    {
        proof {
            reveal(MeshData::matches_faces);
        }
        let base: u32 = self.positions.len() as u32;
        let p0 = face.positions[0];
        let p1 = face.positions[1];
        let p2 = face.positions[2];
        let p3 = face.positions[3];
        self.positions.push(p0);
        self.positions.push(p1);
        self.positions.push(p2);
        self.positions.push(p3);
        let n0 = face.normals[0];
        self.normals.push(n0);
        self.normals.push(face.normals[1]);
        self.normals.push(face.normals[2]);
        self.normals.push(face.normals[3]);
        self.uvs.push(face.uvs[0]);
        self.uvs.push(face.uvs[1]);
        self.uvs.push(face.uvs[2]);
        self.uvs.push(face.uvs[3]);
        match face.side {
            FaceSide::Top | FaceSide::Left | FaceSide::Front => {
                self.indices.push(base);
                self.indices.push(base + 1);
                self.indices.push(base + 2);
                self.indices.push(base + 2);
                self.indices.push(base + 3);
                self.indices.push(base);
            },
            FaceSide::Bottom | FaceSide::Right | FaceSide::Back => {
                self.indices.push(base);
                self.indices.push(base + 3);
                self.indices.push(base + 2);
                self.indices.push(base + 2);
                self.indices.push(base + 1);
                self.indices.push(base);
            },
        }
        proof {
            let gs = fs.push((face.side, p));
            assert forall|f: int, v: int| 0 <= f < gs.len() && 0 <= v < 4 implies {
                &&& (#[trigger] self.positions@[4 * f + v]).0 == face_vertex(gs[f].0, gs[f].1, v).0
                &&& self.positions@[4 * f + v].1 == face_vertex(gs[f].0, gs[f].1, v).1
                &&& self.positions@[4 * f + v].2 == face_vertex(gs[f].0, gs[f].1, v).2
                &&& self.normals@[4 * f + v].0 == gs[f].0.spec_normal().0
                &&& self.normals@[4 * f + v].1 == gs[f].0.spec_normal().1
                &&& self.normals@[4 * f + v].2 == gs[f].0.spec_normal().2
                &&& self.uvs@[4 * f + v].0 == spec_uv(v).0
                &&& self.uvs@[4 * f + v].1 == spec_uv(v).1
            } by {
                if f < fs.len() {
                    assert(4 * f + v < 4 * fs.len());
                    assert(self.positions@[4 * f + v] == old(self).positions@[4 * f + v]);
                    assert(self.normals@[4 * f + v] == old(self).normals@[4 * f + v]);
                    assert(self.uvs@[4 * f + v] == old(self).uvs@[4 * f + v]);
                } else {
                    assert(f == fs.len());
                    assert(gs[f] == (face.side, p));
                    assert(self.positions@[4 * f + v] == face.positions@[v]);
                    assert(self.normals@[4 * f + v] == face.normals@[v]);
                    assert(self.uvs@[4 * f + v] == face.uvs@[v]);
                }
            }
            assert forall|f: int, j: int| 0 <= f < gs.len() && 0 <= j < 6 implies (
            #[trigger] self.indices@[6 * f + j]) == 4 * f + winding_offset(gs[f].0, j) by {
                if f < fs.len() {
                    assert(6 * f + j < 6 * fs.len());
                    assert(self.indices@[6 * f + j] == old(self).indices@[6 * f + j]);
                }
            }
            assert forall|i: int|
                0 <= i < self.indices@.len() implies (#[trigger] self.indices@[i])
                < self.positions@.len() by {
                if i < 6 * fs.len() {
                    assert(self.indices@[i] == old(self).indices@[i]);
                }
            }
        }
    }
}

/// The buffer sizes and index validity that `matches_faces` pins down:
/// positions, normals, and texture coordinates are parallel arrays of four
/// entries per face, the index array has six entries per face, and every
/// index points inside the vertex arrays.
pub proof fn lemma_mesh_sizes(m: MeshData, fs: Seq<(FaceSide, (int, int, int))>)
    requires
        m.matches_faces(fs),
    ensures
        m.positions@.len() == 4 * fs.len(),
        m.normals@.len() == 4 * fs.len(),
        m.uvs@.len() == 4 * fs.len(),
        m.indices@.len() == 6 * fs.len(),
        forall|i: int|
            0 <= i < m.indices@.len() ==> (#[trigger] m.indices@[i]) < m.positions@.len(),
{
    reveal(MeshData::matches_faces);
}

/// Whether the face of the voxel at local `(x, y, z)` toward `side` is
/// emitted: the voxel is occupied, and the neighbor in that direction is
/// either beyond the chunk's bounds (boundary faces are always emitted) or
/// an empty cell of this chunk.
pub open spec fn face_visible(ch: TileChunk, x: int, y: int, z: int, side: FaceSide) -> bool {
    &&& ch.spec_tile(x, y, z) is Some
    &&& match side {
        FaceSide::Left => x == 0 || ch.spec_tile(x - 1, y, z) is None,
        FaceSide::Right => x == CHUNK_SIZE_X - 1 || ch.spec_tile(x + 1, y, z) is None,
        FaceSide::Bottom => y == 0 || ch.spec_tile(x, y - 1, z) is None,
        FaceSide::Top => y == CHUNK_SIZE_Y - 1 || ch.spec_tile(x, y + 1, z) is None,
        FaceSide::Front => z == CHUNK_SIZE_Z - 1 || ch.spec_tile(x, y, z + 1) is None,
        FaceSide::Back => z == 0 || ch.spec_tile(x, y, z - 1) is None,
    }
}

/// One face record if `vis` holds, else nothing.
pub open spec fn emit_if(vis: bool, side: FaceSide, p: (int, int, int)) -> Seq<
    (FaceSide, (int, int, int)),
> {
    if vis {
        seq![(side, p)]
    } else {
        Seq::empty()
    }
}

/// The faces emitted for the voxel at `(x, y, z)`, in the fixed per-voxel
/// emission order.
pub open spec fn voxel_faces(ch: TileChunk, x: int, y: int, z: int) -> Seq<
    (FaceSide, (int, int, int)),
> {
    emit_if(face_visible(ch, x, y, z, FaceSide::Left), FaceSide::Left, (x, y, z)) + emit_if(
        face_visible(ch, x, y, z, FaceSide::Right),
        FaceSide::Right,
        (x, y, z),
    ) + emit_if(face_visible(ch, x, y, z, FaceSide::Bottom), FaceSide::Bottom, (x, y, z)) + emit_if(
        face_visible(ch, x, y, z, FaceSide::Top),
        FaceSide::Top,
        (x, y, z),
    ) + emit_if(face_visible(ch, x, y, z, FaceSide::Front), FaceSide::Front, (x, y, z)) + emit_if(
        face_visible(ch, x, y, z, FaceSide::Back),
        FaceSide::Back,
        (x, y, z),
    )
}

/// Lower corner of a chunk's local coordinate cuboid.
pub open spec fn chunk_lo() -> (int, int, int) {
    (0, 0, 0)
}

/// Upper corner of a chunk's local coordinate cuboid.
pub open spec fn chunk_hi() -> (int, int, int) {
    (CHUNK_SIZE_X - 1, CHUNK_SIZE_Y - 1, CHUNK_SIZE_Z - 1)
}

/// The faces emitted for the first `k` voxels of the chunk traversal, in
/// row-major traversal order.
pub open spec fn chunk_faces_upto(ch: TileChunk, k: int) -> Seq<(FaceSide, (int, int, int))>
    decreases k,
{
    if k <= 0 {
        Seq::empty()
    } else {
        let p = coord_at(chunk_lo(), chunk_hi(), k - 1);
        chunk_faces_upto(ch, k - 1) + voxel_faces(ch, p.0, p.1, p.2)
    }
}

/// All faces the chunk emits, in traversal order.
pub open spec fn chunk_faces(ch: TileChunk) -> Seq<(FaceSide, (int, int, int))> {
    chunk_faces_upto(ch, CHUNK_VOLUME as int)
}

/// At most six faces are emitted per voxel.
proof fn lemma_faces_upto_len(ch: TileChunk, k: int)
    requires
        k >= 0,
    ensures
        chunk_faces_upto(ch, k).len() <= 6 * k,
    decreases k,
{
    if k > 0 {
        lemma_faces_upto_len(ch, k - 1);
    }
}

/// Generates the surface mesh of one chunk: every local coordinate is
/// visited in row-major order, and each visible face of each occupied voxel
/// contributes one quad (four vertices, six indices) to the buffers. An
/// empty chunk yields an empty mesh. The chunk's world origin and the map
/// are reserved for a cross-chunk culling extension and are not consulted:
/// faces at chunk boundaries are always emitted.
#[allow(unused_variables)]
#[verifier::loop_isolation(false)]
#[verifier::rlimit(100)]
pub fn gen_chunk_mesh(chunk: &TileChunk, chunk_pos: (i32, i32, i32), tile_map: &crate::map::TileMap) -> (r:
    MeshData)
    requires
        chunk.wf(),
    ensures
        r.matches_faces(chunk_faces(*chunk)),
{
    let mut mesh = MeshData::new();
    let mut it = Iterator3D::new(
        (0, 0, 0),
        ((CHUNK_SIZE_X as i32) - 1, (CHUNK_SIZE_Y as i32) - 1, (CHUNK_SIZE_Z as i32) - 1),
    );
    let ghost lo = chunk_lo();
    let ghost hi = chunk_hi();
    proof {
        assert(cuboid_volume(lo, hi) == CHUNK_VOLUME);
    }
    let mut done = false;
    while !done
        invariant
            it.wf(),
            it.spec_start() == lo,
            it.spec_end() == hi,
            0 <= it.index() <= CHUNK_VOLUME,
            mesh.matches_faces(chunk_faces_upto(*chunk, it.index())),
            done ==> it.index() == CHUNK_VOLUME,
        decreases CHUNK_VOLUME - it.index(), (if done { 0int } else { 1int }),
    {
        let ghost k = it.index();
        match it.next() {
            None => {
                done = true;
            },
            Some(c) => {
                proof {
                    lemma_coord_rank(lo, hi, k);
                    lemma_faces_upto_len(*chunk, k);
                }
                emit_voxel(&mut mesh, chunk, c, Ghost(chunk_faces_upto(*chunk, k)));
                proof {
                    let p = coord_at(chunk_lo(), chunk_hi(), k);
                    assert(chunk_faces_upto(*chunk, k + 1) == chunk_faces_upto(*chunk, k)
                        + voxel_faces(*chunk, p.0, p.1, p.2));
                }
            },
        }
    }
    mesh
}

/// The local traversal cuboid has exactly one index per voxel.
proof fn lemma_chunk_cuboid_volume()
    ensures
        cuboid_volume(chunk_lo(), chunk_hi()) == CHUNK_VOLUME,
{
}

/// An unoccupied voxel emits no faces.
proof fn lemma_voxel_faces_unoccupied(ch: TileChunk, x: int, y: int, z: int)
    requires
        ch.spec_tile(x, y, z) is None,
    ensures
        voxel_faces(ch, x, y, z).len() == 0,
{
}

/// Law: mesh generation on a chunk with every cell empty emits no faces at
/// all, so the mesh buffers are empty — nothing to draw, not an error.
pub proof fn lemma_empty_chunk_no_faces(ch: TileChunk)
    requires
        ch.wf(),
        forall|x: int, y: int, z: int|
            valid_local(x, y, z) ==> #[trigger] ch.spec_tile(x, y, z) is None,
    ensures
        chunk_faces(ch).len() == 0,
{
    lemma_upto_empty(ch, CHUNK_VOLUME as int);
}

/// Every traversal prefix of an all-empty chunk emits no faces.
proof fn lemma_upto_empty(ch: TileChunk, k: int)
    requires
        ch.wf(),
        0 <= k <= CHUNK_VOLUME,
        forall|x: int, y: int, z: int|
            valid_local(x, y, z) ==> #[trigger] ch.spec_tile(x, y, z) is None,
    ensures
        chunk_faces_upto(ch, k).len() == 0,
    decreases k,
{
    if k > 0 {
        lemma_upto_empty(ch, k - 1);
        lemma_chunk_cuboid_volume();
        lemma_coord_rank(chunk_lo(), chunk_hi(), k - 1);
        let p = coord_at(chunk_lo(), chunk_hi(), k - 1);
        assert(ch.spec_tile(p.0, p.1, p.2) is None);
        lemma_voxel_faces_unoccupied(ch, p.0, p.1, p.2);
    }
}

/// A voxel whose six in-bounds neighbors are all empty emits all six faces.
proof fn lemma_voxel_faces_isolated(ch: TileChunk, p: (int, int, int))
    requires
        ch.wf(),
        valid_local(p.0, p.1, p.2),
        ch.spec_tile(p.0, p.1, p.2) is Some,
        forall|x: int, y: int, z: int|
            valid_local(x, y, z) && (x, y, z) != p ==> #[trigger] ch.spec_tile(x, y, z) is None,
    ensures
        voxel_faces(ch, p.0, p.1, p.2).len() == 6,
{
    if p.0 > 0 {
        assert(ch.spec_tile(p.0 - 1, p.1, p.2) is None);
    }
    if p.0 < CHUNK_SIZE_X - 1 {
        assert(ch.spec_tile(p.0 + 1, p.1, p.2) is None);
    }
    if p.1 > 0 {
        assert(ch.spec_tile(p.0, p.1 - 1, p.2) is None);
    }
    if p.1 < CHUNK_SIZE_Y - 1 {
        assert(ch.spec_tile(p.0, p.1 + 1, p.2) is None);
    }
    if p.2 > 0 {
        assert(ch.spec_tile(p.0, p.1, p.2 - 1) is None);
    }
    if p.2 < CHUNK_SIZE_Z - 1 {
        assert(ch.spec_tile(p.0, p.1, p.2 + 1) is None);
    }
}

/// Law: mesh generation on a chunk with exactly one occupied voxel emits
/// exactly six faces, one per direction — a face toward the chunk boundary
/// is emitted even when the voxel sits on that boundary, since a neighbor
/// beyond the bounds is never consulted. With `lemma_mesh_sizes` this gives
/// 24 vertices and 36 in-bounds indices.
pub proof fn lemma_single_voxel_six_faces(ch: TileChunk, p: (int, int, int))
    requires
        ch.wf(),
        valid_local(p.0, p.1, p.2),
        ch.spec_tile(p.0, p.1, p.2) is Some,
        forall|x: int, y: int, z: int|
            valid_local(x, y, z) && (x, y, z) != p ==> #[trigger] ch.spec_tile(x, y, z) is None,
    ensures
        chunk_faces(ch).len() == 6,
{
    lemma_upto_single(ch, p, CHUNK_VOLUME as int);
    lemma_chunk_cuboid_volume();
    lemma_rank_coord(chunk_lo(), chunk_hi(), p);
}

/// Every traversal prefix of a single-voxel chunk emits six faces once the
/// occupied voxel has been passed, and none before.
proof fn lemma_upto_single(ch: TileChunk, p: (int, int, int), k: int)
    requires
        ch.wf(),
        0 <= k <= CHUNK_VOLUME,
        valid_local(p.0, p.1, p.2),
        ch.spec_tile(p.0, p.1, p.2) is Some,
        forall|x: int, y: int, z: int|
            valid_local(x, y, z) && (x, y, z) != p ==> #[trigger] ch.spec_tile(x, y, z) is None,
    ensures
        chunk_faces_upto(ch, k).len() == if rank3(chunk_lo(), chunk_hi(), p) < k {
            6int
        } else {
            0int
        },
    decreases k,
{
    lemma_chunk_cuboid_volume();
    lemma_rank_coord(chunk_lo(), chunk_hi(), p);
    if k > 0 {
        lemma_upto_single(ch, p, k - 1);
        lemma_coord_rank(chunk_lo(), chunk_hi(), k - 1);
        let q = coord_at(chunk_lo(), chunk_hi(), k - 1);
        if q == p {
            lemma_voxel_faces_isolated(ch, p);
        } else {
            assert(ch.spec_tile(q.0, q.1, q.2) is None);
            lemma_voxel_faces_unoccupied(ch, q.0, q.1, q.2);
        }
    }
}

/// In a chunk whose only occupied voxels are the adjacent pair `a` and `b`,
/// voxel `a` emits exactly five faces: the face toward `b` is suppressed
/// and the other five are emitted.
proof fn lemma_pair_voxel_faces(ch: TileChunk, a: (int, int, int), b: (int, int, int))
    requires
        ch.wf(),
        valid_local(a.0, a.1, a.2),
        valid_local(b.0, b.1, b.2),
        ch.spec_tile(a.0, a.1, a.2) is Some,
        ch.spec_tile(b.0, b.1, b.2) is Some,
        forall|x: int, y: int, z: int|
            valid_local(x, y, z) && (x, y, z) != a && (x, y, z) != b
                ==> #[trigger] ch.spec_tile(x, y, z) is None,
        b == (a.0 + 1, a.1, a.2) || b == (a.0, a.1 + 1, a.2) || b == (a.0, a.1, a.2 + 1) || a == (
        b.0 + 1,
        b.1,
        b.2,
        ) || a == (b.0, b.1 + 1, b.2) || a == (b.0, b.1, b.2 + 1),
    ensures
        voxel_faces(ch, a.0, a.1, a.2).len() == 5,
{
    if a.0 > 0 && (a.0 - 1, a.1, a.2) != b {
        assert(ch.spec_tile(a.0 - 1, a.1, a.2) is None);
    }
    if a.0 < CHUNK_SIZE_X - 1 && (a.0 + 1, a.1, a.2) != b {
        assert(ch.spec_tile(a.0 + 1, a.1, a.2) is None);
    }
    if a.1 > 0 && (a.0, a.1 - 1, a.2) != b {
        assert(ch.spec_tile(a.0, a.1 - 1, a.2) is None);
    }
    if a.1 < CHUNK_SIZE_Y - 1 && (a.0, a.1 + 1, a.2) != b {
        assert(ch.spec_tile(a.0, a.1 + 1, a.2) is None);
    }
    if a.2 > 0 && (a.0, a.1, a.2 - 1) != b {
        assert(ch.spec_tile(a.0, a.1, a.2 - 1) is None);
    }
    if a.2 < CHUNK_SIZE_Z - 1 && (a.0, a.1, a.2 + 1) != b {
        assert(ch.spec_tile(a.0, a.1, a.2 + 1) is None);
    }
}

/// Law: mesh generation on a chunk with exactly two occupied voxels that
/// are adjacent along one axis suppresses exactly the two faces where they
/// touch, emitting ten faces in total rather than twelve.
pub proof fn lemma_adjacent_voxels_ten_faces(ch: TileChunk, p: (int, int, int), q: (int, int, int))
    requires
        ch.wf(),
        valid_local(p.0, p.1, p.2),
        valid_local(q.0, q.1, q.2),
        ch.spec_tile(p.0, p.1, p.2) is Some,
        ch.spec_tile(q.0, q.1, q.2) is Some,
        forall|x: int, y: int, z: int|
            valid_local(x, y, z) && (x, y, z) != p && (x, y, z) != q
                ==> #[trigger] ch.spec_tile(x, y, z) is None,
        q == (p.0 + 1, p.1, p.2) || q == (p.0, p.1 + 1, p.2) || q == (p.0, p.1, p.2 + 1),
    ensures
        chunk_faces(ch).len() == 10,
{
    lemma_upto_pair(ch, p, q, CHUNK_VOLUME as int);
    lemma_chunk_cuboid_volume();
    lemma_rank_coord(chunk_lo(), chunk_hi(), p);
    lemma_rank_coord(chunk_lo(), chunk_hi(), q);
}

/// Every traversal prefix of the two-voxel chunk counts five faces for each
/// of the pair once passed.
proof fn lemma_upto_pair(ch: TileChunk, p: (int, int, int), q: (int, int, int), k: int)
    requires
        ch.wf(),
        0 <= k <= CHUNK_VOLUME,
        valid_local(p.0, p.1, p.2),
        valid_local(q.0, q.1, q.2),
        ch.spec_tile(p.0, p.1, p.2) is Some,
        ch.spec_tile(q.0, q.1, q.2) is Some,
        forall|x: int, y: int, z: int|
            valid_local(x, y, z) && (x, y, z) != p && (x, y, z) != q
                ==> #[trigger] ch.spec_tile(x, y, z) is None,
        q == (p.0 + 1, p.1, p.2) || q == (p.0, p.1 + 1, p.2) || q == (p.0, p.1, p.2 + 1),
    ensures
        chunk_faces_upto(ch, k).len() == (if rank3(chunk_lo(), chunk_hi(), p) < k {
            5int
        } else {
            0int
        }) + (if rank3(chunk_lo(), chunk_hi(), q) < k {
            5int
        } else {
            0int
        }),
    decreases k,
{
    lemma_chunk_cuboid_volume();
    lemma_rank_coord(chunk_lo(), chunk_hi(), p);
    lemma_rank_coord(chunk_lo(), chunk_hi(), q);
    if k > 0 {
        lemma_upto_pair(ch, p, q, k - 1);
        lemma_coord_rank(chunk_lo(), chunk_hi(), k - 1);
        let w = coord_at(chunk_lo(), chunk_hi(), k - 1);
        if w == p {
            lemma_pair_voxel_faces(ch, p, q);
        } else if w == q {
            lemma_pair_voxel_faces(ch, q, p);
        } else {
            assert(ch.spec_tile(w.0, w.1, w.2) is None);
            lemma_voxel_faces_unoccupied(ch, w.0, w.1, w.2);
        }
    }
}

/// Appends one face quad to the mesh when `vis` holds, else appends
/// nothing.
fn emit_side(
    mesh: &mut MeshData,
    side: FaceSide,
    c: (i32, i32, i32),
    vis: bool,
    Ghost(fs0): Ghost<Seq<(FaceSide, (int, int, int))>>,
)
    requires
        old(mesh).matches_faces(fs0),
        fs0.len() <= 6 * CHUNK_VOLUME + 5,
        0 <= c.0 < CHUNK_SIZE_X,
        0 <= c.1 < CHUNK_SIZE_Y,
        0 <= c.2 < CHUNK_SIZE_Z,
    ensures
        final(mesh).matches_faces(
            fs0 + emit_if(vis, side, (c.0 as int, c.1 as int, c.2 as int)),
        ),
{
    let ghost pw = (c.0 as int, c.1 as int, c.2 as int);
    if vis {
        let face = Face::generate(side, c);
        mesh.push_face(&face, Ghost(fs0), Ghost(pw));
        proof {
            assert(fs0.push((side, pw)) =~= fs0 + emit_if(vis, side, pw));
        }
    } else {
        proof {
            assert(fs0 =~= fs0 + emit_if(vis, side, pw));
        }
    }
}

/// Appends the visible faces of the voxel at local position `c`, in the
/// fixed per-voxel emission order; an unoccupied voxel appends nothing.
#[verifier::rlimit(100)]
fn emit_voxel(
    mesh: &mut MeshData,
    chunk: &TileChunk,
    c: (i32, i32, i32),
    Ghost(fs0): Ghost<Seq<(FaceSide, (int, int, int))>>,
)
    requires
        chunk.wf(),
        old(mesh).matches_faces(fs0),
        fs0.len() <= 6 * CHUNK_VOLUME,
        0 <= c.0 < CHUNK_SIZE_X,
        0 <= c.1 < CHUNK_SIZE_Y,
        0 <= c.2 < CHUNK_SIZE_Z,
    ensures
        final(mesh).matches_faces(fs0 + voxel_faces(*chunk, c.0 as int, c.1 as int, c.2 as int)),
{
    let (x, y, z) = c;
    let xu = x as usize;
    let yu = y as usize;
    let zu = z as usize;
    let ghost pw = (x as int, y as int, z as int);
    let occ = chunk.get_tile(xu, yu, zu).is_some();
    let vl = occ && (x == 0 || chunk.get_tile(xu - 1, yu, zu).is_none());
    let vr = occ && (x == (CHUNK_SIZE_X as i32) - 1 || chunk.get_tile(xu + 1, yu, zu).is_none());
    let vb = occ && (y == 0 || chunk.get_tile(xu, yu - 1, zu).is_none());
    let vt = occ && (y == (CHUNK_SIZE_Y as i32) - 1 || chunk.get_tile(xu, yu + 1, zu).is_none());
    let vf = occ && (z == (CHUNK_SIZE_Z as i32) - 1 || chunk.get_tile(xu, yu, zu + 1).is_none());
    let vk = occ && (z == 0 || chunk.get_tile(xu, yu, zu - 1).is_none());
    proof {
        assert(vl == face_visible(*chunk, pw.0, pw.1, pw.2, FaceSide::Left));
        assert(vr == face_visible(*chunk, pw.0, pw.1, pw.2, FaceSide::Right));
        assert(vb == face_visible(*chunk, pw.0, pw.1, pw.2, FaceSide::Bottom));
        assert(vt == face_visible(*chunk, pw.0, pw.1, pw.2, FaceSide::Top));
        assert(vf == face_visible(*chunk, pw.0, pw.1, pw.2, FaceSide::Front));
        assert(vk == face_visible(*chunk, pw.0, pw.1, pw.2, FaceSide::Back));
    }
    let ghost e1 = emit_if(vl, FaceSide::Left, pw);
    let ghost e2 = emit_if(vr, FaceSide::Right, pw);
    let ghost e3 = emit_if(vb, FaceSide::Bottom, pw);
    let ghost e4 = emit_if(vt, FaceSide::Top, pw);
    let ghost e5 = emit_if(vf, FaceSide::Front, pw);
    let ghost e6 = emit_if(vk, FaceSide::Back, pw);
    emit_side(mesh, FaceSide::Left, c, vl, Ghost(fs0));
    emit_side(mesh, FaceSide::Right, c, vr, Ghost(fs0 + e1));
    emit_side(mesh, FaceSide::Bottom, c, vb, Ghost(fs0 + e1 + e2));
    emit_side(mesh, FaceSide::Top, c, vt, Ghost(fs0 + e1 + e2 + e3));
    emit_side(mesh, FaceSide::Front, c, vf, Ghost(fs0 + e1 + e2 + e3 + e4));
    emit_side(mesh, FaceSide::Back, c, vk, Ghost(fs0 + e1 + e2 + e3 + e4 + e5));
    proof {
        assert(voxel_faces(*chunk, pw.0, pw.1, pw.2) == e1 + e2 + e3 + e4 + e5 + e6);
        lemma_concat_associative(fs0, e1, e2);
        lemma_concat_associative(fs0, e1 + e2, e3);
        lemma_concat_associative(fs0, e1 + e2 + e3, e4);
        lemma_concat_associative(fs0, e1 + e2 + e3 + e4, e5);
        lemma_concat_associative(fs0, e1 + e2 + e3 + e4 + e5, e6);
        assert(fs0 + e1 + e2 + e3 + e4 + e5 + e6 == fs0 + (e1 + e2 + e3 + e4 + e5 + e6));
    }
}

} // verus!
