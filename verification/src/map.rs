//! The sparse chunked map: a mapping from chunk coordinates to dense
//! chunks, with point and cuboid-range reads and writes over world
//! coordinates.
//!
//! World coordinates are mapped to a chunk coordinate by floor division
//! with the chunk extent, and to a local coordinate inside that chunk by
//! the floor-based remainder, uniformly on every code path, so negative
//! world coordinates land in the correct chunk. Chunks are created lazily
//! on first write. The three chunk coordinates are packed into one wide
//! integer to key the underlying hash map; the packing is injective over
//! the whole coordinate range.

use crate::coords::{chunk_coord, floor_div, floor_mod, lemma_coord_roundtrip, local_coord};
use crate::iter3d::{
    cuboid_volume, in_cuboid, lemma_coord_rank, lemma_rank_coord, rank3, Iterator3D,
};
use crate::tiles::{
    valid_local, Tile, TileChunk, TileSet, CHUNK_SIZE_X, CHUNK_SIZE_Y, CHUNK_SIZE_Z,
};
use std::collections::HashMap;
use vstd::arithmetic::div_mod::{
    lemma_div_is_ordered, lemma_div_multiples_vanish, lemma_fundamental_div_mod,
    lemma_fundamental_div_mod_converse, lemma_mod_bound,
};
use vstd::prelude::*;

verus! {

broadcast use vstd::std_specs::hash::group_hash_axioms;

/// Whether each component lies in the signed 32-bit world coordinate range.
pub open spec fn in_world(x: int, y: int, z: int) -> bool {
    &&& i32::MIN <= x <= i32::MAX
    &&& i32::MIN <= y <= i32::MAX
    &&& i32::MIN <= z <= i32::MAX
}

/// The chunk coordinate containing world position `(x, y, z)`, per axis the
/// floor of the world coordinate over the chunk extent.
pub open spec fn chunk_of(x: int, y: int, z: int) -> (int, int, int) {
    (
        chunk_coord(x, CHUNK_SIZE_X as int),
        chunk_coord(y, CHUNK_SIZE_Y as int),
        chunk_coord(z, CHUNK_SIZE_Z as int),
    )
}

/// The local coordinate of world position `(x, y, z)` inside its chunk.
pub open spec fn local_of(x: int, y: int, z: int) -> (int, int, int) {
    (
        local_coord(x, CHUNK_SIZE_X as int),
        local_coord(y, CHUNK_SIZE_Y as int),
        local_coord(z, CHUNK_SIZE_Z as int),
    )
}

/// A world position decomposes into its chunk and local coordinates: the
/// local triple is in range for the chunk extents, the chunk coordinates
/// stay in the 32-bit range, and each axis recombines exactly.
pub proof fn lemma_world_decompose(x: int, y: int, z: int)
    requires
        in_world(x, y, z),
    ensures
        valid_local(local_of(x, y, z).0, local_of(x, y, z).1, local_of(x, y, z).2),
        i32::MIN <= chunk_of(x, y, z).0 <= i32::MAX,
        i32::MIN <= chunk_of(x, y, z).1 <= i32::MAX,
        i32::MIN <= chunk_of(x, y, z).2 <= i32::MAX,
        chunk_of(x, y, z).0 * CHUNK_SIZE_X + local_of(x, y, z).0 == x,
        chunk_of(x, y, z).1 * CHUNK_SIZE_Y + local_of(x, y, z).1 == y,
        chunk_of(x, y, z).2 * CHUNK_SIZE_Z + local_of(x, y, z).2 == z,
{
    lemma_coord_roundtrip(x, CHUNK_SIZE_X as int);
    lemma_coord_roundtrip(y, CHUNK_SIZE_Y as int);
    lemma_coord_roundtrip(z, CHUNK_SIZE_Z as int);
}

/// The packed hash key under which the chunk at coordinate `c` is stored:
/// the three coordinates written in base 2^32. Injective over 32-bit chunk
/// coordinates.
pub open spec fn chunk_key(c: (int, int, int)) -> int {
    c.0 + 0x1_0000_0000 * (c.1 + 0x1_0000_0000 * c.2)
}

/// Whether each component of a chunk coordinate lies in the signed 32-bit
/// range.
pub open spec fn valid_chunk_coord(c: (int, int, int)) -> bool {
    &&& i32::MIN <= c.0 <= i32::MAX
    &&& i32::MIN <= c.1 <= i32::MAX
    &&& i32::MIN <= c.2 <= i32::MAX
}

/// Distinct chunk coordinates pack to distinct keys.
pub proof fn lemma_chunk_key_injective(a: (int, int, int), b: (int, int, int))
    requires
        valid_chunk_coord(a),
        valid_chunk_coord(b),
        chunk_key(a) == chunk_key(b),
    ensures
        a == b,
{
    assert(a.0 == b.0 && a.1 == b.1 && a.2 == b.2);
}

/// The first world coordinate, on one axis, of the chunk with index `c`.
fn chunk_base(c: i32, size: i32) -> (r: i64)
    requires
        1 <= size <= 64,
    ensures
        r == c as int * size as int,
        -0x20_0000_0000 <= r <= 0x20_0000_0000,
{
    proof {
        assert(-0x20_0000_0000 <= (c as int) * (size as int) <= 0x20_0000_0000)
            by (nonlinear_arith)
            requires
                -0x8000_0000 <= c as int <= 0x7fff_ffff,
                1 <= size as int <= 64,
        ;
    }
    (c as i64) * (size as i64)
}

/// Packs a chunk coordinate into its hash key.
fn chunk_key_exec(c: (i32, i32, i32)) -> (k: i128)
    ensures
        k as int == chunk_key((c.0 as int, c.1 as int, c.2 as int)),
{
    (c.0 as i128) + 0x1_0000_0000i128 * ((c.1 as i128) + 0x1_0000_0000i128 * (c.2 as i128))
}

/// The sparse chunked world: a tile-type catalog handle plus a mapping
/// from packed chunk coordinate to chunk, populated lazily on first write.
pub struct TileMap {
    tile_set: TileSet,
    chunks: HashMap<i128, TileChunk>,
}

impl TileMap {
    /// Every stored chunk has the full complement of cells.
    pub closed spec fn wf(&self) -> bool {
        forall|k: i128| #[trigger] self.chunks@.contains_key(k) ==> self.chunks@[k].wf()
    }

    /// The tile-type catalog this map was built over.
    pub closed spec fn spec_tile_set(&self) -> TileSet {
        self.tile_set
    }

    /// The chunk stored at chunk coordinate `c`, or `None` if absent.
    pub closed spec fn spec_chunk_at(&self, c: (int, int, int)) -> Option<TileChunk> {
        if self.chunks@.contains_key(chunk_key(c) as i128) {
            Some(self.chunks@[chunk_key(c) as i128])
        } else {
            None
        }
    }

    /// Two-level read of world position `(x, y, z)`: `None` when its chunk
    /// is absent, otherwise the stored optional payload.
    pub open spec fn stored_tile_at(&self, x: int, y: int, z: int) -> Option<Option<Tile>> {
        match self.spec_chunk_at(chunk_of(x, y, z)) {
            Some(ch) => Some(
                ch.spec_tile(local_of(x, y, z).0, local_of(x, y, z).1, local_of(x, y, z).2),
            ),
            None => None,
        }
    }

    /// Collapsed read of world position `(x, y, z)`: an absent chunk and an
    /// empty cell both read as `None`.
    pub open spec fn tile_at(&self, x: int, y: int, z: int) -> Option<Tile> {
        match self.stored_tile_at(x, y, z) {
            Some(t) => t,
            None => None,
        }
    }

    /// Creates a map over the given catalog, with no chunks.
    pub fn new(tile_set: TileSet) -> (r: Self)
        ensures
            r.wf(),
            r.spec_tile_set() == tile_set,
            forall|c: (int, int, int)| #[trigger] r.spec_chunk_at(c) is None,
    {
        Self { tile_set, chunks: HashMap::new() }
    }

    /// The chunk at chunk coordinate `(cx, cy, cz)`, or `None` if absent;
    /// never creates a chunk.
    pub fn get_chunk(&self, cx: i32, cy: i32, cz: i32) -> (r: Option<&TileChunk>)
        requires
            self.wf(),
        ensures
            match r {
                Some(ch) => self.spec_chunk_at((cx as int, cy as int, cz as int)) == Some(*ch)
                    && ch.wf(),
                None => self.spec_chunk_at((cx as int, cy as int, cz as int)) is None,
            },
    {
        let key = chunk_key_exec((cx, cy, cz));
        self.chunks.get(&key)
    }

    /// Reads the voxel at world coordinates: `None` when the containing
    /// chunk is absent, otherwise the chunk's stored optional payload.
    pub fn get_tile_at(&self, x: i32, y: i32, z: i32) -> (r: Option<Option<Tile>>)
        requires
            self.wf(),
        ensures
            r == self.stored_tile_at(x as int, y as int, z as int),
    {
        proof {
            lemma_world_decompose(x as int, y as int, z as int);
        }
        let cx = floor_div(x, CHUNK_SIZE_X as i32);
        let cy = floor_div(y, CHUNK_SIZE_Y as i32);
        let cz = floor_div(z, CHUNK_SIZE_Z as i32);
        let key = chunk_key_exec((cx, cy, cz));
        match self.chunks.get(&key) {
            None => None,
            Some(chunk) => {
                let lx = floor_mod(x, CHUNK_SIZE_X as i32) as usize;
                let ly = floor_mod(y, CHUNK_SIZE_Y as i32) as usize;
                let lz = floor_mod(z, CHUNK_SIZE_Z as i32) as usize;
                Some(chunk.get_tile(lx, ly, lz))
            },
        }
    }
    /// Reads the voxel at world coordinates, first creating an empty chunk
    /// there if none exists, so the containing chunk is afterwards always
    /// present. Every voxel keeps its (collapsed) value, and every other
    /// chunk is untouched.
    pub fn get_tile_at_or_create_chunk(&mut self, x: i32, y: i32, z: i32) -> (r: Option<Tile>)
        requires
            old(self).wf(),
        ensures
            final(self).wf(),
            final(self).spec_tile_set() == old(self).spec_tile_set(),
            r == old(self).tile_at(x as int, y as int, z as int),
            final(self).spec_chunk_at(chunk_of(x as int, y as int, z as int)) is Some,
            final(self).stored_tile_at(x as int, y as int, z as int) == Some(r),
            forall|c: (int, int, int)|
                valid_chunk_coord(c) && c != chunk_of(x as int, y as int, z as int)
                    ==> final(self).spec_chunk_at(c) == old(self).spec_chunk_at(c),
            forall|x2: int, y2: int, z2: int|
                in_world(x2, y2, z2) ==> final(self).tile_at(x2, y2, z2) == old(self).tile_at(
                    x2,
                    y2,
                    z2,
                ),
    {
        proof {
            lemma_world_decompose(x as int, y as int, z as int);
        }
        let cx = floor_div(x, CHUNK_SIZE_X as i32);
        let cy = floor_div(y, CHUNK_SIZE_Y as i32);
        let cz = floor_div(z, CHUNK_SIZE_Z as i32);
        let key = chunk_key_exec((cx, cy, cz));
        let ghost cpos = (cx as int, cy as int, cz as int);
        if !self.chunks.contains_key(&key) {
            self.chunks.insert(key, TileChunk::new());
        }
        proof {
            assert forall|c: (int, int, int)|
                valid_chunk_coord(c) && c != cpos implies self.spec_chunk_at(c)
                == old(self).spec_chunk_at(c) by {
                lemma_chunk_key_injective_contra(c, cpos);
            }
            assert forall|x2: int, y2: int, z2: int|
                in_world(x2, y2, z2) implies self.tile_at(x2, y2, z2)
                == old(self).tile_at(x2, y2, z2) by {
                lemma_world_decompose(x2, y2, z2);
                if chunk_of(x2, y2, z2) != cpos {
                    lemma_chunk_key_injective_contra(chunk_of(x2, y2, z2), cpos);
                }
            }
        }
        let lx = floor_mod(x, CHUNK_SIZE_X as i32) as usize;
        let ly = floor_mod(y, CHUNK_SIZE_Y as i32) as usize;
        let lz = floor_mod(z, CHUNK_SIZE_Z as i32) as usize;
        match self.chunks.get(&key) {
            Some(chunk) => chunk.get_tile(lx, ly, lz),
            None => {
                proof {
                    assert(false);
                }
                None
            },
        }
    }

    /// Writes the optional payload at world coordinates, creating the
    /// containing chunk first if absent. Writing `None` clears the voxel
    /// without removing the chunk. Every other voxel keeps its value.
    pub fn set_tile_at(&mut self, pos: (i32, i32, i32), tile: Option<Tile>)
        requires
            old(self).wf(),
        ensures
            final(self).wf(),
            final(self).spec_tile_set() == old(self).spec_tile_set(),
            final(self).stored_tile_at(pos.0 as int, pos.1 as int, pos.2 as int) == Some(tile),
            final(self).tile_at(pos.0 as int, pos.1 as int, pos.2 as int) == tile,
            forall|c: (int, int, int)|
                valid_chunk_coord(c) && c != chunk_of(pos.0 as int, pos.1 as int, pos.2 as int)
                    ==> final(self).spec_chunk_at(c) == old(self).spec_chunk_at(c),
            forall|x2: int, y2: int, z2: int|
                in_world(x2, y2, z2) && (x2, y2, z2) != (pos.0 as int, pos.1 as int, pos.2 as int)
                    ==> final(self).tile_at(x2, y2, z2) == old(self).tile_at(x2, y2, z2),
    {
        proof {
            lemma_world_decompose(pos.0 as int, pos.1 as int, pos.2 as int);
        }
        let cx = floor_div(pos.0, CHUNK_SIZE_X as i32);
        let cy = floor_div(pos.1, CHUNK_SIZE_Y as i32);
        let cz = floor_div(pos.2, CHUNK_SIZE_Z as i32);
        let key = chunk_key_exec((cx, cy, cz));
        let ghost cpos = (cx as int, cy as int, cz as int);
        let mut chunk = match self.chunks.remove(&key) {
            Some(c) => c,
            None => TileChunk::new(),
        };
        let lx = floor_mod(pos.0, CHUNK_SIZE_X as i32) as usize;
        let ly = floor_mod(pos.1, CHUNK_SIZE_Y as i32) as usize;
        let lz = floor_mod(pos.2, CHUNK_SIZE_Z as i32) as usize;
        chunk.set_tile(lx, ly, lz, tile);
        self.chunks.insert(key, chunk);
        proof {
            assert(self.chunks@ =~= old(self).chunks@.insert(key, chunk));
            assert forall|c: (int, int, int)|
                valid_chunk_coord(c) && c != cpos implies self.spec_chunk_at(c)
                == old(self).spec_chunk_at(c) by {
                lemma_chunk_key_injective_contra(c, cpos);
            }
            assert forall|x2: int, y2: int, z2: int|
                in_world(x2, y2, z2) && (x2, y2, z2) != (pos.0 as int, pos.1 as int, pos.2 as int)
                 implies self.tile_at(x2, y2, z2) == old(self).tile_at(x2, y2, z2) by {
                lemma_world_decompose(x2, y2, z2);
                if chunk_of(x2, y2, z2) != cpos {
                    lemma_chunk_key_injective_contra(chunk_of(x2, y2, z2), cpos);
                }
            }
        }
    }
    /// Fills every voxel of the inclusive world cuboid `[start, end]` with
    /// the same optional payload, creating chunks as needed; every voxel
    /// outside the cuboid keeps its (collapsed) value. The request is
    /// decomposed chunk by chunk: the covering chunk cuboid (by floor
    /// division per axis) is enumerated in row-major order, and inside each
    /// chunk the intersection of the requested cuboid with that chunk's
    /// bounds is filled, so arbitrarily large requests split across chunks
    /// with no gaps and no stray writes.
    #[verifier::loop_isolation(false)]
    #[verifier::rlimit(100)]
    #[verifier::spinoff_prover]
    pub fn set_tile_range(
        &mut self,
        start: (i32, i32, i32),
        end: (i32, i32, i32),
        tile: Option<Tile>,
    )
        requires
            old(self).wf(),
            start.0 <= end.0,
            start.1 <= end.1,
            start.2 <= end.2,
        ensures
            final(self).wf(),
            final(self).spec_tile_set() == old(self).spec_tile_set(),
            forall|x: int, y: int, z: int|
                in_cuboid(
                    (x, y, z),
                    (start.0 as int, start.1 as int, start.2 as int),
                    (end.0 as int, end.1 as int, end.2 as int),
                ) ==> #[trigger] final(self).tile_at(x, y, z) == tile,
            forall|x: int, y: int, z: int|
                in_world(x, y, z) && !in_cuboid(
                    (x, y, z),
                    (start.0 as int, start.1 as int, start.2 as int),
                    (end.0 as int, end.1 as int, end.2 as int),
                ) ==> #[trigger] final(self).tile_at(x, y, z) == old(self).tile_at(x, y, z),
            forall|c: (int, int, int)|
                in_cuboid(
                    c,
                    chunk_of(start.0 as int, start.1 as int, start.2 as int),
                    chunk_of(end.0 as int, end.1 as int, end.2 as int),
                ) ==> #[trigger] final(self).spec_chunk_at(c) is Some,
            forall|c: (int, int, int)|
                valid_chunk_coord(c) && !in_cuboid(
                    c,
                    chunk_of(start.0 as int, start.1 as int, start.2 as int),
                    chunk_of(end.0 as int, end.1 as int, end.2 as int),
                ) ==> #[trigger] final(self).spec_chunk_at(c) == old(self).spec_chunk_at(c),
    {
        let ghost sw = (start.0 as int, start.1 as int, start.2 as int);
        let ghost ew = (end.0 as int, end.1 as int, end.2 as int);
        let cs = (
            floor_div(start.0, CHUNK_SIZE_X as i32),
            floor_div(start.1, CHUNK_SIZE_Y as i32),
            floor_div(start.2, CHUNK_SIZE_Z as i32),
        );
        let ce = (
            floor_div(end.0, CHUNK_SIZE_X as i32),
            floor_div(end.1, CHUNK_SIZE_Y as i32),
            floor_div(end.2, CHUNK_SIZE_Z as i32),
        );
        proof {
            lemma_div_is_ordered(sw.0, ew.0, CHUNK_SIZE_X as int);
            lemma_div_is_ordered(sw.1, ew.1, CHUNK_SIZE_Y as int);
            lemma_div_is_ordered(sw.2, ew.2, CHUNK_SIZE_Z as int);
        }
        let ghost csw = (cs.0 as int, cs.1 as int, cs.2 as int);
        let ghost cew = (ce.0 as int, ce.1 as int, ce.2 as int);
        let mut it = Iterator3D::new(cs, ce);
        let mut done = false;
        while !done
            invariant
                self.wf(),
                self.spec_tile_set() == old(self).spec_tile_set(),
                it.wf(),
                it.spec_start() == csw,
                it.spec_end() == cew,
                0 <= it.index() <= cuboid_volume(csw, cew),
                forall|x: int, y: int, z: int|
                    in_cuboid((x, y, z), sw, ew) && rank3(csw, cew, chunk_of(x, y, z))
                        < it.index() ==> #[trigger] self.tile_at(x, y, z) == tile,
                forall|x: int, y: int, z: int|
                    in_world(x, y, z) && !(in_cuboid((x, y, z), sw, ew) && rank3(
                        csw,
                        cew,
                        chunk_of(x, y, z),
                    ) < it.index()) ==> #[trigger] self.tile_at(x, y, z) == old(self).tile_at(
                        x,
                        y,
                        z,
                    ),
                forall|c: (int, int, int)|
                    in_cuboid(c, csw, cew) && rank3(csw, cew, c) < it.index()
                        ==> #[trigger] self.spec_chunk_at(c) is Some,
                forall|c: (int, int, int)|
                    valid_chunk_coord(c) && !(in_cuboid(c, csw, cew) && rank3(csw, cew, c)
                        < it.index()) ==> #[trigger] self.spec_chunk_at(c) == old(
                        self,
                    ).spec_chunk_at(c),
                done ==> it.index() == cuboid_volume(csw, cew),
            decreases cuboid_volume(csw, cew) - it.index(), (if done { 0int } else { 1int }),
        {
            let ghost k = it.index();
            match it.next() {
                None => {
                    done = true;
                },
                Some(c) => {
                    proof {
                        lemma_coord_rank(csw, cew, k);
                    }
                    let ghost cw = (c.0 as int, c.1 as int, c.2 as int);
                    let bx: i64 = chunk_base(c.0, CHUNK_SIZE_X as i32);
                    let by: i64 = chunk_base(c.1, CHUNK_SIZE_Y as i32);
                    let bz: i64 = chunk_base(c.2, CHUNK_SIZE_Z as i32);
                    proof {
                        lemma_axis_clamp(sw.0, ew.0, cw.0, CHUNK_SIZE_X as int, 0);
                        lemma_axis_clamp(sw.1, ew.1, cw.1, CHUNK_SIZE_Y as int, 0);
                        lemma_axis_clamp(sw.2, ew.2, cw.2, CHUNK_SIZE_Z as int, 0);
                    }
                    let lsx: i32 = if (start.0 as i64) < bx {
                        0
                    } else {
                        floor_mod(start.0, CHUNK_SIZE_X as i32)
                    };
                    let lsy: i32 = if (start.1 as i64) < by {
                        0
                    } else {
                        floor_mod(start.1, CHUNK_SIZE_Y as i32)
                    };
                    let lsz: i32 = if (start.2 as i64) < bz {
                        0
                    } else {
                        floor_mod(start.2, CHUNK_SIZE_Z as i32)
                    };
                    let lhx: i32 = if (end.0 as i64) >= bx + (CHUNK_SIZE_X as i64) {
                        (CHUNK_SIZE_X as i32) - 1
                    } else {
                        floor_mod(end.0, CHUNK_SIZE_X as i32)
                    };
                    let lhy: i32 = if (end.1 as i64) >= by + (CHUNK_SIZE_Y as i64) {
                        (CHUNK_SIZE_Y as i32) - 1
                    } else {
                        floor_mod(end.1, CHUNK_SIZE_Y as i32)
                    };
                    let lhz: i32 = if (end.2 as i64) >= bz + (CHUNK_SIZE_Z as i64) {
                        (CHUNK_SIZE_Z as i32) - 1
                    } else {
                        floor_mod(end.2, CHUNK_SIZE_Z as i32)
                    };
                    let ghost ls = (lsx as int, lsy as int, lsz as int);
                    let ghost lh = (lhx as int, lhy as int, lhz as int);
                    let key = chunk_key_exec(c);
                    let ghost prev = *self;
                    let mut chunk = match self.chunks.remove(&key) {
                        Some(ch) => ch,
                        None => TileChunk::new(),
                    };
                    let ghost chunk0 = chunk;
                    proof {
                        assert(key == chunk_key(cw) as i128);
                        assert(chunk0.wf());
                        if prev.chunks@.contains_key(key) {
                            assert(chunk0 == prev.chunks@[key]);
                        }
                    }
                    let mut it2 = Iterator3D::new((lsx, lsy, lsz), (lhx, lhy, lhz));
                    let mut done2 = false;
                    while !done2
                        invariant
                            chunk.wf(),
                            it2.wf(),
                            it2.spec_start() == ls,
                            it2.spec_end() == lh,
                            0 <= it2.index() <= cuboid_volume(ls, lh),
                            forall|a: int, b: int, d: int|
                                valid_local(a, b, d) && in_cuboid((a, b, d), ls, lh) && rank3(
                                    ls,
                                    lh,
                                    (a, b, d),
                                ) < it2.index() ==> #[trigger] chunk.spec_tile(a, b, d) == tile,
                            forall|a: int, b: int, d: int|
                                valid_local(a, b, d) && !(in_cuboid((a, b, d), ls, lh) && rank3(
                                    ls,
                                    lh,
                                    (a, b, d),
                                ) < it2.index()) ==> #[trigger] chunk.spec_tile(a, b, d)
                                    == chunk0.spec_tile(a, b, d),
                            done2 ==> forall|a: int, b: int, d: int|
                                valid_local(a, b, d) && in_cuboid((a, b, d), ls, lh)
                                    ==> #[trigger] chunk.spec_tile(a, b, d) == tile,
                        decreases cuboid_volume(ls, lh) - it2.index(), (if done2 { 0int } else { 1int }),
                    {
                        let ghost k2 = it2.index();
                        match it2.next() {
                            None => {
                                proof {
                                    assert forall|a: int, b: int, d: int|
                                        valid_local(a, b, d) && in_cuboid(
                                            (a, b, d),
                                            ls,
                                            lh,
                                        ) implies rank3(ls, lh, (a, b, d)) < cuboid_volume(
                                        ls,
                                        lh,
                                    ) by {
                                        lemma_rank_coord(ls, lh, (a, b, d));
                                    }
                                }
                                done2 = true;
                            },
                            Some(l) => {
                                proof {
                                    lemma_coord_rank(ls, lh, k2);
                                }
                                let ghost lw = (l.0 as int, l.1 as int, l.2 as int);
                                chunk.set_tile(l.0 as usize, l.1 as usize, l.2 as usize, tile);
                                proof {
                                    assert forall|a: int, b: int, d: int|
                                        valid_local(a, b, d) && in_cuboid((a, b, d), ls, lh)
                                            && rank3(ls, lh, (a, b, d))
                                            < it2.index() implies #[trigger] chunk.spec_tile(
                                        a,
                                        b,
                                        d,
                                    ) == tile by {
                                        if (a, b, d) != lw {
                                            lemma_rank_coord(ls, lh, (a, b, d));
                                        }
                                    }
                                }
                            },
                        }
                    }
                    self.chunks.insert(key, chunk);
                    proof {
                        assert(self.chunks@ =~= prev.chunks@.insert(key, chunk));
                        assert forall|c: (int, int, int)|
                            in_cuboid(c, csw, cew) && rank3(csw, cew, c)
                                < it.index() implies #[trigger] self.spec_chunk_at(c) is Some by {
                            if c != cw {
                                lemma_chunk_key_injective_contra(c, cw);
                                lemma_rank_coord(csw, cew, c);
                                assert(rank3(csw, cew, c) != k);
                                assert(self.spec_chunk_at(c) == prev.spec_chunk_at(c));
                            }
                        }
                        assert forall|c: (int, int, int)|
                            valid_chunk_coord(c) && !(in_cuboid(c, csw, cew) && rank3(csw, cew, c)
                                < it.index()) implies #[trigger] self.spec_chunk_at(c) == old(
                            self,
                        ).spec_chunk_at(c) by {
                            lemma_chunk_key_injective_contra(c, cw);
                            assert(self.spec_chunk_at(c) == prev.spec_chunk_at(c));
                        }
                        assert forall|x: int, y: int, z: int|
                            in_cuboid((x, y, z), sw, ew) && rank3(csw, cew, chunk_of(x, y, z))
                                < it.index() implies #[trigger] self.tile_at(x, y, z) == tile by {
                            lemma_world_decompose(x, y, z);
                            lemma_div_is_ordered(sw.0, x, CHUNK_SIZE_X as int);
                            lemma_div_is_ordered(x, ew.0, CHUNK_SIZE_X as int);
                            lemma_div_is_ordered(sw.1, y, CHUNK_SIZE_Y as int);
                            lemma_div_is_ordered(y, ew.1, CHUNK_SIZE_Y as int);
                            lemma_div_is_ordered(sw.2, z, CHUNK_SIZE_Z as int);
                            lemma_div_is_ordered(z, ew.2, CHUNK_SIZE_Z as int);
                            let ch = chunk_of(x, y, z);
                            let lo = local_of(x, y, z);
                            if ch == cw {
                                lemma_axis_clamp(sw.0, ew.0, cw.0, CHUNK_SIZE_X as int, lo.0);
                                lemma_axis_clamp(sw.1, ew.1, cw.1, CHUNK_SIZE_Y as int, lo.1);
                                lemma_axis_clamp(sw.2, ew.2, cw.2, CHUNK_SIZE_Z as int, lo.2);
                                assert(in_cuboid(lo, ls, lh));
                                assert(chunk.spec_tile(lo.0, lo.1, lo.2) == tile);
                                assert(self.spec_chunk_at(ch) == Some(chunk));
                            } else {
                                lemma_chunk_key_injective_contra(ch, cw);
                                lemma_rank_coord(csw, cew, ch);
                                assert(rank3(csw, cew, ch) != k);
                                assert(self.spec_chunk_at(ch) == prev.spec_chunk_at(ch));
                                assert(prev.tile_at(x, y, z) == tile);
                            }
                        }
                        assert forall|x: int, y: int, z: int|
                            in_world(x, y, z) && !(in_cuboid((x, y, z), sw, ew) && rank3(
                                csw,
                                cew,
                                chunk_of(x, y, z),
                            ) < it.index()) implies #[trigger] self.tile_at(x, y, z) == old(
                            self,
                        ).tile_at(x, y, z) by {
                            lemma_world_decompose(x, y, z);
                            let ch = chunk_of(x, y, z);
                            let lo = local_of(x, y, z);
                            if ch == cw {
                                lemma_axis_clamp(sw.0, ew.0, cw.0, CHUNK_SIZE_X as int, lo.0);
                                lemma_axis_clamp(sw.1, ew.1, cw.1, CHUNK_SIZE_Y as int, lo.1);
                                lemma_axis_clamp(sw.2, ew.2, cw.2, CHUNK_SIZE_Z as int, lo.2);
                                assert(!in_cuboid((x, y, z), sw, ew));
                                assert(!in_cuboid(lo, ls, lh));
                                assert(chunk.spec_tile(lo.0, lo.1, lo.2) == chunk0.spec_tile(
                                    lo.0,
                                    lo.1,
                                    lo.2,
                                ));
                                assert(self.spec_chunk_at(ch) == Some(chunk));
                                if prev.chunks@.contains_key(key) {
                                    assert(prev.spec_chunk_at(ch) == Some(chunk0));
                                } else {
                                    assert(prev.spec_chunk_at(ch) is None);
                                    assert(chunk0.spec_tile(lo.0, lo.1, lo.2) is None);
                                }
                                assert(self.tile_at(x, y, z) == prev.tile_at(x, y, z));
                                assert(prev.tile_at(x, y, z) == old(self).tile_at(x, y, z));
                            } else {
                                lemma_chunk_key_injective_contra(ch, cw);
                                assert(self.spec_chunk_at(ch) == prev.spec_chunk_at(ch));
                                assert(prev.tile_at(x, y, z) == old(self).tile_at(x, y, z));
                            }
                        }
                    }
                },
            }
        }
        proof {
            assert forall|c: (int, int, int)|
                in_cuboid(c, chunk_of(sw.0, sw.1, sw.2), chunk_of(ew.0, ew.1, ew.2))
                implies #[trigger] self.spec_chunk_at(c) is Some by {
                lemma_rank_coord(csw, cew, c);
            }
            assert forall|x: int, y: int, z: int|
                in_cuboid((x, y, z), sw, ew) implies #[trigger] self.tile_at(x, y, z) == tile by {
                lemma_world_decompose(x, y, z);
                lemma_div_is_ordered(sw.0, x, CHUNK_SIZE_X as int);
                lemma_div_is_ordered(x, ew.0, CHUNK_SIZE_X as int);
                lemma_div_is_ordered(sw.1, y, CHUNK_SIZE_Y as int);
                lemma_div_is_ordered(y, ew.1, CHUNK_SIZE_Y as int);
                lemma_div_is_ordered(sw.2, z, CHUNK_SIZE_Z as int);
                lemma_div_is_ordered(z, ew.2, CHUNK_SIZE_Z as int);
                lemma_rank_coord(csw, cew, chunk_of(x, y, z));
            }
        }
    }
}

/// For a chunk index `c` inside the covering chunk range of a world
/// interval `[s, e]` on one axis, the world coordinates of chunk `c` that
/// fall inside `[s, e]` are exactly the local offsets in `[lo, hi]`: `lo`
/// clamps to `0` when the interval starts before this chunk, otherwise it
/// is the floor remainder of `s`; `hi` clamps to `size - 1` when the
/// interval ends beyond this chunk, otherwise it is the floor remainder of
/// `e`. The clamped range is never empty.
proof fn lemma_axis_clamp(s: int, e: int, c: int, size: int, l: int)
    requires
        size >= 1,
        s <= e,
        s / size <= c <= e / size,
    ensures
        ({
            let lo = if s < c * size { 0int } else { s % size };
            let hi = if e >= (c + 1) * size { size - 1 } else { e % size };
            &&& 0 <= lo <= hi < size
            &&& (0 <= l < size ==> ((s <= c * size + l <= e) <==> (lo <= l <= hi)))
        }),
{
    lemma_fundamental_div_mod(s, size);
    lemma_mod_bound(s, size);
    lemma_fundamental_div_mod(e, size);
    lemma_mod_bound(e, size);
    assert(size * (s / size) == (s / size) * size) by (nonlinear_arith);
    assert(size * (e / size) == (e / size) * size) by (nonlinear_arith);
    assert((c + 1) * size == c * size + size) by (nonlinear_arith);
    assert(c * size <= (e / size) * size) by (nonlinear_arith)
        requires
            c <= e / size,
            size >= 1,
    ;
    assert((s / size) * size <= c * size) by (nonlinear_arith)
        requires
            s / size <= c,
            size >= 1,
    ;
    if s >= c * size {
        lemma_div_is_ordered(c * size, s, size);
        lemma_div_multiples_vanish(c, size);
        assert(size * c == c * size) by (nonlinear_arith);
        assert(c == s / size);
    }
    if e < (c + 1) * size {
        lemma_fundamental_div_mod_converse(c * size + (size - 1), size, c, size - 1);
        lemma_div_is_ordered(e, c * size + (size - 1), size);
        assert(c == e / size);
    }
}

/// Law (decomposition-invariance): filling a cuboid in two pieces that
/// together cover it exactly leaves every voxel with the same collapsed
/// value as one fill of the whole cuboid. The hypotheses are the contract
/// of `set_tile_range`: `m0` to `m1` fills the first piece, `m1` to `m2`
/// the second, and `m0` to `mw` the whole cuboid in one call.
pub proof fn lemma_set_range_decomposition(
    m0: TileMap,
    m1: TileMap,
    m2: TileMap,
    mw: TileMap,
    s1: (int, int, int),
    e1: (int, int, int),
    s2: (int, int, int),
    e2: (int, int, int),
    s: (int, int, int),
    e: (int, int, int),
    tile: Option<Tile>,
)
    requires
        forall|x: int, y: int, z: int|
            in_cuboid((x, y, z), s1, e1) ==> #[trigger] m1.tile_at(x, y, z) == tile,
        forall|x: int, y: int, z: int|
            in_world(x, y, z) && !in_cuboid((x, y, z), s1, e1) ==> #[trigger] m1.tile_at(x, y, z)
                == m0.tile_at(x, y, z),
        forall|x: int, y: int, z: int|
            in_cuboid((x, y, z), s2, e2) ==> #[trigger] m2.tile_at(x, y, z) == tile,
        forall|x: int, y: int, z: int|
            in_world(x, y, z) && !in_cuboid((x, y, z), s2, e2) ==> #[trigger] m2.tile_at(x, y, z)
                == m1.tile_at(x, y, z),
        forall|x: int, y: int, z: int|
            in_cuboid((x, y, z), s, e) ==> #[trigger] mw.tile_at(x, y, z) == tile,
        forall|x: int, y: int, z: int|
            in_world(x, y, z) && !in_cuboid((x, y, z), s, e) ==> #[trigger] mw.tile_at(x, y, z)
                == m0.tile_at(x, y, z),
        forall|x: int, y: int, z: int|
            in_world(x, y, z) ==> (#[trigger] in_cuboid((x, y, z), s, e) <==> (in_cuboid(
                (x, y, z),
                s1,
                e1,
            ) || in_cuboid((x, y, z), s2, e2))),
    ensures
        forall|x: int, y: int, z: int|
            in_world(x, y, z) ==> #[trigger] m2.tile_at(x, y, z) == mw.tile_at(x, y, z),
{
    assert forall|x: int, y: int, z: int| in_world(x, y, z) implies #[trigger] m2.tile_at(x, y, z)
        == mw.tile_at(x, y, z) by {
        assert(in_cuboid((x, y, z), s, e) <==> (in_cuboid((x, y, z), s1, e1) || in_cuboid(
            (x, y, z),
            s2,
            e2,
        )));
        if in_cuboid((x, y, z), s2, e2) {
            assert(m2.tile_at(x, y, z) == tile);
            assert(mw.tile_at(x, y, z) == tile);
        } else if in_cuboid((x, y, z), s1, e1) {
            assert(m2.tile_at(x, y, z) == m1.tile_at(x, y, z));
            assert(m1.tile_at(x, y, z) == tile);
            assert(mw.tile_at(x, y, z) == tile);
        } else {
            assert(m2.tile_at(x, y, z) == m1.tile_at(x, y, z));
            assert(m1.tile_at(x, y, z) == m0.tile_at(x, y, z));
            assert(mw.tile_at(x, y, z) == m0.tile_at(x, y, z));
        }
    }
}

/// Distinct valid chunk coordinates never share a packed key.
proof fn lemma_chunk_key_injective_contra(a: (int, int, int), b: (int, int, int))
    requires
        valid_chunk_coord(a),
        valid_chunk_coord(b),
        a != b,
    ensures
        chunk_key(a) as i128 != chunk_key(b) as i128,
{
    if chunk_key(a) as i128 == chunk_key(b) as i128 {
        lemma_chunk_key_injective(a, b);
    }
}

} // verus!
