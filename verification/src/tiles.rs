//! Tiles, the tile-type registry, and the fixed-size dense chunk store.
//!
//! A `Tile` is the small copyable payload stored per voxel. A `TileSet`
//! catalogs tile identifiers with human-readable metadata. A `TileChunk` is
//! a dense 3D array of optional tiles with fixed extents, stored flattened
//! with the x axis fastest (`z`, `y`, `x` nesting order).

use std::collections::HashMap;
use vstd::prelude::*;

verus! {

broadcast use vstd::std_specs::hash::group_hash_axioms;

/// One of the six axis-aligned directions, reserved for voxel orientation
/// data.
#[derive(Clone, Copy, PartialEq, Eq, Structural, Debug)]
pub enum Direction {
    Up,
    Down,
    North,
    East,
    South,
    West,
}

/// An orientation given by a primary and a secondary direction, reserved
/// for future per-voxel orientation data.
#[derive(Clone, Copy, PartialEq, Eq, Structural, Debug)]
pub struct Facing(pub Direction, pub Direction);

/// Metadata for one kind of voxel. The name is for diagnostics and UI only.
pub struct TileType {
    pub id: usize,
    pub name: String,
}

/// A catalog from tile identifier to tile metadata, with unique keys.
pub struct TileSet {
    tiles: HashMap<usize, TileType>,
}

impl TileSet {
    /// The catalog contents as a map from identifier to metadata.
    pub closed spec fn view(&self) -> Map<usize, TileType> {
        self.tiles@
    }

    /// Creates an empty catalog.
    pub fn new() -> (r: Self)
        ensures
            r@ == Map::<usize, TileType>::empty(),
    {
        Self { tiles: HashMap::new() }
    }

    /// Looks up the metadata registered under `id`, or `None` if `id` was
    /// never added.
    pub fn get_tile(&self, id: usize) -> (r: Option<&TileType>)
        ensures
            match r {
                Some(t) => self@.contains_key(id) && *t == self@[id],
                None => !self@.contains_key(id),
            },
    {
        self.tiles.get(&id)
    }

    /// Inserts the metadata for `id`, overwriting any previous entry.
    pub fn add_tile(&mut self, id: usize, tile: TileType)
        ensures
            final(self)@ == old(self)@.insert(id, tile),
    {
        self.tiles.insert(id, tile);
    }
}

/// The voxel payload: a reference to a tile type. A currently-unused
/// orientation field is reserved and omitted.
#[derive(Clone, Copy, PartialEq, Eq, Structural, Debug)]
pub struct Tile {
    pub tile_id: usize,
}

/// Chunk extent along the x axis.
pub const CHUNK_SIZE_X: usize = 16;

/// Chunk extent along the y axis.
pub const CHUNK_SIZE_Y: usize = 64;

/// Chunk extent along the z axis.
pub const CHUNK_SIZE_Z: usize = 16;

/// Number of voxels in one chunk.
pub const CHUNK_VOLUME: usize = CHUNK_SIZE_X * CHUNK_SIZE_Y * CHUNK_SIZE_Z;

/// Whether `(x, y, z)` is a local coordinate inside a chunk's extents.
pub open spec fn valid_local(x: int, y: int, z: int) -> bool {
    &&& 0 <= x < CHUNK_SIZE_X
    &&& 0 <= y < CHUNK_SIZE_Y
    &&& 0 <= z < CHUNK_SIZE_Z
}

/// Position of local coordinate `(x, y, z)` in the flattened chunk storage:
/// `z`, `y`, `x` nesting order, so the x axis varies fastest.
pub open spec fn flat_index(x: int, y: int, z: int) -> int {
    x + CHUNK_SIZE_X * (y + CHUNK_SIZE_Y * z)
}

/// A dense 3D array of optional tiles with the fixed chunk extents,
/// created all-empty.
pub struct TileChunk {
    tiles: Vec<Option<Tile>>,
}

impl TileChunk {
    /// The storage holds exactly one slot per voxel of the chunk.
    pub closed spec fn wf(&self) -> bool {
        self.tiles@.len() == CHUNK_VOLUME
    }

    /// The payload stored at local coordinate `(x, y, z)`.
    pub closed spec fn spec_tile(&self, x: int, y: int, z: int) -> Option<Tile>
        recommends
            self.wf(),
            valid_local(x, y, z),
    {
        self.tiles@[flat_index(x, y, z)]
    }

    /// Creates a chunk with every cell empty.
    pub fn new() -> (r: Self)
        ensures
            r.wf(),
            forall|x: int, y: int, z: int|
                valid_local(x, y, z) ==> r.spec_tile(x, y, z) is None,
    {
        Self { tiles: vec![None; CHUNK_VOLUME] }
    }

    /// Reads the optional payload at local coordinates; the coordinates
    /// must be in range for the chunk extents.
    pub fn get_tile(&self, x: usize, y: usize, z: usize) -> (r: Option<Tile>)
        requires
            self.wf(),
            valid_local(x as int, y as int, z as int),
        ensures
            r == self.spec_tile(x as int, y as int, z as int),
    {
        self.tiles[x + CHUNK_SIZE_X * (y + CHUNK_SIZE_Y * z)]
    }

    /// Overwrites the payload at local coordinates; every other cell keeps
    /// its value.
    pub fn set_tile(&mut self, x: usize, y: usize, z: usize, tile: Option<Tile>)
        requires
            old(self).wf(),
            valid_local(x as int, y as int, z as int),
        ensures
            final(self).wf(),
            final(self).spec_tile(x as int, y as int, z as int) == tile,
            forall|x2: int, y2: int, z2: int|
                valid_local(x2, y2, z2) && (x2, y2, z2) != (x as int, y as int, z as int)
                    ==> final(self).spec_tile(x2, y2, z2) == old(self).spec_tile(x2, y2, z2),
    {
        self.tiles[x + CHUNK_SIZE_X * (y + CHUNK_SIZE_Y * z)] = tile;
    }
}

} // verus!
