//! A chunked, sparse 3D voxel/tile map: the world is partitioned into
//! fixed-size dense chunks addressed by floor-based coordinate mapping.
//! Point and cuboid-range reads and writes are supported, and renderable
//! surface geometry is derived from chunk contents by face-visibility
//! culling.

pub mod coords;
pub mod iter3d;
pub mod map;
pub mod map_file;
pub mod mesh;
pub mod tabs;
pub mod tiles;

use crate::iter3d::in_cuboid;
use crate::map::{in_world, TileMap};
use crate::tiles::{Tile, TileSet, TileType};
use vstd::prelude::*;

verus! {

/// A small default catalog: one floor tile registered under identifier 0.
pub fn tileset() -> (r: TileSet)
    ensures
        r@.dom() == Set::<usize>::empty().insert(0),
        r@[0].id == 0,
        r@[0].name@ == "Floor"@,
{
    let mut ts = TileSet::new();
    ts.add_tile(0, TileType { id: 0, name: "Floor".to_owned() });
    proof {
        assert(ts@.dom() =~= Set::<usize>::empty().insert(0));
    }
    ts
}

/// The collapsed contents of the terraced demo map: four square floor
/// slabs, one per level, each inset by one more step than the level below.
pub open spec fn terraced_tile_at(x: int, y: int, z: int) -> Option<Tile> {
    if (y == 0 && 0 <= x <= 15 && 0 <= z <= 15) || (y == 1 && 1 <= x <= 15 && 1 <= z <= 15) || (y
        == 2 && 2 <= x <= 15 && 2 <= z <= 15) || (y == 3 && 3 <= x <= 15 && 3 <= z <= 15) {
        Some(Tile { tile_id: 0 })
    } else {
        None
    }
}

/// A demo map over the default catalog: four terraced floor slabs filled by
/// cuboid-range writes on a fresh map.
pub fn tilemap() -> (r: TileMap)
    ensures
        r.wf(),
        forall|x: int, y: int, z: int|
            in_world(x, y, z) ==> #[trigger] r.tile_at(x, y, z) == terraced_tile_at(x, y, z),
{
    let mut r = TileMap::new(tileset());
    let ghost m0 = r;
    r.set_tile_range((0, 0, 0), (15, 0, 15), Some(Tile { tile_id: 0 }));
    let ghost m1 = r;
    r.set_tile_range((1, 1, 1), (15, 1, 15), Some(Tile { tile_id: 0 }));
    let ghost m2 = r;
    r.set_tile_range((2, 2, 2), (15, 2, 15), Some(Tile { tile_id: 0 }));
    let ghost m3 = r;
    r.set_tile_range((3, 3, 3), (15, 3, 15), Some(Tile { tile_id: 0 }));
    proof {
        assert forall|x: int, y: int, z: int| in_world(x, y, z) implies #[trigger] r.tile_at(
            x,
            y,
            z,
        ) == terraced_tile_at(x, y, z) by {
            assert(m0.tile_at(x, y, z) is None);
            assert(m1.tile_at(x, y, z) == if in_cuboid((x, y, z), (0, 0, 0), (15, 0, 15)) {
                Some(Tile { tile_id: 0 })
            } else {
                m0.tile_at(x, y, z)
            });
            assert(m2.tile_at(x, y, z) == if in_cuboid((x, y, z), (1, 1, 1), (15, 1, 15)) {
                Some(Tile { tile_id: 0 })
            } else {
                m1.tile_at(x, y, z)
            });
            assert(m3.tile_at(x, y, z) == if in_cuboid((x, y, z), (2, 2, 2), (15, 2, 15)) {
                Some(Tile { tile_id: 0 })
            } else {
                m2.tile_at(x, y, z)
            });
            assert(r.tile_at(x, y, z) == if in_cuboid((x, y, z), (3, 3, 3), (15, 3, 15)) {
                Some(Tile { tile_id: 0 })
            } else {
                m3.tile_at(x, y, z)
            });
        }
    }
    r
}

} // verus!
