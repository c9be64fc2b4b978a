use bluprint_core::coords::{floor_div, floor_mod};
use bluprint_core::map::TileMap;
use bluprint_core::tiles::{Tile, TileChunk, TileSet, TileType};

fn fresh_map() -> TileMap {
    TileMap::new(TileSet::new())
}

#[test]
fn floor_div_matches_floor_for_negatives() {
    assert_eq!(floor_div(0, 16), 0);
    assert_eq!(floor_div(15, 16), 0);
    assert_eq!(floor_div(16, 16), 1);
    assert_eq!(floor_div(-1, 16), -1);
    assert_eq!(floor_div(-16, 16), -1);
    assert_eq!(floor_div(-17, 16), -2);
    assert_eq!(floor_div(i32::MIN, 16), i32::MIN / 16);
    assert_eq!(floor_div(i32::MAX, 64), i32::MAX / 64);
    assert_eq!(floor_div(-130, 64), -3);
}

#[test]
fn floor_mod_is_always_in_range() {
    assert_eq!(floor_mod(0, 16), 0);
    assert_eq!(floor_mod(15, 16), 15);
    assert_eq!(floor_mod(16, 16), 0);
    assert_eq!(floor_mod(-1, 16), 15);
    assert_eq!(floor_mod(-16, 16), 0);
    assert_eq!(floor_mod(-17, 16), 15);
    for w in [-100, -64, -63, -1, 0, 1, 63, 64, 100] {
        for size in [16, 64] {
            let q = floor_div(w, size);
            let r = floor_mod(w, size);
            assert!(0 <= r && r < size);
            assert_eq!(q * size + r, w);
        }
    }
}

#[test]
fn chunk_store_starts_empty_and_updates_pointwise() {
    let mut ch = TileChunk::new();
    assert_eq!(ch.get_tile(0, 0, 0), None);
    assert_eq!(ch.get_tile(15, 63, 15), None);
    ch.set_tile(3, 40, 7, Some(Tile { tile_id: 9 }));
    assert_eq!(ch.get_tile(3, 40, 7), Some(Tile { tile_id: 9 }));
    assert_eq!(ch.get_tile(7, 40, 3), None);
    assert_eq!(ch.get_tile(3, 41, 7), None);
    ch.set_tile(3, 40, 7, None);
    assert_eq!(ch.get_tile(3, 40, 7), None);
}

#[test]
fn tile_set_add_get_and_overwrite() {
    let mut ts = TileSet::new();
    assert!(ts.get_tile(0).is_none());
    ts.add_tile(0, TileType { id: 0, name: "Floor".to_owned() });
    ts.add_tile(7, TileType { id: 7, name: "Wall".to_owned() });
    assert_eq!(ts.get_tile(0).unwrap().name, "Floor");
    assert_eq!(ts.get_tile(7).unwrap().id, 7);
    assert!(ts.get_tile(1).is_none());
    ts.add_tile(0, TileType { id: 0, name: "Ground".to_owned() });
    assert_eq!(ts.get_tile(0).unwrap().name, "Ground");
}

#[test]
fn point_reads_distinguish_absent_chunk_from_empty_voxel() {
    let mut m = fresh_map();
    assert!(m.get_chunk(0, 0, 0).is_none());
    assert_eq!(m.get_tile_at(3, 4, 5), None);
    m.set_tile_at((3, 4, 5), Some(Tile { tile_id: 2 }));
    assert!(m.get_chunk(0, 0, 0).is_some());
    assert_eq!(m.get_tile_at(3, 4, 5), Some(Some(Tile { tile_id: 2 })));
    assert_eq!(m.get_tile_at(3, 4, 6), Some(None));
    m.set_tile_at((3, 4, 5), None);
    assert_eq!(m.get_tile_at(3, 4, 5), Some(None));
    assert!(m.get_chunk(0, 0, 0).is_some());
}

#[test]
fn get_or_create_makes_the_chunk_but_not_the_voxel() {
    let mut m = fresh_map();
    assert!(m.get_chunk(1, 0, 2).is_none());
    let t = m.get_tile_at_or_create_chunk(17, 5, 33);
    assert_eq!(t, None);
    assert!(m.get_chunk(1, 0, 2).is_some());
    assert_eq!(m.get_tile_at(17, 5, 33), Some(None));
}

#[test]
fn negative_world_coordinates_use_floor_mapping() {
    let mut m = fresh_map();
    m.set_tile_at((-1, -1, -1), Some(Tile { tile_id: 4 }));
    assert!(m.get_chunk(-1, -1, -1).is_some());
    assert!(m.get_chunk(0, 0, 0).is_none());
    assert_eq!(m.get_tile_at(-1, -1, -1), Some(Some(Tile { tile_id: 4 })));
    let ch = m.get_chunk(-1, -1, -1).unwrap();
    assert_eq!(ch.get_tile(15, 63, 15), Some(Tile { tile_id: 4 }));
}

#[test]
fn coordinate_extremes_are_handled() {
    let mut m = fresh_map();
    m.set_tile_at((i32::MIN, i32::MIN, i32::MIN), Some(Tile { tile_id: 8 }));
    m.set_tile_at((i32::MAX, i32::MAX, i32::MAX), Some(Tile { tile_id: 9 }));
    assert_eq!(
        m.get_tile_at(i32::MIN, i32::MIN, i32::MIN),
        Some(Some(Tile { tile_id: 8 }))
    );
    assert_eq!(
        m.get_tile_at(i32::MAX, i32::MAX, i32::MAX),
        Some(Some(Tile { tile_id: 9 }))
    );
    assert_eq!(m.get_tile_at(i32::MIN + 1, i32::MIN, i32::MIN), Some(None));
}

#[test]
fn range_fill_covers_the_cuboid_and_nothing_else() {
    let mut m = fresh_map();
    let v = Some(Tile { tile_id: 1 });
    m.set_tile_range((-2, 0, -2), (17, 1, 17), v);
    for x in [-2, -1, 0, 15, 16, 17] {
        for z in [-2, -1, 0, 15, 16, 17] {
            for y in [0, 1] {
                assert_eq!(m.get_tile_at(x, y, z), Some(v), "inside ({x},{y},{z})");
            }
        }
    }
    assert!(matches!(m.get_tile_at(-3, 0, 0), None | Some(None)));
    assert!(matches!(m.get_tile_at(18, 0, 0), None | Some(None)));
    assert!(matches!(m.get_tile_at(0, 2, 0), None | Some(None)));
    assert!(matches!(m.get_tile_at(0, -1, 0), None | Some(None)));
}

#[test]
fn range_fill_in_two_pieces_equals_one_fill() {
    let v = Some(Tile { tile_id: 3 });
    let mut whole = fresh_map();
    whole.set_tile_range((-4, 0, -4), (20, 2, 20), v);
    let mut split = fresh_map();
    split.set_tile_range((-4, 0, -4), (7, 2, 20), v);
    split.set_tile_range((8, 0, -4), (20, 2, 20), v);
    for x in [-5, -4, 0, 7, 8, 20, 21] {
        for y in [-1, 0, 2, 3] {
            for z in [-5, -4, 10, 20, 21] {
                let a = match whole.get_tile_at(x, y, z) {
                    Some(t) => t,
                    None => None,
                };
                let b = match split.get_tile_at(x, y, z) {
                    Some(t) => t,
                    None => None,
                };
                assert_eq!(a, b, "collapsed views differ at ({x},{y},{z})");
            }
        }
    }
}

#[test]
fn range_fill_creates_every_covering_chunk() {
    let mut m = fresh_map();
    m.set_tile_range((-1, 0, -1), (16, 0, 16), Some(Tile { tile_id: 1 }));
    for cx in [-1, 0, 1] {
        for cz in [-1, 0, 1] {
            assert!(m.get_chunk(cx, 0, cz).is_some(), "chunk ({cx},0,{cz})");
        }
    }
    assert!(m.get_chunk(2, 0, 0).is_none());
    assert!(m.get_chunk(0, 1, 0).is_none());
    assert!(m.get_chunk(0, -1, 0).is_none());
}

#[test]
fn split_fills_create_the_same_chunks() {
    let v = Some(Tile { tile_id: 3 });
    let mut whole = fresh_map();
    whole.set_tile_range((-4, 0, -4), (20, 2, 20), v);
    let mut split = fresh_map();
    split.set_tile_range((-4, 0, -4), (7, 2, 20), v);
    split.set_tile_range((8, 0, -4), (20, 2, 20), v);
    for cx in [-2, -1, 0, 1, 2] {
        for cz in [-2, -1, 0, 1, 2] {
            assert_eq!(
                whole.get_chunk(cx, 0, cz).is_some(),
                split.get_chunk(cx, 0, cz).is_some(),
                "chunk ({cx},0,{cz})"
            );
        }
    }
}

#[test]
fn layered_fills_leave_lower_layers_alone() {
    let mut m = fresh_map();
    m.set_tile_range((0, 0, 0), (15, 0, 15), Some(Tile { tile_id: 1 }));
    m.set_tile_range((1, 1, 1), (15, 1, 15), Some(Tile { tile_id: 1 }));
    assert_eq!(m.get_tile_at(0, 1, 0), Some(None));
    assert_eq!(m.get_tile_at(5, 1, 5), Some(Some(Tile { tile_id: 1 })));
    assert_eq!(m.get_tile_at(0, 0, 0), Some(Some(Tile { tile_id: 1 })));
}

#[test]
fn range_fill_with_none_clears_voxels() {
    let mut m = fresh_map();
    m.set_tile_range((0, 0, 0), (10, 0, 10), Some(Tile { tile_id: 5 }));
    m.set_tile_range((2, 0, 2), (4, 0, 4), None);
    assert_eq!(m.get_tile_at(3, 0, 3), Some(None));
    assert_eq!(m.get_tile_at(5, 0, 5), Some(Some(Tile { tile_id: 5 })));
}
