use bluprint_core::iter3d::Iterator3D;
use bluprint_core::map_file::MapFile;
use bluprint_core::tabs::Tabs;
use bluprint_core::{tilemap, tileset};

#[test]
fn iteration_is_row_major_first_axis_fastest() {
    let mut it = Iterator3D::new((0, 0, 0), (1, 1, 1));
    let mut got = Vec::new();
    while let Some(p) = it.next() {
        got.push(p);
    }
    assert_eq!(
        got,
        vec![
            (0, 0, 0),
            (1, 0, 0),
            (0, 1, 0),
            (1, 1, 0),
            (0, 0, 1),
            (1, 0, 1),
            (0, 1, 1),
            (1, 1, 1),
        ]
    );
    assert!(it.next().is_none());
}

#[test]
fn iteration_counts_the_cuboid_volume() {
    let mut it = Iterator3D::new((-2, 3, 0), (1, 5, 2));
    let mut got = Vec::new();
    while let Some(p) = it.next() {
        got.push(p);
    }
    assert_eq!(got.len(), 4 * 3 * 3);
    assert_eq!(got[0], (-2, 3, 0));
    assert_eq!(*got.last().unwrap(), (1, 5, 2));
    let mut sorted = got.clone();
    sorted.sort();
    sorted.dedup();
    assert_eq!(sorted.len(), got.len(), "every yielded triple is distinct");
}

#[test]
fn single_point_range_yields_exactly_once() {
    let mut it = Iterator3D::new((7, -7, 7), (7, -7, 7));
    assert_eq!(it.next(), Some((7, -7, 7)));
    assert_eq!(it.next(), None);
    assert_eq!(it.next(), None);
}

#[test]
fn inverted_range_yields_start_once() {
    let mut it = Iterator3D::new((3, 0, 0), (2, 5, 5));
    assert_eq!(it.next(), Some((3, 0, 0)));
    assert_eq!(it.next(), None);
}

#[test]
fn exclusive_range_drops_the_end() {
    let mut it = Iterator3D::new_exclusive((0, 0, 0), (2, 1, 1));
    let mut got = Vec::new();
    while let Some(p) = it.next() {
        got.push(p);
    }
    assert_eq!(got, vec![(0, 0, 0), (1, 0, 0)]);
}

#[test]
fn default_tileset_has_the_floor_tile() {
    let ts = tileset();
    let t = ts.get_tile(0).expect("tile 0 is registered");
    assert_eq!(t.id, 0);
    assert_eq!(t.name, "Floor");
    assert!(ts.get_tile(1).is_none());
}

#[test]
fn demo_map_is_terraced() {
    let m = tilemap();
    let floor = |x: i32, y: i32, z: i32| match m.get_tile_at(x, y, z) {
        Some(t) => t,
        None => None,
    };
    assert!(floor(0, 0, 0).is_some());
    assert!(floor(15, 0, 15).is_some());
    assert!(floor(0, 1, 0).is_none());
    assert!(floor(1, 1, 1).is_some());
    assert!(floor(5, 2, 5).is_some());
    assert!(floor(1, 2, 1).is_none());
    assert!(floor(3, 3, 3).is_some());
    assert!(floor(2, 3, 2).is_none());
    assert!(floor(0, 4, 0).is_none());
    assert!(floor(16, 0, 0).is_none());
    assert!(floor(-1, 0, 0).is_none());
}

#[test]
fn file_name_takes_the_final_component() {
    assert_eq!(MapFile::new("maps/town.blu".to_owned()).file_name(), "town.blu");
    assert_eq!(MapFile::new("town.blu".to_owned()).file_name(), "town.blu");
    assert_eq!(MapFile::new("a/b/c".to_owned()).file_name(), "c");
    // Trailing and doubled separators do not change the final component.
    assert_eq!(MapFile::new("a/b/".to_owned()).file_name(), "b");
    assert_eq!(MapFile::new("a//b".to_owned()).file_name(), "b");
    assert_eq!(MapFile::new("/maps/town.blu//".to_owned()).file_name(), "town.blu");
}

#[test]
fn tabs_track_the_current_file() {
    let mut tabs = Tabs::default();
    assert!(tabs.empty());
    assert!(tabs.current_tab().is_none());
    assert!(tabs.current_tab_idx().is_none());
    tabs.new_tab(MapFile::new("one.blu".to_owned()));
    tabs.new_tab(MapFile::new("two.blu".to_owned()));
    assert!(!tabs.empty());
    assert_eq!(tabs.current_tab_idx(), Some(1));
    assert_eq!(tabs.current_tab().unwrap().file_name(), "two.blu");
    tabs.switch_to_tab(0);
    assert_eq!(tabs.current_tab().unwrap().file_name(), "one.blu");
    tabs.switch_to_tab(9);
    assert_eq!(tabs.current_tab_idx(), Some(0), "out-of-range switch is ignored");
    assert_eq!(tabs.iter().len(), 2);
}

#[test]
fn closing_tabs_adjusts_the_selection() {
    let mut tabs = Tabs::default();
    tabs.new_tab(MapFile::new("a".to_owned()));
    tabs.new_tab(MapFile::new("b".to_owned()));
    tabs.new_tab(MapFile::new("c".to_owned()));
    // Current is the last tab; closing it moves the selection back.
    tabs.close_current();
    assert_eq!(tabs.current_tab_idx(), Some(1));
    assert_eq!(tabs.current_tab().unwrap().file_name(), "b");
    // Closing the tab before the current one shifts the selection down to
    // the last remaining tab.
    tabs.close_tab(0);
    assert_eq!(tabs.current_tab_idx(), Some(0));
    assert_eq!(tabs.current_tab().unwrap().file_name(), "b");
    tabs.close_current();
    assert!(tabs.empty());
    assert!(tabs.current_tab_idx().is_none());
}
