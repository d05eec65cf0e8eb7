use piw_pew::tile::{tile_of_symbol, GameMap, MapError, TileVariant};
use piw_pew::utils::point_offsets;

#[test]
fn load_reads_rows_and_columns() {
    let map = GameMap::load("ST.\n.S\n").unwrap();
    assert_eq!(map.tile_at(0, 0), Some(TileVariant::WALL_SIDE));
    assert_eq!(map.tile_at(1, 0), Some(TileVariant::WALL_TOP));
    assert_eq!(map.tile_at(2, 0), Some(TileVariant::GROUND));
    assert_eq!(map.tile_at(0, 1), Some(TileVariant::GROUND));
    assert_eq!(map.tile_at(1, 1), Some(TileVariant::WALL_SIDE));
    assert_eq!(map.tile_at(2, 1), None);
    assert_eq!(map.tile_at(0, 2), None);
    assert_eq!(map.tile_at(-1, 0), None);
    assert_eq!(map.tile_at(0, -1), None);
}

#[test]
fn load_without_ground_fails() {
    assert_eq!(GameMap::load("SS\nTT\n"), Err(MapError::NoGround));
    assert_eq!(GameMap::load(""), Err(MapError::NoGround));
    assert_eq!(GameMap::load("\n\n"), Err(MapError::NoGround));
}

#[test]
fn load_takes_unknown_symbols_for_ground() {
    let map = GameMap::load("x#\u{e9}s").unwrap();
    for x in 0..4 {
        assert_eq!(map.tile_at(x, 0), Some(TileVariant::GROUND));
    }
    assert_eq!(map.tile_at(4, 0), None);
}

#[test]
fn load_strips_carriage_return_before_line_feed_only() {
    let map = GameMap::load("S.\r\nT\r").unwrap();
    assert_eq!(map.tile_at(1, 0), Some(TileVariant::GROUND));
    assert_eq!(map.tile_at(2, 0), None);
    assert_eq!(map.tile_at(0, 1), Some(TileVariant::WALL_TOP));
    assert_eq!(map.tile_at(1, 1), Some(TileVariant::GROUND));
    assert_eq!(map.tile_at(2, 1), None);
}

#[test]
fn load_keeps_empty_rows_and_last_line_without_line_feed() {
    let map = GameMap::load("S\n\n.T").unwrap();
    assert_eq!(map.tile_at(0, 0), Some(TileVariant::WALL_SIDE));
    assert_eq!(map.tile_at(0, 1), None);
    assert_eq!(map.tile_at(0, 2), Some(TileVariant::GROUND));
    assert_eq!(map.tile_at(1, 2), Some(TileVariant::WALL_TOP));
    assert_eq!(map.tile_at(0, 3), None);
}

#[test]
fn symbols_map_to_tiles() {
    assert_eq!(tile_of_symbol('S'), TileVariant::WALL_SIDE);
    assert_eq!(tile_of_symbol('T'), TileVariant::WALL_TOP);
    assert_eq!(tile_of_symbol('.'), TileVariant::GROUND);
    assert_eq!(tile_of_symbol('s'), TileVariant::GROUND);
    assert_eq!(tile_of_symbol(' '), TileVariant::GROUND);
}

#[test]
fn ground_is_listed_row_by_row() {
    let map = GameMap::load("S.T\n..S\n").unwrap();
    assert_eq!(map.get_ground(), vec![(1, 0), (0, 1), (1, 1)]);
}

#[test]
fn random_spawn_is_always_ground() {
    let map = GameMap::load("SSSS\nS.TS\nST.S\nSSSS\n").unwrap();
    let mut seen_first = false;
    let mut seen_second = false;
    for _ in 0..200 {
        let cell = map.get_random_spawn_position();
        assert_eq!(map.tile_at(cell.0, cell.1), Some(TileVariant::GROUND));
        seen_first |= cell == (1, 1);
        seen_second |= cell == (2, 2);
    }
    assert!(seen_first && seen_second);
}

#[test]
fn random_spawn_on_single_ground_cell() {
    let map = GameMap::load("SS\nS.\n").unwrap();
    assert_eq!(map.get_random_spawn_position(), (1, 1));
}

#[test]
fn neighbors_follow_the_offsets() {
    let map = GameMap::load("ST.\n...\nSSS\n").unwrap();
    let around = map.neighbors_of(1, 1);
    assert_eq!(
        around,
        [
            Some(TileVariant::WALL_SIDE),
            Some(TileVariant::WALL_SIDE),
            Some(TileVariant::GROUND),
            Some(TileVariant::GROUND),
            Some(TileVariant::WALL_TOP),
            Some(TileVariant::WALL_SIDE),
            Some(TileVariant::GROUND),
            Some(TileVariant::WALL_SIDE),
        ]
    );
    let offsets = point_offsets();
    for i in 0..8 {
        let (dx, dy) = offsets[i];
        assert_eq!(around[i], map.tile_at(1 + dx as i32, 1 + dy as i32));
    }
}

#[test]
fn neighbors_at_the_corner_are_partly_missing() {
    let map = GameMap::load("..\n..\n").unwrap();
    let around = map.neighbors_of(0, 0);
    assert_eq!(
        around,
        [
            Some(TileVariant::GROUND),
            Some(TileVariant::GROUND),
            Some(TileVariant::GROUND),
            None,
            None,
            None,
            None,
            None,
        ]
    );
    assert_eq!(map.neighbors_of(i32::MAX, i32::MIN), [None; 8]);
}

#[test]
fn offsets_are_the_eight_neighbours() {
    assert_eq!(
        point_offsets(),
        [(0, 1), (1, 1), (1, 0), (1, -1), (0, -1), (-1, -1), (-1, 0), (-1, 1)]
    );
}

#[test]
fn entries_list_every_cell() {
    let map = GameMap::load("S.\nT\n").unwrap();
    assert_eq!(
        map.entries(),
        vec![
            ((0, 0), TileVariant::WALL_SIDE),
            ((1, 0), TileVariant::GROUND),
            ((0, 1), TileVariant::WALL_TOP),
        ]
    );
}
