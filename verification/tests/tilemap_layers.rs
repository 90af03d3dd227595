use gba_assets::lz77::compress::compress;
use gba_assets::lz77::decompress::decompress;
use gba_assets::lz77::matcher::CompressionStrategy;
use gba_assets::tilemap::crop::{
    bounding_box, make_main_tile_layer, make_map_change, window_to_tiles, Window,
};
use gba_assets::tilemap::layers::{
    find_primary, is_main_name, is_marked, process_femap, MainLayerState,
};
use gba_assets::tilemap::mar::process_mar;
use gba_assets::tilemap::model::{
    encode_tile_words, gid_to_tile, Layer, MapError, Property, Tile, TileGrid,
};

fn grid(width: usize, height: usize, rows: &[&str]) -> TileGrid {
    let mut cells = Vec::new();
    for row in rows {
        for c in row.chars() {
            cells.push(match c {
                '.' => None,
                d => Some(d.to_digit(36).unwrap()),
            });
        }
    }
    TileGrid { width, height, cells }
}

fn layer(name: &str, grid: Option<TileGrid>) -> Layer {
    Layer { name: name.to_string(), properties: Vec::new(), grid }
}

fn property(key: &str, value: Option<&str>) -> Property {
    Property { key: key.to_string(), value: value.map(|v| v.to_string()) }
}

fn words(tiles: &[Tile]) -> Vec<u16> {
    tiles.iter().map(|t| t.0).collect()
}

fn window_of(g: &TileGrid) -> Option<(usize, usize, usize, usize)> {
    bounding_box(g).map(|w| (w.x, w.y, w.width, w.height))
}

#[test]
fn a_tile_is_its_id_times_four() {
    assert_eq!(gid_to_tile(None), Ok(Tile(0)));
    assert_eq!(gid_to_tile(Some(0)), Ok(Tile(0)));
    assert_eq!(gid_to_tile(Some(1)), Ok(Tile(4)));
    assert_eq!(gid_to_tile(Some(300)), Ok(Tile(1200)));
    assert_eq!(gid_to_tile(Some(0x3FFF)), Ok(Tile(0xFFFC)));
    assert_eq!(Tile::new(7), Tile(7));
}

#[test]
fn an_id_whose_tile_needs_more_than_sixteen_bits_overflows() {
    assert_eq!(gid_to_tile(Some(0x4000)), Err(MapError::TileIdOverflow));
    assert_eq!(gid_to_tile(Some(0x4000_0000)), Err(MapError::TileIdOverflow));
    assert_eq!(gid_to_tile(Some(u32::MAX)), Err(MapError::TileIdOverflow));
}

#[test]
fn tiles_are_written_least_significant_byte_first() {
    assert_eq!(
        encode_tile_words(&vec![Tile(0x1234), Tile(4), Tile(0xFFFC)]),
        vec![0x34, 0x12, 0x04, 0x00, 0xFC, 0xFF]
    );
    assert_eq!(encode_tile_words(&vec![]), Vec::<u8>::new());
}

#[test]
fn a_cell_is_found_by_its_column_and_row() {
    let g = grid(3, 2, &["1.3", ".5."]);
    assert_eq!(g.get_tile(0, 0), Some(1));
    assert_eq!(g.get_tile(1, 0), None);
    assert_eq!(g.get_tile(2, 0), Some(3));
    assert_eq!(g.get_tile(1, 1), Some(5));
    assert_eq!(g.get_tile(3, 0), None);
    assert_eq!(g.get_tile(0, 2), None);
    assert_eq!(g.get_tile(usize::MAX, usize::MAX), None);
}

#[test]
fn the_primary_layer_is_written_row_by_row() {
    let g = grid(3, 2, &["1.3", ".5."]);
    assert_eq!(words(&make_main_tile_layer(&g).unwrap()), vec![4, 0, 12, 0, 20, 0]);
    assert_eq!(words(&make_main_tile_layer(&grid(0, 0, &[])).unwrap()), Vec::<u16>::new());
}

#[test]
fn a_window_is_written_row_by_row_from_its_corner() {
    let g = grid(4, 3, &["1234", "5678", "9abc"]);
    let w = Window { x: 1, y: 1, width: 2, height: 2 };
    assert_eq!(words(&window_to_tiles(&g, &w).unwrap()), vec![24, 28, 40, 44]);
    let w = Window { x: 3, y: 2, width: 2, height: 2 };
    assert_eq!(words(&window_to_tiles(&g, &w).unwrap()), vec![48, 0, 0, 0]);
    let w = Window { x: usize::MAX, y: usize::MAX, width: 2, height: 2 };
    assert_eq!(words(&window_to_tiles(&g, &w).unwrap()), vec![0, 0, 0, 0]);
}

#[test]
fn an_id_too_large_in_a_window_overflows() {
    let mut g = grid(2, 2, &["11", "11"]);
    g.cells[3] = Some(0x4000);
    assert_eq!(make_main_tile_layer(&g).err(), Some(MapError::TileIdOverflow));
    let w = Window { x: 0, y: 0, width: 2, height: 1 };
    assert_eq!(words(&window_to_tiles(&g, &w).unwrap()), vec![4, 4]);
    let w = Window { x: 1, y: 1, width: 1, height: 1 };
    assert_eq!(window_to_tiles(&g, &w).err(), Some(MapError::TileIdOverflow));
}

#[test]
fn a_map_change_is_cropped_to_its_occupied_cells() {
    let g = grid(5, 4, &[".....", "..12.", "..3..", "....."]);
    let change = make_map_change(&g).unwrap().unwrap();
    assert_eq!((change.base_x, change.base_y, change.width, change.height), (2, 1, 2, 2));
    assert_eq!(words(&change.tiles), vec![4, 8, 12, 0]);
    assert_eq!(change.encode(), vec![4, 0, 8, 0, 12, 0, 0, 0]);
}

#[test]
fn a_single_occupied_cell_gives_a_box_of_one_cell() {
    let g = grid(3, 3, &["...", "...", "..7"]);
    assert_eq!(window_of(&g), Some((2, 2, 1, 1)));
    let g = grid(3, 3, &["7..", "...", "..."]);
    assert_eq!(window_of(&g), Some((0, 0, 1, 1)));
}

#[test]
fn a_full_layer_is_its_own_bounding_box() {
    let g = grid(3, 2, &["111", "111"]);
    assert_eq!(window_of(&g), Some((0, 0, 3, 2)));
}

#[test]
fn every_edge_of_the_box_holds_an_occupied_cell_though_no_corner_need() {
    let g = grid(5, 5, &[".....", "..1..", ".2.3.", "..4..", "....."]);
    let w = bounding_box(&g).unwrap();
    assert_eq!((w.x, w.y, w.width, w.height), (1, 1, 3, 3));
    let occupied = |x: usize, y: usize| g.get_tile(x, y).is_some();
    assert!((w.y..w.y + w.height).any(|y| occupied(w.x, y)));
    assert!((w.y..w.y + w.height).any(|y| occupied(w.x + w.width - 1, y)));
    assert!((w.x..w.x + w.width).any(|x| occupied(x, w.y)));
    assert!((w.x..w.x + w.width).any(|x| occupied(x, w.y + w.height - 1)));
    assert!(!occupied(1, 1) && !occupied(3, 1) && !occupied(1, 3) && !occupied(3, 3));
    let change = make_map_change(&g).unwrap().unwrap();
    assert_eq!(words(&change.tiles), vec![0, 4, 0, 8, 0, 12, 0, 16, 0]);
}

#[test]
fn a_layer_without_an_occupied_cell_yields_no_map_change() {
    assert!(make_map_change(&grid(3, 2, &["...", "..."])).unwrap().is_none());
    assert!(make_map_change(&grid(0, 0, &[])).unwrap().is_none());
    assert_eq!(window_of(&grid(2, 1, &[".."])), None);
}

#[test]
fn an_id_too_large_in_a_map_change_overflows() {
    let mut g = grid(3, 1, &[".1."]);
    g.cells[1] = Some(0x4000);
    assert_eq!(make_map_change(&g).err(), Some(MapError::TileIdOverflow));
}

#[test]
fn main_is_recognised_in_any_case() {
    for name in ["main", "MAIN", "Main", "mAiN"] {
        assert!(is_main_name(name), "{name}");
    }
    for name in ["", "mai", "mains", " main", "maim", "ma\u{131}n", "m\u{e4}in", "m\u{e4}n"] {
        assert!(!is_main_name(name), "{name}");
    }
}

#[test]
fn a_layer_is_marked_by_its_name_or_by_a_property_key() {
    let mut l = layer("Main", None);
    assert!(is_marked(&l));
    l.name = "ground".to_string();
    assert!(!is_marked(&l));
    l.properties.push(property("width", Some("3")));
    assert!(!is_marked(&l));
    l.properties.push(property("MAIN", None));
    assert!(is_marked(&l));
}

#[test]
fn the_scan_keeps_the_first_layer_until_a_marked_one_is_met() {
    let start = MainLayerState::NotFound;
    assert_eq!(start.step(0, false), Ok(MainLayerState::Candidate(0)));
    assert_eq!(start.step(2, true), Ok(MainLayerState::Found(2)));
    let candidate = MainLayerState::Candidate(1);
    assert_eq!(candidate.step(3, false), Ok(MainLayerState::Candidate(1)));
    assert_eq!(candidate.step(3, true), Ok(MainLayerState::Found(3)));
    let found = MainLayerState::Found(2);
    assert_eq!(found.step(4, false), Ok(MainLayerState::Found(2)));
    assert_eq!(found.step(4, true), Err(MapError::MultipleMainLayers));
}

#[test]
fn without_a_marked_layer_the_first_finite_layer_is_primary() {
    let layers = vec![
        layer("objects", None),
        layer("ground", Some(grid(2, 1, &["12"]))),
        layer("roof", Some(grid(2, 1, &[".3"]))),
        layer("extra", Some(grid(2, 1, &["4."]))),
    ];
    assert_eq!(find_primary(&layers), Ok(1));
    let map = process_femap(&layers).unwrap();
    assert_eq!((map.width, map.height), (2, 1));
    assert_eq!(words(&map.tiles), vec![4, 8]);
    assert_eq!(map.encode(), vec![4, 0, 8, 0]);
    assert_eq!(map.map_changes.len(), 2);
    assert_eq!(map.map_changes[0].0, "roof");
    assert_eq!(map.map_changes[1].0, "extra");
    let roof = &map.map_changes[0].1;
    assert_eq!((roof.base_x, roof.base_y, roof.width, roof.height), (1, 0, 1, 1));
    assert_eq!(words(&roof.tiles), vec![12]);
    let extra = &map.map_changes[1].1;
    assert_eq!((extra.base_x, extra.base_y, extra.width, extra.height), (0, 0, 1, 1));
    assert_eq!(words(&extra.tiles), vec![16]);
}

#[test]
fn a_marked_layer_is_primary_and_the_layers_before_it_become_map_changes() {
    let layers = vec![
        layer("first", Some(grid(2, 2, &["1.", ".."]))),
        layer("second", Some(grid(2, 2, &["..", ".2"]))),
        layer("MAIN", Some(grid(3, 1, &["567"]))),
        layer("last", Some(grid(2, 2, &["33", "33"]))),
    ];
    assert_eq!(find_primary(&layers), Ok(2));
    let map = process_femap(&layers).unwrap();
    assert_eq!((map.width, map.height), (3, 1));
    assert_eq!(words(&map.tiles), vec![20, 24, 28]);
    let names: Vec<&str> = map.map_changes.iter().map(|(n, _)| n.as_str()).collect();
    assert_eq!(names, vec!["first", "second", "last"]);
    let second = &map.map_changes[1].1;
    assert_eq!((second.base_x, second.base_y, second.width, second.height), (1, 1, 1, 1));
    let last = &map.map_changes[2].1;
    assert_eq!((last.base_x, last.base_y, last.width, last.height), (0, 0, 2, 2));
    assert_eq!(words(&last.tiles), vec![12, 12, 12, 12]);
}

#[test]
fn a_layer_can_be_marked_by_a_property() {
    let mut marked = layer("terrain", Some(grid(1, 1, &["9"])));
    marked.properties.push(property("Main", Some("true")));
    marked.properties.push(property("music", Some("42")));
    marked.properties.push(property("tint", None));
    marked.properties.push(property("weather", Some("rain")));
    let layers = vec![layer("other", Some(grid(1, 1, &["1"]))), marked];
    let map = process_femap(&layers).unwrap();
    assert_eq!(words(&map.tiles), vec![36]);
    assert_eq!(map.map_changes.len(), 1);
    assert_eq!(map.map_changes[0].0, "other");
    assert_eq!(
        map.properties,
        vec![
            ("Main".to_string(), "true".to_string()),
            ("music".to_string(), "42".to_string()),
            ("weather".to_string(), "rain".to_string()),
        ]
    );
}

#[test]
fn the_properties_of_the_first_layer_are_kept_when_it_is_primary() {
    let mut first = layer("ground", Some(grid(1, 1, &["1"])));
    first.properties.push(property("name", Some("Prologue")));
    let mut second = layer("roof", Some(grid(1, 1, &["2"])));
    second.properties.push(property("ignored", Some("yes")));
    let map = process_femap(&[first, second]).unwrap();
    assert_eq!(map.properties, vec![("name".to_string(), "Prologue".to_string())]);
}

#[test]
fn a_marked_layer_that_is_no_finite_layer_of_tiles_does_not_count() {
    let layers = vec![
        layer("main", None),
        layer("ground", Some(grid(1, 1, &["1"]))),
        layer("Main", None),
    ];
    assert_eq!(find_primary(&layers), Ok(1));
    assert_eq!(process_femap(&layers).unwrap().map_changes.len(), 0);
}

#[test]
fn two_marked_layers_are_an_error() {
    let layers = vec![
        layer("main", Some(grid(1, 1, &["1"]))),
        layer("other", Some(grid(1, 1, &["1"]))),
        layer("Main", Some(grid(1, 1, &["1"]))),
    ];
    assert_eq!(find_primary(&layers), Err(MapError::MultipleMainLayers));
    assert_eq!(process_femap(&layers).err(), Some(MapError::MultipleMainLayers));
}

#[test]
fn a_map_without_a_finite_layer_of_tiles_has_no_main_layer() {
    assert_eq!(find_primary(&[]), Err(MapError::NoMainLayer));
    assert_eq!(process_femap(&[]).err(), Some(MapError::NoMainLayer));
    let layers = vec![layer("objects", None), layer("main", None)];
    assert_eq!(process_femap(&layers).err(), Some(MapError::NoMainLayer));
}

#[test]
fn an_empty_layer_is_left_out_of_the_map_changes() {
    let layers = vec![
        layer("main", Some(grid(1, 1, &["1"]))),
        layer("empty", Some(grid(2, 2, &["..", ".."]))),
        layer("full", Some(grid(1, 1, &["2"]))),
    ];
    let map = process_femap(&layers).unwrap();
    let names: Vec<&str> = map.map_changes.iter().map(|(n, _)| n.as_str()).collect();
    assert_eq!(names, vec!["full"]);
}

#[test]
fn an_id_too_large_in_any_layer_fails_the_map() {
    let mut big = grid(1, 1, &["1"]);
    big.cells[0] = Some(0x4000);
    let layers = vec![layer("main", Some(grid(1, 1, &["1"]))), layer("change", Some(big))];
    assert_eq!(process_femap(&layers).err(), Some(MapError::TileIdOverflow));
    let mut big = grid(1, 1, &["1"]);
    big.cells[0] = Some(0x4000);
    let layers = vec![layer("main", Some(big)), layer("change", Some(grid(1, 1, &["1"])))];
    assert_eq!(process_femap(&layers).err(), Some(MapError::TileIdOverflow));
}

#[test]
fn two_marked_layers_are_reported_before_an_id_too_large() {
    let mut big = grid(1, 1, &["1"]);
    big.cells[0] = Some(0x4000);
    let layers = vec![layer("main", Some(big)), layer("main", Some(grid(1, 1, &["1"])))];
    assert_eq!(process_femap(&layers).err(), Some(MapError::MultipleMainLayers));
}

#[test]
fn a_raw_map_must_hold_two_bytes_for_each_place() {
    assert_eq!(process_mar(2, 2, &[0; 7]), Err(MapError::SizeMismatch));
    assert_eq!(process_mar(2, 2, &[0; 9]), Err(MapError::SizeMismatch));
    assert_eq!(process_mar(0, 5, &[0; 2]), Err(MapError::SizeMismatch));
    assert_eq!(process_mar(usize::MAX, 2, &[0; 4]), Err(MapError::SizeMismatch));
    assert_eq!(process_mar(usize::MAX, usize::MAX, &[]), Err(MapError::SizeMismatch));
    assert!(process_mar(2, 2, &[0; 8]).is_ok());
    assert!(process_mar(0, 5, &[]).is_ok());
}

#[test]
fn a_raw_map_is_scaled_down_by_eight_and_compressed() {
    let raw = [0x08, 0x00, 0x00, 0x01, 0xFF, 0xFF, 0x07, 0x00];
    let frame = process_mar(2, 2, &raw).unwrap();
    let payload = vec![2, 2, 0x01, 0x00, 0x20, 0x00, 0xFF, 0x1F, 0x00, 0x00];
    assert_eq!(frame, compress(&payload, CompressionStrategy::CheckMostRecentOnly));
    assert_eq!(decompress(&frame), (payload, vec![]));
}

#[test]
fn the_size_of_a_raw_map_is_written_as_one_byte_each() {
    let raw = vec![0u8; 300 * 1 * 2];
    let frame = process_mar(300, 1, &raw).unwrap();
    let (payload, errors) = decompress(&frame);
    assert!(errors.is_empty());
    assert_eq!(payload.len(), 602);
    assert_eq!(&payload[..2], &[44, 1]);
}
