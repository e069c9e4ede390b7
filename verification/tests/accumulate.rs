use jp_estat::rows::first_refused_band;
use jp_estat::{plan_tiles, MeshError, TileAccumulator, TileBuffer, TilePlan};

fn strings(items: &[&str]) -> Vec<String> {
    items.iter().map(|s| s.to_string()).collect()
}

fn header_codes() -> Vec<String> {
    strings(&["KEY_CODE", "HTKSYORI", "HTKSAKI", "GASSAN", "T000608001", "T000608002"])
}

fn header_labels() -> Vec<String> {
    strings(&["", "", "", "", "人口（総数）", "人口（総数）\u{3000}男"])
}

fn begun(level: u8, tile_level: Option<u8>, bands: Option<Vec<String>>) -> TileAccumulator {
    let plan = plan_tiles(level, tile_level).unwrap();
    let mut acc = TileAccumulator::new(plan, bands);
    assert_eq!(acc.begin_file(&header_codes(), &header_labels()), Ok(true));
    acc
}

#[test]
fn plan_defaults_and_errors() {
    assert_eq!(
        plan_tiles(3, None),
        Ok(TilePlan { data_level: 3, tile_level: 3, rows_per_axis: 1 })
    );
    assert_eq!(
        plan_tiles(3, Some(1)),
        Ok(TilePlan { data_level: 3, tile_level: 1, rows_per_axis: 80 })
    );
    assert_eq!(
        plan_tiles(6, Some(3)),
        Ok(TilePlan { data_level: 6, tile_level: 3, rows_per_axis: 8 })
    );
    assert_eq!(
        plan_tiles(3, Some(4)),
        Err(MeshError::InvalidLevelOrdering { tile_level: 4, data_level: 3 })
    );
    assert_eq!(plan_tiles(7, Some(3)), Err(MeshError::UnsupportedLevel(7)));
    assert_eq!(plan_tiles(3, Some(0)), Err(MeshError::UnsupportedLevel(0)));
    assert_eq!(plan_tiles(0, None), Err(MeshError::UnsupportedLevel(0)));
}

#[test]
fn first_file_fixes_bands_and_size() {
    let acc = begun(4, Some(3), None);
    let names: Vec<&str> = acc.bands().iter().map(|b| b.name.as_str()).collect();
    assert_eq!(names, vec!["人口（総数）", "人口（総数）男"]);
    assert_eq!(acc.bands()[0].source_idx, 4);
    assert_eq!(acc.bands()[1].source_idx, 5);
    assert_eq!(acc.tile_value_count(), 2 * 2 * 2);
    assert_eq!(acc.plan(), TilePlan { data_level: 4, tile_level: 3, rows_per_axis: 2 });
    let names = strings(&["KEY_CODE", "HTKSYORI", "HTKSAKI", "GASSAN", "人口（総数）", "人口（総数）男"]);
    assert_eq!(acc.header(), Some(names.as_slice()));
}

#[test]
fn requested_bands_fix_the_order() {
    let acc = begun(4, Some(3), Some(strings(&["人口（総数）男", "人口（総数）"])));
    assert_eq!(acc.bands()[0].source_idx, 5);
    assert_eq!(acc.bands()[1].source_idx, 4);
}

#[test]
fn begin_file_errors() {
    let plan = plan_tiles(3, Some(1)).unwrap();
    let mut acc = TileAccumulator::new(plan, None);
    let four = strings(&["a", "b", "c", "d"]);
    assert_eq!(acc.begin_file(&four, &four), Err(MeshError::TooFewColumns));
    let five = strings(&["a", "b", "c", "d", "e"]);
    assert_eq!(acc.begin_file(&four, &five), Err(MeshError::HeaderColumnCountMismatch));
    assert!(acc.header().is_none());
    assert!(acc.bands().is_empty());

    let mut unknown = TileAccumulator::new(plan, Some(strings(&["nope"])));
    assert_eq!(
        unknown.begin_file(&header_codes(), &header_labels()),
        Err(MeshError::UnknownBand("nope".to_string()))
    );
    let mut empty = TileAccumulator::new(plan, Some(Vec::new()));
    assert_eq!(
        empty.begin_file(&header_codes(), &header_labels()),
        Err(MeshError::EmptyBandList)
    );
}

#[test]
fn too_many_bands() {
    let count = 4 + 256;
    let codes: Vec<String> = (0..count).map(|i| format!("c{}", i)).collect();
    let labels: Vec<String> = (0..count).map(|_| String::new()).collect();
    let plan = plan_tiles(3, Some(3)).unwrap();
    let mut acc = TileAccumulator::new(plan, None);
    assert_eq!(acc.begin_file(&codes, &labels), Err(MeshError::TooManyBands));
    let mut fits = TileAccumulator::new(plan, None);
    assert_eq!(fits.begin_file(&codes[..count - 1], &labels[..count - 1]), Ok(true));
    assert_eq!(fits.bands().len(), 255);
}

#[test]
fn later_file_must_have_the_same_header() {
    let mut acc = begun(4, Some(3), None);
    assert_eq!(acc.begin_file(&header_codes(), &header_labels()), Ok(false));
    let mut other = header_labels();
    other[5] = "世帯".to_string();
    assert_eq!(acc.begin_file(&header_codes(), &other), Err(MeshError::HeaderMismatch));
    // The names count, not the rows they came from.
    let names = strings(&["KEY_CODE", "HTKSYORI", "HTKSAKI", "GASSAN", "人口（総数）", "人口（総数）男"]);
    assert_eq!(acc.begin_file(&strings(&[]), &names), Ok(false));
}

#[test]
fn rows_fill_cells_from_the_top() {
    let mut acc = begun(4, Some(3), None);
    // Quadrant 1 is south-west: last row, first column.
    acc.store_row(533935991, &strings(&["533935991", "", "", "", "10", "4"])).unwrap();
    // Quadrant 4 is north-east: first row, second column.
    acc.store_row(533935994, &strings(&["533935994", "", "", "", "*", " 7 "])).unwrap();
    let tiles = acc.take_tiles();
    let nd = i32::MIN;
    assert_eq!(
        tiles,
        vec![TileBuffer { tile_code: 53393599, values: vec![nd, nd, nd, 7, 10, 4, nd, nd] }]
    );
    assert!(acc.take_tiles().is_empty());
}

#[test]
fn later_row_replaces_earlier_row() {
    let mut acc = begun(4, Some(3), None);
    acc.store_row(533935992, &strings(&["533935992", "", "", "", "1", "2"])).unwrap();
    acc.store_row(533935992, &strings(&["533935992", "", "", "", "3", ""])).unwrap();
    let tiles = acc.take_tiles();
    let nd = i32::MIN;
    assert_eq!(tiles[0].values, vec![nd, nd, nd, nd, nd, nd, 3, nd]);
}

#[test]
fn tiles_come_out_in_ascending_order() {
    let mut acc = begun(3, None, None);
    for code in [53393599u64, 36225745, 68481234, 53393511, 36225700] {
        let row = strings(&[&code.to_string(), "", "", "", "1", "2"]);
        acc.store_row(code, &row).unwrap();
    }
    let codes: Vec<u64> = acc.take_tiles().iter().map(|t| t.tile_code).collect();
    assert_eq!(codes, vec![36225700, 36225745, 53393511, 53393599, 68481234]);
}

#[test]
fn order_of_arrival_does_not_show() {
    let rows: Vec<(u64, Vec<String>)> = [533935991u64, 523500002, 533935994, 684812343]
        .iter()
        .enumerate()
        .map(|(i, c)| (*c, strings(&[&c.to_string(), "", "", "", &i.to_string(), ""])))
        .collect();
    let mut forward = begun(4, Some(3), None);
    for (code, row) in rows.iter() {
        forward.store_row(*code, row).unwrap();
    }
    let mut backward = begun(4, Some(3), None);
    for (code, row) in rows.iter().rev() {
        backward.store_row(*code, row).unwrap();
    }
    assert_eq!(forward.take_tiles(), backward.take_tiles());
}

#[test]
fn store_row_errors_leave_tiles_alone() {
    let mut acc = begun(4, Some(3), None);
    acc.store_row(533935991, &strings(&["533935991", "", "", "", "1", "2"])).unwrap();
    assert_eq!(
        acc.store_row(53393599, &strings(&["53393599", "", "", "", "1", "2"])),
        Err(MeshError::MalformedMeshCode)
    );
    assert_eq!(
        acc.store_row(533935995, &strings(&["533935995", "", "", "", "1", "2"])),
        Err(MeshError::InvalidQuadrant { digit: 5 })
    );
    assert_eq!(
        acc.store_row(533935992, &strings(&["533935992", "", "", "", "1", "x"])),
        Err(MeshError::InvalidInteger)
    );
    assert_eq!(
        acc.store_row(533935992, &strings(&["533935992", "", "", "", "3000000000", "1"])),
        Err(MeshError::ValueOutOfRange)
    );
    let tiles = acc.take_tiles();
    let nd = i32::MIN;
    assert_eq!(tiles.len(), 1);
    assert_eq!(tiles[0].values, vec![nd, nd, nd, nd, 1, 2, nd, nd]);
}

#[test]
fn short_rows_read_as_no_data() {
    let mut acc = begun(4, Some(3), None);
    acc.store_row(533935993, &strings(&["533935993", "", "", "", "5"])).unwrap();
    let nd = i32::MIN;
    assert_eq!(acc.take_tiles()[0].values, vec![5, nd, nd, nd, nd, nd, nd, nd]);
}

#[test]
fn rows_before_a_header_are_refused() {
    let plan = plan_tiles(3, Some(1)).unwrap();
    let mut acc = TileAccumulator::new(plan, None);
    let row = strings(&["53393599", "", "", "", "1", "2"]);
    assert_eq!(acc.push_row(&row), Err(MeshError::NoHeader));
    assert_eq!(acc.store_row(53393599, &row), Err(MeshError::NoHeader));
}

#[test]
fn push_row_skips_blank_codes_and_checks_the_level_once() {
    let mut acc = begun(3, Some(1), None);
    assert_eq!(acc.push_row(&strings(&["", "", "", "", "1", "2"])), Ok(()));
    assert_eq!(acc.push_row(&strings(&[" \u{3000}", "", "", "", "1", "2"])), Ok(()));
    assert_eq!(acc.push_row(&strings(&[])), Ok(()));
    assert!(!acc.level_checked());
    assert_eq!(
        acc.push_row(&strings(&["5339-3599", "", "", "", "1", "2"])),
        Err(MeshError::MalformedMeshCode)
    );
    assert_eq!(acc.push_row(&strings(&[" 53393599 ", "", "", "", "11", "12"])), Ok(()));
    assert!(acc.level_checked());
    assert_eq!(acc.push_row(&strings(&["+53393598", "", "", "", "21", "22"])), Ok(()));
    let tiles = acc.take_tiles();
    assert_eq!(tiles.len(), 1);
    assert_eq!(tiles[0].tile_code, 5339);
    assert_eq!(tiles[0].values.len(), 80 * 80 * 2);
    let base = (40 * 80 + 59) * 2;
    assert_eq!(&tiles[0].values[base..base + 2], &[11, 12]);
    assert_eq!(&tiles[0].values[base - 2..base], &[21, 22]);
    let written = tiles[0].values.iter().filter(|v| **v != i32::MIN).count();
    assert_eq!(written, 4);
}

#[test]
fn push_row_refuses_a_first_code_of_another_level() {
    let mut acc = begun(3, Some(1), None);
    // A fourth-level code in data that is said to be of the third level.
    assert_eq!(
        acc.push_row(&strings(&["533935992", "", "", "", "1", "2"])),
        Err(MeshError::MeshLevelMismatch)
    );
    assert!(acc.take_tiles().is_empty());
    // Once a code of the file went by the classifier, the mapping judges the others.
    assert_eq!(acc.push_row(&strings(&["53393599", "", "", "", "1", "2"])), Ok(()));
    assert_eq!(
        acc.push_row(&strings(&["533935992", "", "", "", "1", "2"])),
        Err(MeshError::MalformedMeshCode)
    );
    // A new file is checked again.
    assert_eq!(acc.begin_file(&header_codes(), &header_labels()), Ok(false));
    assert!(!acc.level_checked());
    assert_eq!(
        acc.push_row(&strings(&["5339359921", "", "", "", "1", "2"])),
        Err(MeshError::MeshLevelMismatch)
    );
}

#[test]
fn tiles_gather_rows_of_several_files() {
    let mut acc = begun(4, Some(3), None);
    acc.push_row(&strings(&["533935991", "", "", "", "1", "2"])).unwrap();
    assert_eq!(acc.begin_file(&header_codes(), &header_labels()), Ok(false));
    acc.push_row(&strings(&["523500004", "", "", "", "3", "4"])).unwrap();
    acc.push_row(&strings(&["533935994", "", "", "", "5", "6"])).unwrap();
    let tiles = acc.take_tiles();
    let nd = i32::MIN;
    assert_eq!(
        tiles,
        vec![
            TileBuffer { tile_code: 52350000, values: vec![nd, nd, 3, 4, nd, nd, nd, nd] },
            TileBuffer { tile_code: 53393599, values: vec![nd, nd, 5, 6, 1, 2, nd, nd] },
        ]
    );
}

#[test]
fn tile_size_must_fit() {
    let plan = TilePlan { data_level: 3, tile_level: 1, rows_per_axis: usize::MAX };
    let mut acc = TileAccumulator::new(plan, None);
    assert_eq!(
        acc.begin_file(&header_codes(), &header_labels()),
        Err(MeshError::TileSizeOverflow)
    );
    assert!(acc.header().is_none());
    let half = TilePlan { data_level: 3, tile_level: 1, rows_per_axis: 1 << (usize::BITS / 2 - 1) };
    let mut acc = TileAccumulator::new(half, None);
    assert_eq!(acc.begin_file(&header_codes(), &header_labels()), Ok(true));
    assert_eq!(acc.tile_value_count(), 1 << (usize::BITS - 1));
}

#[test]
fn cells_outside_a_small_tile_are_refused() {
    let plan = TilePlan { data_level: 4, tile_level: 3, rows_per_axis: 1 };
    let mut acc = TileAccumulator::new(plan, None);
    assert_eq!(acc.begin_file(&header_codes(), &header_labels()), Ok(true));
    assert_eq!(
        acc.store_row(533935994, &strings(&["533935994", "", "", "", "1", "2"])),
        Err(MeshError::TileCoordinateOutOfRange)
    );
    // The south-west quarter is the only cell of a tile of one row; it is the top row.
    assert_eq!(acc.store_row(533935991, &strings(&["533935991", "", "", "", "1", "2"])), Ok(()));
    assert_eq!(acc.take_tiles()[0].values, vec![1, 2]);
}

#[test]
fn refused_rows_tell_their_column() {
    let mut acc = begun(4, Some(3), None);
    let good = strings(&["533935991", "", "", "", "1", "2"]);
    assert_eq!(first_refused_band(acc.bands(), &good), None);
    let second = strings(&["533935991", "", "", "", "1", "x"]);
    assert_eq!(acc.push_row(&second), Err(MeshError::InvalidInteger));
    assert_eq!(first_refused_band(acc.bands(), &second), Some(1));
    assert_eq!(acc.bands()[1].name, "人口（総数）男");
    let both = strings(&["533935991", "", "", "", "3000000000", "x"]);
    assert_eq!(acc.push_row(&both), Err(MeshError::ValueOutOfRange));
    assert_eq!(first_refused_band(acc.bands(), &both), Some(0));
    let short = strings(&["533935991"]);
    assert_eq!(first_refused_band(acc.bands(), &short), None);
    assert_eq!(first_refused_band(&[], &both), None);
}

#[test]
fn refused_rows_follow_the_order_of_the_bands() {
    let acc = begun(4, Some(3), Some(strings(&["人口（総数）男", "人口（総数）"])));
    // The bands are asked for in the other order, so the later column comes first.
    let row = strings(&["533935991", "", "", "", "bad", "worse"]);
    assert_eq!(first_refused_band(acc.bands(), &row), Some(0));
    assert_eq!(acc.bands()[0].source_idx, 5);
    let row = strings(&["533935991", "", "", "", "bad", "7"]);
    assert_eq!(first_refused_band(acc.bands(), &row), Some(1));
}

#[test]
fn a_refusal_changes_nothing() {
    let mut acc = begun(4, Some(3), None);
    assert!(!acc.level_checked());
    // The classifier confirms the code, and the value is refused afterwards.
    assert_eq!(
        acc.push_row(&strings(&["533935991", "", "", "", "x", "2"])),
        Err(MeshError::InvalidInteger)
    );
    assert!(!acc.level_checked());
    assert!(acc.take_tiles().is_empty());
}

#[test]
fn equal_input_gives_equal_tiles() {
    let run = || {
        let mut acc = begun(4, Some(3), None);
        for (code, a, b) in [(533935994u64, "1", "2"), (523500001, "*", "3"), (533935991, "4", "")] {
            acc.push_row(&strings(&[&code.to_string(), "", "", "", a, b])).unwrap();
        }
        assert_eq!(acc.begin_file(&header_codes(), &header_labels()), Ok(false));
        acc.push_row(&strings(&["684812342", "", "", "", "5", "6"])).unwrap();
        acc.take_tiles()
    };
    let first = run();
    assert_eq!(first, run());
    let codes: Vec<u64> = first.iter().map(|t| t.tile_code).collect();
    assert_eq!(codes, vec![52350000, 53393599, 68481234]);
}
