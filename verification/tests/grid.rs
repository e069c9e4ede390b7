use jp_estat::{
    decode_quadrant, digits_for_level, map_meshcode_to_tile, parse_digit, refinement_factor,
    subdivisions_per_axis, MeshError,
};

#[test]
fn test_subdivisions_per_axis() {
    assert_eq!(subdivisions_per_axis(1, 3).unwrap(), 80);
    assert_eq!(subdivisions_per_axis(1, 4).unwrap(), 160);
    assert_eq!(subdivisions_per_axis(3, 6).unwrap(), 8);
    assert_eq!(subdivisions_per_axis(6, 6).unwrap(), 1);
}

#[test]
fn test_map_lv3_to_lv1() {
    let (tile_code, row, col) = map_meshcode_to_tile(53393599, 3, 1, 80).unwrap();
    assert_eq!(tile_code, 5339);
    assert_eq!(row, 40);
    assert_eq!(col, 59);
}

#[test]
fn test_map_lv6_to_lv3() {
    let (tile_code, row, col) = map_meshcode_to_tile(53370000242, 6, 3, 8).unwrap();
    assert_eq!(tile_code, 53370000);
    assert_eq!(row, 5);
    assert_eq!(col, 7);
}

#[test]
fn map_rejects_wrong_digit_count() {
    assert_eq!(map_meshcode_to_tile(5339359, 3, 1, 80), Err(MeshError::MalformedMeshCode));
}

#[test]
fn level_tables() {
    let digits: Vec<usize> = (1..=6).map(|l| digits_for_level(l).unwrap()).collect();
    assert_eq!(digits, vec![4, 6, 8, 9, 10, 11]);
    assert_eq!(digits_for_level(0), Err(MeshError::UnsupportedLevel(0)));
    assert_eq!(digits_for_level(7), Err(MeshError::UnsupportedLevel(7)));
    let factors: Vec<usize> = (2..=6).map(|l| refinement_factor(l).unwrap()).collect();
    assert_eq!(factors, vec![8, 10, 2, 2, 2]);
    assert_eq!(refinement_factor(1), Err(MeshError::UnsupportedLevel(1)));
    assert_eq!(refinement_factor(7), Err(MeshError::UnsupportedLevel(7)));
    assert_eq!(decode_quadrant(1), Ok((0, 0)));
    assert_eq!(decode_quadrant(2), Ok((0, 1)));
    assert_eq!(decode_quadrant(3), Ok((1, 0)));
    assert_eq!(decode_quadrant(4), Ok((1, 1)));
    assert_eq!(decode_quadrant(0), Err(MeshError::InvalidQuadrant { digit: 0 }));
    assert_eq!(decode_quadrant(5), Err(MeshError::InvalidQuadrant { digit: 5 }));
}

#[test]
fn subdivisions_errors_and_products() {
    assert_eq!(
        subdivisions_per_axis(4, 3),
        Err(MeshError::InvalidLevelOrdering { tile_level: 4, data_level: 3 })
    );
    assert_eq!(subdivisions_per_axis(0, 3), Err(MeshError::UnsupportedLevel(1)));
    assert_eq!(subdivisions_per_axis(5, 8), Err(MeshError::UnsupportedLevel(7)));
    assert_eq!(subdivisions_per_axis(1, 6), Ok(640));
    assert_eq!(subdivisions_per_axis(2, 3), Ok(10));
    assert_eq!(subdivisions_per_axis(1, 2), Ok(8));
    assert_eq!(subdivisions_per_axis(9, 9), Ok(1));
}

#[test]
fn parse_digit_cases() {
    assert_eq!(parse_digit(b"5339", 0), Ok(5));
    assert_eq!(parse_digit(b"5339", 3), Ok(9));
    assert_eq!(parse_digit(b"5339", 4), Err(MeshError::MalformedMeshCode));
    assert_eq!(parse_digit(b"53a9", 2), Err(MeshError::MalformedMeshCode));
    assert_eq!(parse_digit(b"", 0), Err(MeshError::MalformedMeshCode));
}

#[test]
fn map_row_is_counted_from_the_top() {
    // The south-west cell of the tile is in the last row, the north-east cell in the first.
    assert_eq!(map_meshcode_to_tile(53390000, 3, 1, 80), Ok((5339, 79, 0)));
    assert_eq!(map_meshcode_to_tile(53397799, 3, 1, 80), Ok((5339, 0, 79)));
    assert_eq!(map_meshcode_to_tile(533900001, 4, 3, 2), Ok((53390000, 1, 0)));
    assert_eq!(map_meshcode_to_tile(533900002, 4, 3, 2), Ok((53390000, 1, 1)));
    assert_eq!(map_meshcode_to_tile(533900003, 4, 3, 2), Ok((53390000, 0, 0)));
    assert_eq!(map_meshcode_to_tile(533900004, 4, 3, 2), Ok((53390000, 0, 1)));
}

#[test]
fn map_same_level_is_one_cell() {
    assert_eq!(map_meshcode_to_tile(53393599, 3, 3, 1), Ok((53393599, 0, 0)));
    assert_eq!(map_meshcode_to_tile(5339, 1, 1, 1), Ok((5339, 0, 0)));
}

#[test]
fn map_level_two_and_through_all_levels() {
    assert_eq!(map_meshcode_to_tile(533935, 2, 1, 8), Ok((5339, 4, 5)));
    // 5339 35 99 2 1 2: rows 3,9,0,0,0 and columns 5,9,1,0,1 from the south-west.
    let rows = subdivisions_per_axis(1, 6).unwrap();
    assert_eq!(rows, 640);
    let row_south = ((3 * 10 + 9) * 2) * 4;
    let col = (((5 * 10 + 9) * 2 + 1) * 2) * 2 + 1;
    assert_eq!(
        map_meshcode_to_tile(53393599212, 6, 1, rows),
        Ok((5339, rows - 1 - row_south, col))
    );
    assert_eq!(map_meshcode_to_tile(53393599212, 6, 2, 80), Ok((533935, 79 - 9 * 8, 9 * 8 + 5)));
}

#[test]
fn map_errors() {
    assert_eq!(map_meshcode_to_tile(53393599, 0, 1, 80), Err(MeshError::UnsupportedLevel(0)));
    assert_eq!(map_meshcode_to_tile(53393599, 7, 1, 80), Err(MeshError::UnsupportedLevel(7)));
    assert_eq!(map_meshcode_to_tile(53393599, 3, 0, 80), Err(MeshError::UnsupportedLevel(0)));
    assert_eq!(map_meshcode_to_tile(533935990, 3, 1, 80), Err(MeshError::MalformedMeshCode));
    assert_eq!(map_meshcode_to_tile(0, 3, 1, 80), Err(MeshError::MalformedMeshCode));
    assert_eq!(
        map_meshcode_to_tile(5339, 1, 3, 1),
        Err(MeshError::InvalidLevelOrdering { tile_level: 3, data_level: 1 })
    );
    assert_eq!(
        map_meshcode_to_tile(53398599, 3, 1, 80),
        Err(MeshError::InvalidSubdivisionDigit { level: 2 })
    );
    assert_eq!(
        map_meshcode_to_tile(53393899, 3, 1, 80),
        Err(MeshError::InvalidSubdivisionDigit { level: 2 })
    );
    assert_eq!(
        map_meshcode_to_tile(533935995, 4, 1, 160),
        Err(MeshError::InvalidQuadrant { digit: 5 })
    );
    assert_eq!(
        map_meshcode_to_tile(53393599102, 6, 3, 8),
        Err(MeshError::InvalidQuadrant { digit: 0 })
    );
    // The first level whose digits are refused decides.
    assert_eq!(
        map_meshcode_to_tile(53398599502, 6, 1, 640),
        Err(MeshError::InvalidSubdivisionDigit { level: 2 })
    );
}

#[test]
fn map_rejects_cells_outside_the_tile() {
    assert_eq!(map_meshcode_to_tile(53393599, 3, 1, 40), Err(MeshError::TileCoordinateOutOfRange));
    assert_eq!(map_meshcode_to_tile(53393599, 3, 1, 59), Err(MeshError::TileCoordinateOutOfRange));
    assert_eq!(map_meshcode_to_tile(53393599, 3, 1, 60), Ok((5339, 20, 59)));
    assert_eq!(map_meshcode_to_tile(53393599, 3, 1, 0), Err(MeshError::TileCoordinateOutOfRange));
}

#[test]
fn map_cells_stay_inside_full_tiles() {
    let rows = subdivisions_per_axis(3, 5).unwrap();
    assert_eq!(rows, 4);
    for q4 in 1..=4u64 {
        for q5 in 1..=4u64 {
            let code = 5339359900 + q4 * 10 + q5;
            let (tile, row, col) = map_meshcode_to_tile(code, 5, 3, rows).unwrap();
            assert_eq!(tile, 53393599);
            assert!(row < rows && col < rows);
        }
    }
}
