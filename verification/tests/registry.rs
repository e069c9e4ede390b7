use jp_estat::{get_matching_mesh_stats, MeshError, MeshStats};

fn entry(name: &str, year: u16, level: u8, id: &str) -> MeshStats {
    MeshStats {
        name: name.to_string(),
        year,
        meshlevel: level,
        stats_id: id.to_string(),
        datum: 6668,
    }
}

#[test]
fn registry_lookup_is_exact_and_first_wins() {
    let registry = vec![
        entry("国勢調査", 2020, 3, "T001100"),
        entry("国勢調査", 2020, 4, "T001101"),
        entry("経済センサス", 2016, 4, "T000900"),
        entry("国勢調査", 2020, 4, "T009999"),
    ];
    assert_eq!(get_matching_mesh_stats(&registry, 4, 2020, "国勢調査").unwrap().stats_id, "T001101");
    assert_eq!(get_matching_mesh_stats(&registry, 3, 2020, "国勢調査").unwrap().stats_id, "T001100");
    assert_eq!(
        get_matching_mesh_stats(&registry, 4, 2016, "経済センサス"),
        Some(&registry[2])
    );
    assert_eq!(get_matching_mesh_stats(&registry, 5, 2020, "国勢調査"), None);
    assert_eq!(get_matching_mesh_stats(&registry, 4, 2015, "国勢調査"), None);
    assert_eq!(get_matching_mesh_stats(&registry, 4, 2020, "国勢調査 "), None);
    assert_eq!(get_matching_mesh_stats(&[], 4, 2020, "国勢調査"), None);
}

#[test]
fn error_messages() {
    assert_eq!(MeshError::UnsupportedLevel(9).message(), "unsupported mesh level: 9");
    assert_eq!(
        MeshError::InvalidLevelOrdering { tile_level: 5, data_level: 3 }.message(),
        "tile-level (5) must be <= data level (3)"
    );
    assert_eq!(MeshError::InvalidQuadrant { digit: 7 }.message(), "invalid split mesh quadrant: 7");
    assert_eq!(MeshError::UnknownBand("人口".to_string()).message(), "unknown band '人口'");
    assert_eq!(MeshError::NoMatchingSurvey.message(), "一致する統計データが見つかりません");
    assert_eq!(MeshError::UnsupportedLevel(255).message(), "unsupported mesh level: 255");
    assert_eq!(MeshError::ResolutionOverflow.message(), "tile resolution overflow");
    assert_eq!(MeshError::MalformedMeshCode.message(), "malformed mesh code");
    assert_eq!(
        MeshError::InvalidSubdivisionDigit { level: 2 }.message(),
        "invalid subdivision digit in mesh code at level 2"
    );
    assert_eq!(
        MeshError::TileCoordinateOutOfRange.message(),
        "computed tile coordinates out of range"
    );
    assert_eq!(MeshError::HeaderColumnCountMismatch.message(), "header column count mismatch");
    assert_eq!(MeshError::NoStatColumns.message(), "no stat columns found");
    assert_eq!(MeshError::TooFewColumns.message(), "CSV has too few columns");
    assert_eq!(
        MeshError::EmptyBandList.message(),
        "--bands was provided but no bands were specified"
    );
    assert_eq!(MeshError::BlankBandName.message(), "--bands contains an empty value");
    assert_eq!(
        MeshError::DuplicateBand("A".to_string()).message(),
        "duplicate band in --bands: A"
    );
    assert_eq!(MeshError::TooManyBands.message(), "too many columns for tile bands");
    assert_eq!(MeshError::HeaderMismatch.message(), "CSV header mismatch");
    assert_eq!(MeshError::MeshLevelMismatch.message(), "mesh code level mismatch");
    assert_eq!(MeshError::ValueOutOfRange.message(), "value out of i32 range");
    assert_eq!(MeshError::InvalidInteger.message(), "invalid integer value");
    assert_eq!(MeshError::TileSizeOverflow.message(), "tile payload size overflow");
    assert_eq!(MeshError::TileRowsOverflow.message(), "tile rows exceed u32");
    assert_eq!(MeshError::NoHeader.message(), "row before any header");
    assert_eq!(MeshError::TileEncodingFailed.message(), "failed to encode tile");
}

#[test]
fn missing_survey_is_an_error() {
    let registry = vec![entry("国勢調査", 2020, 3, "T001100")];
    assert_eq!(
        jp_estat::find_mesh_stats(&registry, 3, 2020, "国勢調査").map(|s| s.stats_id.as_str()),
        Ok("T001100")
    );
    assert_eq!(
        jp_estat::find_mesh_stats(&registry, 4, 2020, "国勢調査"),
        Err(MeshError::NoMatchingSurvey)
    );
}
