use jp_estat::{check_detected_level, level_names, validate_mesh_code_level, MeshError};

#[test]
fn classifier_confirms_standard_codes() {
    let codes: [(u64, u8); 6] = [
        (5339, 1),
        (533935, 2),
        (53393599, 3),
        (533935992, 4),
        (5339359921, 5),
        (53393599212, 6),
    ];
    for (code, level) in codes {
        assert_eq!(validate_mesh_code_level(code, level), Ok(()));
        for other in 0..=7u8 {
            if other != level {
                assert_eq!(
                    validate_mesh_code_level(code, other),
                    Err(MeshError::MeshLevelMismatch)
                );
            }
        }
    }
}

#[test]
fn classifier_refuses_other_codes() {
    // No code, a code of an extended level, a bad quadrant, and too many digits.
    for code in [0u64, 5, 53392, 5339235, 533935885, 533935999, 5339359920, 533935992123] {
        for level in 1..=6u8 {
            assert_eq!(validate_mesh_code_level(code, level), Err(MeshError::MeshLevelMismatch));
        }
    }
}

#[test]
fn detected_level_is_compared() {
    assert_eq!(check_detected_level(Some(3), 3), Ok(()));
    assert_eq!(check_detected_level(Some(3), 4), Err(MeshError::MeshLevelMismatch));
    assert_eq!(check_detected_level(None, 3), Err(MeshError::MeshLevelMismatch));
}

#[test]
fn level_names_are_those_of_the_grid() {
    assert_eq!(level_names(3, 1), Ok(("Lv3".to_string(), "Lv1".to_string())));
    assert_eq!(level_names(6, 6), Ok(("Lv6".to_string(), "Lv6".to_string())));
    assert_eq!(level_names(2, 5), Ok(("Lv2".to_string(), "Lv5".to_string())));
    assert_eq!(level_names(4, 4), Ok(("Lv4".to_string(), "Lv4".to_string())));
    assert_eq!(level_names(0, 3), Err(MeshError::UnsupportedLevel(0)));
    assert_eq!(level_names(3, 7), Err(MeshError::UnsupportedLevel(7)));
    assert_eq!(level_names(200, 9), Err(MeshError::UnsupportedLevel(200)));
}
