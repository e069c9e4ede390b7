use jp_estat::{
    build_available_bands, normalize_headers, resolve_selected_bands, MeshError, SelectedBand,
};

fn sample_available_bands() -> Vec<SelectedBand> {
    vec![
        SelectedBand { source_idx: 4, name: "人口（総数）".to_string() },
        SelectedBand { source_idx: 5, name: "人口（総数）男".to_string() },
        SelectedBand { source_idx: 6, name: "人口（総数）女".to_string() },
    ]
}

fn strings(items: &[&str]) -> Vec<String> {
    items.iter().map(|s| s.to_string()).collect()
}

#[test]
fn test_resolve_selected_bands_default_all() {
    let available = sample_available_bands();
    let selected = resolve_selected_bands(&available, None).unwrap();
    let names: Vec<String> = selected.into_iter().map(|b| b.name).collect();
    assert_eq!(names, vec!["人口（総数）", "人口（総数）男", "人口（総数）女"]);
}

#[test]
fn test_resolve_selected_bands_custom_order() {
    let available = sample_available_bands();
    let requested = vec!["人口（総数）女".to_string(), "人口（総数）".to_string()];
    let selected = resolve_selected_bands(&available, Some(&requested)).unwrap();
    let names: Vec<String> = selected.into_iter().map(|b| b.name).collect();
    assert_eq!(names, vec!["人口（総数）女", "人口（総数）"]);
}

#[test]
fn test_resolve_selected_bands_unknown() {
    let available = sample_available_bands();
    let requested = vec!["UNKNOWN".to_string()];
    let err = resolve_selected_bands(&available, Some(&requested)).unwrap_err();
    assert!(err.message().contains("unknown band"));
}

#[test]
fn unknown_band_error_names_the_band() {
    let available = sample_available_bands();
    let requested = vec!["  UNKNOWN ".to_string()];
    let err = resolve_selected_bands(&available, Some(&requested)).unwrap_err();
    assert_eq!(err, MeshError::UnknownBand("UNKNOWN".to_string()));
    assert_eq!(err.message(), "unknown band 'UNKNOWN'");
}

#[test]
fn resolve_default_keeps_source_columns() {
    let available = sample_available_bands();
    let selected = resolve_selected_bands(&available, None).unwrap();
    assert_eq!(selected, available);
}

#[test]
fn resolve_custom_order_keeps_source_columns() {
    let available = sample_available_bands();
    let requested = strings(&[" 人口（総数）女", "人口（総数）男 "]);
    let selected = resolve_selected_bands(&available, Some(&requested)).unwrap();
    assert_eq!(selected[0].source_idx, 6);
    assert_eq!(selected[1].source_idx, 5);
}

#[test]
fn resolve_rejects_empty_request() {
    let available = sample_available_bands();
    let requested: Vec<String> = Vec::new();
    assert_eq!(
        resolve_selected_bands(&available, Some(&requested)),
        Err(MeshError::EmptyBandList)
    );
}

#[test]
fn resolve_rejects_blank_name() {
    let available = sample_available_bands();
    let requested = strings(&["人口（総数）", " \u{3000} "]);
    assert_eq!(
        resolve_selected_bands(&available, Some(&requested)),
        Err(MeshError::BlankBandName)
    );
}

#[test]
fn resolve_rejects_duplicate() {
    let available = sample_available_bands();
    let requested = strings(&["人口（総数）男", "人口（総数）", "人口（総数）男"]);
    let err = resolve_selected_bands(&available, Some(&requested)).unwrap_err();
    assert_eq!(err, MeshError::DuplicateBand("人口（総数）男".to_string()));
    assert_eq!(err.message(), "duplicate band in --bands: 人口（総数）男");
}

#[test]
fn resolve_first_fault_decides() {
    let available = sample_available_bands();
    let requested = strings(&["人口（総数）", "nope", "人口（総数）", ""]);
    assert_eq!(
        resolve_selected_bands(&available, Some(&requested)),
        Err(MeshError::UnknownBand("nope".to_string()))
    );
}

#[test]
fn resolve_takes_first_band_of_a_name() {
    let available = vec![
        SelectedBand { source_idx: 4, name: "A".to_string() },
        SelectedBand { source_idx: 5, name: "B".to_string() },
        SelectedBand { source_idx: 6, name: "A".to_string() },
    ];
    let selected = resolve_selected_bands(&available, Some(&strings(&["B", "A"]))).unwrap();
    assert_eq!(selected[0], available[1]);
    assert_eq!(selected[1], available[0]);
}

#[test]
fn resolve_with_nothing_available() {
    let available: Vec<SelectedBand> = Vec::new();
    assert_eq!(resolve_selected_bands(&available, None), Ok(Vec::new()));
    assert_eq!(
        resolve_selected_bands(&available, Some(&strings(&["A"]))),
        Err(MeshError::UnknownBand("A".to_string()))
    );
}

#[test]
fn normalize_prefers_label_and_strips_full_width_space() {
    let codes = strings(&["KEY_CODE", "HTKSYORI", "HTKSAKI", "GASSAN", "T000608001", "T000608002"]);
    let labels = strings(&["", " ", "\u{3000}", "", " 人口\u{3000}（総数） ", "人口（総数）\u{3000}男"]);
    let names = normalize_headers(&codes, &labels);
    assert_eq!(
        names,
        vec!["KEY_CODE", "HTKSYORI", "HTKSAKI", "GASSAN", " 人口（総数） ", "人口（総数）男"]
    );
}

#[test]
fn normalize_keeps_white_space_that_is_not_full_width() {
    let names = normalize_headers(&strings(&[" a ", "\u{3000}b\u{3000} c"]), &strings(&["", " \t"]));
    assert_eq!(names, vec![" a ", "b c"]);
    let names = normalize_headers(&strings(&["x", "y"]), &strings(&[" l ", "\u{3000} m\u{3000}"]));
    assert_eq!(names, vec![" l ", " m"]);
}

#[test]
fn normalize_follows_the_second_row() {
    let codes = strings(&[" A\t", "B"]);
    let labels = strings(&["", "", "x y"]);
    let names = normalize_headers(&codes, &labels);
    assert_eq!(names, vec![" A\t", "B", "x y"]);
    let short = normalize_headers(&codes, &strings(&["only"]));
    assert_eq!(short, vec!["only"]);
}

#[test]
fn available_bands_start_after_identity_columns() {
    let codes = strings(&["KEY_CODE", "HTKSYORI", "HTKSAKI", "GASSAN", "T1", "T2"]);
    let names = strings(&["KEY_CODE", "HTKSYORI", "HTKSAKI", "GASSAN", "人口", "世帯"]);
    let bands = build_available_bands(&codes, &names).unwrap();
    assert_eq!(
        bands,
        vec![
            SelectedBand { source_idx: 4, name: "人口".to_string() },
            SelectedBand { source_idx: 5, name: "世帯".to_string() },
        ]
    );
}

#[test]
fn available_bands_errors() {
    let four = strings(&["a", "b", "c", "d"]);
    let five = strings(&["a", "b", "c", "d", "e"]);
    assert_eq!(build_available_bands(&four, &five), Err(MeshError::HeaderColumnCountMismatch));
    assert_eq!(build_available_bands(&four, &four), Err(MeshError::NoStatColumns));
    assert_eq!(build_available_bands(&five, &five).unwrap().len(), 1);
}
