use jp_estat::areamap::{
    areamap_table_name, dl_serveys, geometry_column_type, get_all_shape_urls, get_shape_url,
    pref_code, shape_archive_name, shapes_for_year, srid_for_datum, water_block_cleanup_statement,
    DlServey, ShapeUrlMeta,
};
use jp_estat::download::DownloadedItem;
use jp_estat::download::order_by_mesh;
use std::path::PathBuf;

#[test]
fn shape_url_has_its_parts() {
    assert_eq!(
        get_shape_url("A002005212020", "13", "2011"),
        "https://www.e-stat.go.jp/gis/statmap-search/data?dlserveyId=A002005212020&code=13&coordSys=1&format=shape&downloadType=5&datum=2011"
    );
    assert_eq!(
        get_shape_url("", "", ""),
        "https://www.e-stat.go.jp/gis/statmap-search/data?dlserveyId=&code=&coordSys=1&format=shape&downloadType=5&datum="
    );
}

#[test]
fn serveys_and_prefectures() {
    let serveys = dl_serveys();
    let years: Vec<u32> = serveys.iter().map(|s| s.year).collect();
    assert_eq!(years, vec![2020, 2015, 2010, 2005, 2000]);
    let ids: Vec<&str> = serveys.iter().map(|s| s.id).collect();
    assert_eq!(
        ids,
        vec!["A002005212020", "A002005212015", "A002005212010", "A002005212005", "A002005212000"]
    );
    let datums: Vec<&str> = serveys.iter().map(|s| s.datum).collect();
    assert_eq!(datums, vec!["2011", "2011", "2000", "2000", "2000"]);
    assert_eq!(pref_code(1), "01");
    assert_eq!(pref_code(9), "09");
    assert_eq!(pref_code(10), "10");
    assert_eq!(pref_code(47), "47");
}

#[test]
fn all_shape_urls_in_order() {
    let urls = get_all_shape_urls();
    assert_eq!(urls.len(), 47 * 5);
    assert_eq!(urls[0].pref_code, "01");
    assert_eq!(urls[0].dlservey.year, 2020);
    assert_eq!(urls[4].pref_code, "01");
    assert_eq!(urls[4].dlservey.year, 2000);
    assert_eq!(urls[5].pref_code, "02");
    assert_eq!(urls[234].pref_code, "47");
    assert_eq!(urls[234].dlservey.year, 2000);
    assert_eq!(
        urls[62].url,
        "https://www.e-stat.go.jp/gis/statmap-search/data?dlserveyId=A002005212010&code=13&coordSys=1&format=shape&downloadType=5&datum=2000"
    );
    let serveys = dl_serveys();
    for (place, item) in urls.iter().enumerate() {
        assert_eq!(item.dlservey.year, serveys[place % 5].year);
        assert_eq!(item.dlservey.id, serveys[place % 5].id);
        assert_eq!(item.dlservey.datum, serveys[place % 5].datum);
        assert_eq!(item.pref_code, pref_code((place / 5 + 1) as u8));
    }
    for item in urls.iter() {
        assert_eq!(item.url, get_shape_url(item.dlservey.id, &item.pref_code, item.dlservey.datum));
    }
}

#[test]
fn names_and_spatial_references() {
    assert_eq!(shape_archive_name(2020, "13"), "2020-13.zip");
    assert_eq!(areamap_table_name(2005), "jp_estat_areamap_2005");
    assert_eq!(srid_for_datum("2000"), "4621");
    assert_eq!(srid_for_datum("2011"), "6668");
    assert_eq!(srid_for_datum(""), "6668");
    assert_eq!(geometry_column_type("2000"), "geometry(polygon, 4621)");
    assert_eq!(geometry_column_type("2011"), "geometry(polygon, 6668)");
    assert_eq!(
        water_block_cleanup_statement("jp_estat_areamap_2020"),
        "DELETE FROM jp_estat_areamap_2020 WHERE hcode = 8154"
    );
}

#[test]
fn shapes_are_picked_by_year() {
    let item = |year: u32, n: u32| DownloadedItem {
        metadata: ShapeUrlMeta {
            dlservey: DlServey { year, id: "id", datum: "2000" },
            pref_code: "01".to_string(),
            url: String::new(),
        },
        extracted_path: PathBuf::from(format!("{}.shp", n)),
    };
    let items = vec![item(2020, 0), item(2015, 1), item(2020, 2), item(2000, 3), item(2020, 4)];
    assert_eq!(shapes_for_year(&items, 2020), vec![0, 2, 4]);
    assert_eq!(shapes_for_year(&items, 2015), vec![1]);
    assert_eq!(shapes_for_year(&items, 2010), Vec::<usize>::new());
}

#[test]
fn files_are_worked_through_by_mesh_code() {
    assert_eq!(order_by_mesh(&[]), Vec::<usize>::new());
    assert_eq!(order_by_mesh(&[5339]), vec![0]);
    assert_eq!(order_by_mesh(&[6848, 3036, 5339, 5235]), vec![1, 3, 2, 0]);
    // Equal codes keep the order in which they stand.
    assert_eq!(order_by_mesh(&[7, 3, 7, 3, 1]), vec![4, 1, 3, 0, 2]);
}

#[test]
fn order_of_arrival_does_not_change_the_working_order() {
    let arrived = [6848u64, 3036, 5339, 5235, 4027];
    let again = [4027u64, 5235, 6848, 5339, 3036];
    let first: Vec<u64> = order_by_mesh(&arrived).into_iter().map(|i| arrived[i]).collect();
    let second: Vec<u64> = order_by_mesh(&again).into_iter().map(|i| again[i]).collect();
    assert_eq!(first, vec![3036, 4027, 5235, 5339, 6848]);
    assert_eq!(first, second);
}
