use crate::decimal::{push_decimal, spec_decimal_text};
use crate::download::DownloadedItem;
use crate::text::same_text;
use vstd::prelude::*;
use vstd::string::*;

verus! {

/// Number of prefectures.
pub const PREFECTURES: u8 = 47;

/// One census whose boundary shapes can be downloaded.
#[derive(Clone, Copy, Debug)]
pub struct DlServey<'a> {
    /// The year of the census.
    pub year: u32,
    /// The identifier under which the shapes are published.
    pub id: &'a str,
    /// The datum of the shapes: `2000` or `2011`.
    pub datum: &'a str,
}

/// The census at place `j` of the list of censuses, the latest first: the year
/// is 2020 less five years for each place, the identifier ends in the year, and
/// the datum is `2011` for the censuses of 2020 and 2015 and `2000` for the others.
pub open spec fn is_servey(servey: DlServey<'static>, j: int) -> bool {
    &&& servey.year == 2020 - 5 * j
    &&& servey.id@ == if j == 0 {
        "A002005212020"@
    } else if j == 1 {
        "A002005212015"@
    } else if j == 2 {
        "A002005212010"@
    } else if j == 3 {
        "A002005212005"@
    } else {
        "A002005212000"@
    }
    &&& servey.datum@ == if j < 2 {
        "2011"@
    } else {
        "2000"@
    }
}

/// The censuses, the latest first.
pub fn dl_serveys() -> (list: Vec<DlServey<'static>>)
    ensures
        list@.len() == 5,
        forall|j: int| 0 <= j < 5 ==> is_servey(#[trigger] list@[j], j),
{
    let mut list: Vec<DlServey<'static>> = Vec::new();
    list.push(DlServey { year: 2020, id: "A002005212020", datum: "2011" });
    list.push(DlServey { year: 2015, id: "A002005212015", datum: "2011" });
    list.push(DlServey { year: 2010, id: "A002005212010", datum: "2000" });
    list.push(DlServey { year: 2005, id: "A002005212005", datum: "2000" });
    list.push(DlServey { year: 2000, id: "A002005212000", datum: "2000" });
    list
}

/// The code of the prefecture of number `n`: the number in two digits.
pub open spec fn spec_pref_code(n: u8) -> Seq<char> {
    if n < 10 {
        seq!['0'] + spec_decimal_text(n as nat)
    } else {
        spec_decimal_text(n as nat)
    }
}

/// The code of the prefecture of number `n`.
pub fn pref_code(n: u8) -> (code: String)
    ensures
        code@ == spec_pref_code(n),
{
    let mut code = String::new();
    if n < 10 {
        proof {
            reveal_strlit("0");
        }
        code.append("0");
        assert(code@ =~= seq!['0']);
    }
    push_decimal(&mut code, n as u64);
    code
}

/// The address from which the boundary shapes of one prefecture and one census
/// are downloaded.
pub open spec fn spec_shape_url(dlservey_id: Seq<char>, code: Seq<char>, datum: Seq<char>) -> Seq<
    char,
> {
    "https://www.e-stat.go.jp/gis/statmap-search/data?dlserveyId="@ + dlservey_id + "&code="@ + code
        + "&coordSys=1&format=shape&downloadType=5&datum="@ + datum
}

/// The address from which the boundary shapes of one prefecture and one census
/// are downloaded.
pub fn get_shape_url(dlservey_id: &str, code: &str, datum: &str) -> (url: String)
    ensures
        url@ == spec_shape_url(dlservey_id@, code@, datum@),
{
    let mut url = String::new();
    url.append("https://www.e-stat.go.jp/gis/statmap-search/data?dlserveyId=");
    url.append(dlservey_id);
    url.append("&code=");
    url.append(code);
    url.append("&coordSys=1&format=shape&downloadType=5&datum=");
    url.append(datum);
    assert(url@ =~= spec_shape_url(dlservey_id@, code@, datum@));
    url
}

/// One download of boundary shapes.
#[derive(Clone, Debug)]
pub struct ShapeUrlMeta {
    /// The census.
    pub dlservey: DlServey<'static>,
    /// The code of the prefecture.
    pub pref_code: String,
    /// The address.
    pub url: String,
}

/// The name under which the archive of a download is kept: the year, a hyphen,
/// the prefecture's code, and `.zip`.
pub fn shape_archive_name(year: u32, pref_code: &str) -> (name: String)
    ensures
        name@ == spec_decimal_text(year as nat) + "-"@ + pref_code@ + ".zip"@,
{
    let mut name = String::new();
    push_decimal(&mut name, year as u64);
    name.append("-");
    name.append(pref_code);
    name.append(".zip");
    assert(name@ =~= spec_decimal_text(year as nat) + "-"@ + pref_code@ + ".zip"@);
    name
}

/// All downloads of boundary shapes: for each prefecture in turn, each census
/// in turn, with the address that the census and the prefecture give.
pub fn get_all_shape_urls() -> (urls: Vec<ShapeUrlMeta>)
    ensures
        urls@.len() == PREFECTURES * 5,
        forall|p: int, j: int|
            0 <= p < PREFECTURES && 0 <= j < 5 ==> {
                let item = #[trigger] urls@[p * 5 + j];
                &&& item.pref_code@ == spec_pref_code((p + 1) as u8)
                &&& is_servey(item.dlservey, j)
                &&& item.url@ == spec_shape_url(
                    item.dlservey.id@,
                    item.pref_code@,
                    item.dlservey.datum@,
                )
            },
{
    let serveys = dl_serveys();
    let mut urls: Vec<ShapeUrlMeta> = Vec::new();
    let mut p: u8 = 0;
    while p < PREFECTURES
        invariant
            p <= PREFECTURES,
            serveys@.len() == 5,
            forall|j: int| 0 <= j < 5 ==> is_servey(#[trigger] serveys@[j], j),
            urls@.len() == p * 5,
            forall|q: int, j: int|
                0 <= q < p && 0 <= j < 5 ==> {
                    let item = #[trigger] urls@[q * 5 + j];
                    &&& item.pref_code@ == spec_pref_code((q + 1) as u8)
                    &&& is_servey(item.dlservey, j)
                    &&& item.url@ == spec_shape_url(
                        item.dlservey.id@,
                        item.pref_code@,
                        item.dlservey.datum@,
                    )
                },
        decreases PREFECTURES - p,
    {
        let mut j: usize = 0;
        while j < 5
            invariant
                p < PREFECTURES,
                j <= 5,
                serveys@.len() == 5,
                forall|j: int| 0 <= j < 5 ==> is_servey(#[trigger] serveys@[j], j),
                urls@.len() == p * 5 + j,
                forall|q: int, k: int|
                    (0 <= q < p && 0 <= k < 5) || (q == p && 0 <= k < j) ==> {
                        let item = #[trigger] urls@[q * 5 + k];
                        &&& item.pref_code@ == spec_pref_code((q + 1) as u8)
                        &&& is_servey(item.dlservey, k)
                        &&& item.url@ == spec_shape_url(
                            item.dlservey.id@,
                            item.pref_code@,
                            item.dlservey.datum@,
                        )
                    },
            decreases 5 - j,
        {
            let dlservey = serveys[j];
            let code = pref_code(p + 1);
            let url = get_shape_url(dlservey.id, code.as_str(), dlservey.datum);
            let ghost before = urls@;
            urls.push(ShapeUrlMeta { dlservey, pref_code: code, url });
            proof {
                assert forall|q: int, k: int|
                    (0 <= q < p && 0 <= k < 5) || (q == p && 0 <= k < j + 1) implies {
                    let item = #[trigger] urls@[q * 5 + k];
                    &&& item.pref_code@ == spec_pref_code((q + 1) as u8)
                    &&& is_servey(item.dlservey, k)
                    &&& item.url@ == spec_shape_url(
                        item.dlservey.id@,
                        item.pref_code@,
                        item.dlservey.datum@,
                    )
                } by {
                    if q * 5 + k < before.len() {
                        assert(urls@[q * 5 + k] == before[q * 5 + k]);
                    }
                }
            }
            j = j + 1;
        }
        p = p + 1;
    }
    urls
}

/// The places in `items` of the shapes of the census of `year`, in their order.
pub fn shapes_for_year(items: &[DownloadedItem<ShapeUrlMeta>], year: u32) -> (places: Vec<usize>)
    ensures
        forall|k: int|
            0 <= k < places@.len() ==> (#[trigger] places@[k]) < items@.len()
                && items@[places@[k] as int].metadata.dlservey.year == year,
        forall|k: int, l: int| 0 <= k < l < places@.len() ==> places@[k] < places@[l],
        forall|i: int|
            0 <= i < items@.len() && (#[trigger] items@[i]).metadata.dlservey.year == year
                ==> places@.contains(i as usize),
{
    let mut places: Vec<usize> = Vec::new();
    let mut i: usize = 0;
    while i < items.len()
        invariant
            i <= items.len(),
            forall|k: int|
                0 <= k < places@.len() ==> (#[trigger] places@[k]) < i
                    && items@[places@[k] as int].metadata.dlservey.year == year,
            forall|k: int, l: int| 0 <= k < l < places@.len() ==> places@[k] < places@[l],
            forall|n: int|
                0 <= n < i && (#[trigger] items@[n]).metadata.dlservey.year == year
                    ==> places@.contains(n as usize),
        decreases items.len() - i,
    {
        if items[i].metadata.dlservey.year == year {
            let ghost before = places@;
            places.push(i);
            proof {
                assert(places@[before.len() as int] == i);
                assert forall|n: int|
                    0 <= n < i + 1 && (#[trigger] items@[n]).metadata.dlservey.year
                        == year implies places@.contains(n as usize) by {
                    if n < i {
                        let w = choose|w: int| 0 <= w < before.len() && before[w] == n as usize;
                        assert(places@[w] == n as usize);
                    }
                }
            }
        }
        i = i + 1;
    }
    places
}

/// The spatial reference of the shapes of a datum: 4621 for the datum `2000`,
/// 6668 for any other.
pub fn srid_for_datum(datum: &str) -> (srid: &'static str)
    ensures
        srid@ == if datum@ == "2000"@ {
            "4621"@
        } else {
            "6668"@
        },
{
    if same_text(datum, "2000") {
        "4621"
    } else {
        "6668"
    }
}

/// The name of the table of the shapes of the census of `year`.
pub fn areamap_table_name(year: u32) -> (name: String)
    ensures
        name@ == "jp_estat_areamap_"@ + spec_decimal_text(year as nat),
{
    let mut name = String::new();
    name.append("jp_estat_areamap_");
    push_decimal(&mut name, year as u64);
    assert(name@ =~= "jp_estat_areamap_"@ + spec_decimal_text(year as nat));
    name
}

/// The statement that removes the survey blocks that lie on water, which are
/// those of `hcode` 8154, from the table `table`.
pub fn water_block_cleanup_statement(table: &str) -> (sql: String)
    ensures
        sql@ == "DELETE FROM "@ + table@ + " WHERE hcode = 8154"@,
{
    let mut sql = String::new();
    sql.append("DELETE FROM ");
    sql.append(table);
    sql.append(" WHERE hcode = 8154");
    assert(sql@ =~= "DELETE FROM "@ + table@ + " WHERE hcode = 8154"@);
    sql
}

/// The type of the geometry column of the shapes of a datum.
pub fn geometry_column_type(datum: &str) -> (sql_type: String)
    ensures
        sql_type@ == "geometry(polygon, "@ + (if datum@ == "2000"@ {
            "4621"@
        } else {
            "6668"@
        }) + ")"@,
{
    let mut sql_type = String::new();
    sql_type.append("geometry(polygon, ");
    sql_type.append(srid_for_datum(datum));
    sql_type.append(")");
    assert(sql_type@ =~= "geometry(polygon, "@ + (if datum@ == "2000"@ {
        "4621"@
    } else {
        "6668"@
    }) + ")"@);
    sql_type
}

} // verus!
