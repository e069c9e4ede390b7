use crate::bands::{band_views, text_at, texts, BandView, SelectedBand};
use crate::error::MeshError;
use crate::number::{parse_u64_chars, spec_parse_u64};
use crate::text::{chars_of, spec_trim, trim_bounds};
use crate::values::{parse_stat_value, spec_parse_stat_value};
use vstd::prelude::*;
use vstd::string::*;

verus! {

/// The cell at place `i` of `row`; an empty text where the row is shorter.
pub fn cell_text(row: &[String], i: usize) -> (t: &str)
    ensures
        t@ == text_at(texts(row@), i as int),
{
    if i < row.len() {
        row[i].as_str()
    } else {
        proof {
            reveal_strlit("");
        }
        let t = "";
        assert(t@ =~= Seq::<char>::empty());
        t
    }
}

/// The mesh code in the first cell of a row: none where the cell is blank, else
/// the unsigned number that the trimmed cell writes.
pub open spec fn spec_row_mesh_code(row: Seq<Seq<char>>) -> Result<Option<u64>, MeshError> {
    let t = spec_trim(text_at(row, 0));
    if t.len() == 0 {
        Ok(None)
    } else {
        match spec_parse_u64(t) {
            Some(code) => Ok(Some(code)),
            None => Err(MeshError::MalformedMeshCode),
        }
    }
}

/// Reads the mesh code of a row. A row without one is to be passed over.
pub fn row_mesh_code(row: &[String]) -> (r: Result<Option<u64>, MeshError>)
    ensures
        r == spec_row_mesh_code(texts(row@)),
{
    let chars = chars_of(cell_text(row, 0));
    let (start, end) = trim_bounds(chars.as_slice());
    if start == end {
        return Ok(None);
    }
    match parse_u64_chars(chars.as_slice(), start, end) {
        Some(code) => Ok(Some(code)),
        None => Err(MeshError::MalformedMeshCode),
    }
}

/// The values of a row, one for each band and in the order of the bands, each
/// read from the band's column. The first band whose cell is refused decides
/// the error.
pub open spec fn spec_row_cells(bands: Seq<BandView>, row: Seq<Seq<char>>) -> Result<
    Seq<i32>,
    MeshError,
>
    decreases bands.len(),
{
    if bands.len() == 0 {
        Ok(Seq::<i32>::empty())
    } else {
        match spec_row_cells(bands.drop_last(), row) {
            Err(e) => Err(e),
            Ok(cells) => match spec_parse_stat_value(text_at(row, bands.last().source_idx)) {
                Err(e) => Err(e),
                Ok(v) => Ok(cells.push(v)),
            },
        }
    }
}

/// A refusal among the first bands is the refusal of the row.
pub proof fn lemma_row_cells_error_stays(bands: Seq<BandView>, row: Seq<Seq<char>>, n: int)
    requires
        0 <= n <= bands.len(),
        spec_row_cells(bands.take(n), row) is Err,
    ensures
        spec_row_cells(bands, row) == spec_row_cells(bands.take(n), row),
    decreases bands.len() - n,
{
    if n < bands.len() {
        assert(bands.take(n + 1).drop_last() =~= bands.take(n));
        lemma_row_cells_error_stays(bands, row, n + 1);
    } else {
        assert(bands.take(n) =~= bands);
    }
}

/// A row that is read gives one value for each band.
pub proof fn lemma_row_cells_len(bands: Seq<BandView>, row: Seq<Seq<char>>)
    ensures
        spec_row_cells(bands, row) matches Ok(cells) ==> cells.len() == bands.len(),
    decreases bands.len(),
{
    if bands.len() > 0 {
        lemma_row_cells_len(bands.drop_last(), row);
    }
}

/// Reads the values of a row for the selected bands.
pub fn read_row_cells(bands: &[SelectedBand], row: &[String]) -> (r: Result<Vec<i32>, MeshError>)
    ensures
        match r {
            Ok(cells) => spec_row_cells(band_views(bands@), texts(row@)) == Ok::<Seq<i32>, MeshError>(
                cells@,
            ) && cells@.len() == bands@.len(),
            Err(e) => spec_row_cells(band_views(bands@), texts(row@)) == Err::<Seq<i32>, MeshError>(e),
        },
{
    let ghost views = band_views(bands@);
    let mut cells: Vec<i32> = Vec::new();
    let mut i: usize = 0;
    while i < bands.len()
        invariant
            i <= bands.len(),
            views == band_views(bands@),
            cells@.len() == i,
            spec_row_cells(views.take(i as int), texts(row@)) == Ok::<Seq<i32>, MeshError>(cells@),
        decreases bands.len() - i,
    {
        proof {
            assert(views.take(i + 1).drop_last() =~= views.take(i as int));
            assert(views.take(i + 1).last() == bands@[i as int]@);
        }
        let value = match parse_stat_value(cell_text(row, bands[i].source_idx)) {
            Ok(v) => v,
            Err(e) => {
                proof {
                    assert(spec_row_cells(views.take(i + 1), texts(row@)) == Err::<Seq<i32>, MeshError>(e));
                    lemma_row_cells_error_stays(views, texts(row@), i + 1);
                }
                return Err(e);
            },
        };
        cells.push(value);
        i = i + 1;
    }
    proof {
        assert(views.take(bands.len() as int) =~= views);
    }
    Ok(cells)
}

/// The place among `bands` of the first band whose cell in `row` is refused;
/// none where every cell is read.
pub open spec fn spec_first_refused(bands: Seq<BandView>, row: Seq<Seq<char>>) -> Option<int>
    decreases bands.len(),
{
    if bands.len() == 0 {
        None
    } else {
        match spec_first_refused(bands.drop_last(), row) {
            Some(k) => Some(k),
            None => if spec_parse_stat_value(text_at(row, bands.last().source_idx)) is Err {
                Some(bands.len() - 1)
            } else {
                None
            },
        }
    }
}

/// A row is refused exactly when one of its cells is, and then with the error
/// of the first band whose cell is refused; every band before it is read.
pub proof fn lemma_first_refused(bands: Seq<BandView>, row: Seq<Seq<char>>)
    ensures
        match spec_first_refused(bands, row) {
            Some(k) => 0 <= k < bands.len() && spec_row_cells(bands, row) is Err
                && spec_parse_stat_value(text_at(row, bands[k].source_idx)) == Err::<
                i32,
                MeshError,
            >(spec_row_cells(bands, row)->Err_0) && forall|j: int|
                0 <= j < k ==> spec_parse_stat_value(
                    text_at(row, (#[trigger] bands[j]).source_idx),
                ) is Ok,
            None => spec_row_cells(bands, row) is Ok && forall|j: int|
                0 <= j < bands.len() ==> spec_parse_stat_value(
                    text_at(row, (#[trigger] bands[j]).source_idx),
                ) is Ok,
        },
    decreases bands.len(),
{
    if bands.len() > 0 {
        let front = bands.drop_last();
        lemma_first_refused(front, row);
        match spec_first_refused(front, row) {
            Some(k) => {
                assert(front[k] == bands[k]);
                assert forall|j: int| 0 <= j < k implies spec_parse_stat_value(
                    text_at(row, (#[trigger] bands[j]).source_idx),
                ) is Ok by {
                    assert(front[j] == bands[j]);
                }
            },
            None => {
                assert forall|j: int| 0 <= j < bands.len() - 1 implies spec_parse_stat_value(
                    text_at(row, (#[trigger] bands[j]).source_idx),
                ) is Ok by {
                    assert(front[j] == bands[j]);
                }
            },
        }
    }
}

/// A refusal among the first bands is the first refusal of the row.
pub proof fn lemma_first_refused_stays(bands: Seq<BandView>, row: Seq<Seq<char>>, n: int)
    requires
        0 <= n <= bands.len(),
        spec_first_refused(bands.take(n), row) is Some,
    ensures
        spec_first_refused(bands, row) == spec_first_refused(bands.take(n), row),
    decreases bands.len() - n,
{
    if n < bands.len() {
        assert(bands.take(n + 1).drop_last() =~= bands.take(n));
        lemma_first_refused_stays(bands, row, n + 1);
    } else {
        assert(bands.take(n) =~= bands);
    }
}

/// The place among `bands` of the first band whose cell in `row` is refused, so
/// that a refused row can be told by its column.
pub fn first_refused_band(bands: &[SelectedBand], row: &[String]) -> (place: Option<usize>)
    ensures
        match place {
            Some(k) => k < bands@.len() && spec_first_refused(band_views(bands@), texts(row@)) == Some(
                k as int,
            ),
            None => spec_first_refused(band_views(bands@), texts(row@)) is None,
        },
{
    let ghost views = band_views(bands@);
    let mut i: usize = 0;
    while i < bands.len()
        invariant
            i <= bands.len(),
            views == band_views(bands@),
            spec_first_refused(views.take(i as int), texts(row@)) is None,
        decreases bands.len() - i,
    {
        proof {
            assert(views.take(i + 1).drop_last() =~= views.take(i as int));
            assert(views.take(i + 1).last() == bands@[i as int]@);
        }
        if parse_stat_value(cell_text(row, bands[i].source_idx)).is_err() {
            proof {
                assert(spec_first_refused(views.take(i + 1), texts(row@)) == Some(i as int));
                lemma_first_refused_stays(views, texts(row@), i + 1);
            }
            return Some(i);
        }
        i = i + 1;
    }
    proof {
        assert(views.take(bands.len() as int) =~= views);
    }
    None
}

} // verus!
