use crate::error::{Failure, MeshError};
use crate::text::{is_blank, spec_trim, spec_without_char, trim, without_char};
use vstd::prelude::*;
use vstd::string::*;

verus! {

/// Number of leading columns that identify a row; the statistics start after them.
pub const DATA_COLUMN_START: usize = 4;

/// The full-width space, which column names are cleared of.
pub const FULL_WIDTH_SPACE: char = '\u{3000}';

/// A statistical column chosen as a band of the tiles.
#[derive(Debug, Clone, PartialEq, Eq)]
pub struct SelectedBand {
    /// The place of the column in a row of the source file, counted from 0.
    pub source_idx: usize,
    /// The column's normalized name.
    pub name: String,
}

/// A band as contracts speak of it.
pub struct BandView {
    pub source_idx: int,
    pub name: Seq<char>,
}

impl View for SelectedBand {
    type V = BandView;

    open spec fn view(&self) -> BandView {
        BandView { source_idx: self.source_idx as int, name: self.name@ }
    }
}

/// The bands of `bands`, each by its view.
pub open spec fn band_views(bands: Seq<SelectedBand>) -> Seq<BandView> {
    Seq::new(bands.len(), |i: int| bands[i]@)
}

/// The texts of `names`.
pub open spec fn texts(names: Seq<String>) -> Seq<Seq<char>> {
    Seq::new(names.len(), |i: int| names[i]@)
}

/// The name of a column whose first header row holds `code` and whose second
/// holds `label`: the label unless it is blank, else the code; as it stands,
/// but for the full-width spaces, which are taken out.
pub open spec fn spec_normalized_name(code: Seq<char>, label: Seq<char>) -> Seq<char> {
    let column = if spec_trim(label).len() == 0 {
        code
    } else {
        label
    };
    spec_without_char(column, FULL_WIDTH_SPACE)
}

/// The text at place `i` of `row`; nothing where the row is shorter.
pub open spec fn text_at(row: Seq<Seq<char>>, i: int) -> Seq<char> {
    if 0 <= i < row.len() {
        row[i]
    } else {
        Seq::<char>::empty()
    }
}

/// The column names that two stacked header rows give: one for each column of
/// the second row.
pub open spec fn spec_normalize_headers(
    code_row: Seq<Seq<char>>,
    label_row: Seq<Seq<char>>,
) -> Seq<Seq<char>> {
    Seq::new(label_row.len(), |i: int| spec_normalized_name(text_at(code_row, i), label_row[i]))
}

/// The column names that two stacked header rows give.
pub fn normalize_headers(header1: &[String], header2: &[String]) -> (names: Vec<String>)
    ensures
        texts(names@) == spec_normalize_headers(texts(header1@), texts(header2@)),
{
    let mut names: Vec<String> = Vec::new();
    let mut i: usize = 0;
    while i < header2.len()
        invariant
            i <= header2.len(),
            names.len() == i,
            forall|k: int|
                0 <= k < i ==> (#[trigger] names@[k])@ == spec_normalized_name(
                    text_at(texts(header1@), k),
                    header2@[k]@,
                ),
        decreases header2.len() - i,
    {
        let label = header2[i].as_str();
        let empty = String::new();
        let column: &str = if is_blank(label) {
            if i < header1.len() {
                header1[i].as_str()
            } else {
                empty.as_str()
            }
        } else {
            label
        };
        let name = without_char(column, FULL_WIDTH_SPACE);
        names.push(name);
        i = i + 1;
    }
    proof {
        assert(texts(names@) =~= spec_normalize_headers(texts(header1@), texts(header2@)));
    }
    names
}

/// What `build_available_bands` returns for a first header row of `code_count`
/// columns and the column names `names`: every column from `DATA_COLUMN_START`
/// on becomes a band, in the order of the file.
pub open spec fn spec_available_bands(code_count: int, names: Seq<Seq<char>>) -> Result<
    Seq<BandView>,
    Failure,
> {
    if code_count != names.len() {
        Err(Failure::HeaderColumnCountMismatch)
    } else if code_count <= DATA_COLUMN_START {
        Err(Failure::NoStatColumns)
    } else {
        Ok(
            Seq::new(
                (names.len() - DATA_COLUMN_START) as nat,
                |k: int|
                    BandView { source_idx: DATA_COLUMN_START + k, name: names[DATA_COLUMN_START + k] },
            ),
        )
    }
}

/// The result of a function that gives bands, as contracts speak of it.
pub open spec fn resolved_view(r: Result<Vec<SelectedBand>, MeshError>) -> Result<
    Seq<BandView>,
    Failure,
> {
    match r {
        Ok(bands) => Ok(band_views(bands@)),
        Err(e) => Err(e@),
    }
}

/// The bands that a file offers: its statistical columns, in their order.
pub fn build_available_bands(header_codes: &[String], normalized_header: &[String]) -> (r: Result<
    Vec<SelectedBand>,
    MeshError,
>)
    ensures
        resolved_view(r) == spec_available_bands(
            header_codes@.len() as int,
            texts(normalized_header@),
        ),
{
    if header_codes.len() != normalized_header.len() {
        return Err(MeshError::HeaderColumnCountMismatch);
    }
    if header_codes.len() <= DATA_COLUMN_START {
        return Err(MeshError::NoStatColumns);
    }
    let mut bands: Vec<SelectedBand> = Vec::new();
    let mut source_idx: usize = DATA_COLUMN_START;
    while source_idx < normalized_header.len()
        invariant
            DATA_COLUMN_START <= source_idx <= normalized_header.len(),
            bands.len() == source_idx - DATA_COLUMN_START,
            forall|k: int|
                0 <= k < bands.len() ==> (#[trigger] bands@[k])@ == (BandView {
                    source_idx: DATA_COLUMN_START + k,
                    name: normalized_header@[DATA_COLUMN_START + k]@,
                }),
        decreases normalized_header.len() - source_idx,
    {
        bands.push(SelectedBand { source_idx, name: normalized_header[source_idx].clone() });
        source_idx = source_idx + 1;
    }
    proof {
        assert(band_views(bands@) =~= spec_available_bands(
            header_codes@.len() as int,
            texts(normalized_header@),
        )->Ok_0);
    }
    Ok(bands)
}

/// The place at or after `from` of the first band of `available` named `key`.
pub open spec fn spec_find_band(available: Seq<BandView>, key: Seq<char>, from: int) -> Option<int>
    decreases available.len() - from,
{
    if from >= available.len() {
        None
    } else if available[from].name == key {
        Some(from)
    } else {
        spec_find_band(available, key, from + 1)
    }
}

/// Whether one of `selected` is the column `source_idx`.
pub open spec fn uses_column(selected: Seq<BandView>, source_idx: int) -> bool {
    exists|j: int| 0 <= j < selected.len() && (#[trigger] selected[j]).source_idx == source_idx
}

/// The bands that the names of `requested` select, one for each name and in the
/// order of the names: each name is trimmed and stands for the first available
/// band of that name. The first name that is blank, matches no band, or selects
/// a column again decides the fault.
pub open spec fn spec_select(available: Seq<BandView>, requested: Seq<Seq<char>>) -> Result<
    Seq<BandView>,
    Failure,
>
    decreases requested.len(),
{
    if requested.len() == 0 {
        Ok(Seq::<BandView>::empty())
    } else {
        match spec_select(available, requested.drop_last()) {
            Err(fault) => Err(fault),
            Ok(selected) => {
                let key = spec_trim(requested.last());
                if key.len() == 0 {
                    Err(Failure::BlankBandName)
                } else {
                    match spec_find_band(available, key, 0) {
                        None => Err(Failure::UnknownBand(key)),
                        Some(k) => if uses_column(selected, available[k].source_idx) {
                            Err(Failure::DuplicateBand(key))
                        } else {
                            Ok(selected.push(available[k]))
                        },
                    }
                }
            },
        }
    }
}

/// The bands to write: all of `available`, in its order, where nothing is
/// requested; `EmptyBandList` for a request without names; else what
/// `spec_select` gives.
pub open spec fn spec_resolve(available: Seq<BandView>, requested: Option<Seq<Seq<char>>>) -> Result<
    Seq<BandView>,
    Failure,
> {
    match requested {
        None => Ok(available),
        Some(names) => if names.len() == 0 {
            Err(Failure::EmptyBandList)
        } else {
            spec_select(available, names)
        },
    }
}

/// The texts that a request holds, if there is one.
pub open spec fn request_texts(requested: Option<&[String]>) -> Option<Seq<Seq<char>>> {
    match requested {
        None => None,
        Some(names) => Some(texts(names@)),
    }
}

/// The first band of `available` named `key`, by its place.
fn find_band(available: &[SelectedBand], key: &String) -> (found: Option<usize>)
    ensures
        match found {
            Some(k) => spec_find_band(band_views(available@), key@, 0) == Some(k as int) && k
                < available.len(),
            None => spec_find_band(band_views(available@), key@, 0) is None,
        },
{
    let mut k: usize = 0;
    while k < available.len()
        invariant
            k <= available.len(),
            spec_find_band(band_views(available@), key@, 0) == spec_find_band(
                band_views(available@),
                key@,
                k as int,
            ),
        decreases available.len() - k,
    {
        if available[k].name == *key {
            return Some(k);
        }
        k = k + 1;
    }
    None
}

/// Whether one of `selected` is the column `source_idx`.
fn column_is_used(selected: &Vec<SelectedBand>, source_idx: usize) -> (used: bool)
    ensures
        used == uses_column(band_views(selected@), source_idx as int),
{
    let mut j: usize = 0;
    while j < selected.len()
        invariant
            j <= selected.len(),
            forall|i: int| 0 <= i < j ==> (#[trigger] band_views(selected@)[i]).source_idx != source_idx,
        decreases selected.len() - j,
    {
        if selected[j].source_idx == source_idx {
            assert(band_views(selected@)[j as int].source_idx == source_idx);
            return true;
        }
        j = j + 1;
    }
    false
}

/// A copy of `bands`.
fn copy_bands(bands: &[SelectedBand]) -> (out: Vec<SelectedBand>)
    ensures
        band_views(out@) == band_views(bands@),
{
    let mut out: Vec<SelectedBand> = Vec::new();
    let mut i: usize = 0;
    while i < bands.len()
        invariant
            i <= bands.len(),
            out.len() == i,
            forall|k: int| 0 <= k < i ==> (#[trigger] out@[k])@ == bands@[k]@,
        decreases bands.len() - i,
    {
        out.push(SelectedBand { source_idx: bands[i].source_idx, name: bands[i].name.clone() });
        i = i + 1;
    }
    proof {
        assert(band_views(out@) =~= band_views(bands@));
    }
    out
}

/// The bands to write: all that are available, in the order of the file, where
/// nothing is requested; else those that the requested names select, in the
/// order of the request.
pub fn resolve_selected_bands(
    available_bands: &[SelectedBand],
    requested_bands: Option<&[String]>,
) -> (r: Result<Vec<SelectedBand>, MeshError>)
    ensures
        resolved_view(r) == spec_resolve(
            band_views(available_bands@),
            request_texts(requested_bands),
        ),
{
    let requested = match requested_bands {
        Some(names) => names,
        None => {
            return Ok(copy_bands(available_bands));
        },
    };
    if requested.len() == 0 {
        return Err(MeshError::EmptyBandList);
    }
    let ghost available = band_views(available_bands@);
    let ghost names = texts(requested@);
    let mut selected: Vec<SelectedBand> = Vec::new();
    let mut i: usize = 0;
    proof {
        assert(band_views(selected@) =~= Seq::<BandView>::empty());
    }
    while i < requested.len()
        invariant
            i <= requested.len(),
            requested.len() > 0,
            available == band_views(available_bands@),
            names == texts(requested@),
            request_texts(requested_bands) == Some(names),
            spec_select(available, names.take(i as int)) == Ok::<Seq<BandView>, Failure>(
                band_views(selected@),
            ),
        decreases requested.len() - i,
    {
        proof {
            assert(names.take(i + 1).drop_last() =~= names.take(i as int));
            assert(names.take(i + 1).last() == requested@[i as int]@);
        }
        let key = trim(requested[i].as_str()).to_owned();
        if key.as_str().unicode_len() == 0 {
            proof {
                assert(spec_select(available, names.take(i + 1)) == Err::<
                    Seq<BandView>,
                    Failure,
                >(Failure::BlankBandName));
                lemma_select_fault_stays(available, names, i + 1);
            }
            return Err(MeshError::BlankBandName);
        }
        let k = match find_band(available_bands, &key) {
            Some(k) => k,
            None => {
                proof {
                    assert(spec_select(available, names.take(i + 1)) == Err::<
                        Seq<BandView>,
                        Failure,
                    >(Failure::UnknownBand(key@)));
                    lemma_select_fault_stays(available, names, i + 1);
                }
                return Err(MeshError::UnknownBand(key));
            },
        };
        if column_is_used(&selected, available_bands[k].source_idx) {
            proof {
                assert(spec_select(available, names.take(i + 1)) == Err::<
                    Seq<BandView>,
                    Failure,
                >(Failure::DuplicateBand(key@)));
                lemma_select_fault_stays(available, names, i + 1);
            }
            return Err(MeshError::DuplicateBand(key));
        }
        let ghost before = band_views(selected@);
        selected.push(
            SelectedBand {
                source_idx: available_bands[k].source_idx,
                name: available_bands[k].name.clone(),
            },
        );
        proof {
            assert(band_views(selected@) =~= before.push(available[k as int]));
        }
        i = i + 1;
    }
    proof {
        assert(names.take(requested.len() as int) =~= names);
    }
    Ok(selected)
}

/// A fault among the first names is the fault of the whole request.
pub proof fn lemma_select_fault_stays(available: Seq<BandView>, names: Seq<Seq<char>>, n: int)
    requires
        0 <= n <= names.len(),
        spec_select(available, names.take(n)) is Err,
    ensures
        spec_select(available, names) == spec_select(available, names.take(n)),
    decreases names.len() - n,
{
    if n < names.len() {
        assert(names.take(n + 1).drop_last() =~= names.take(n));
        lemma_select_fault_stays(available, names, n + 1);
    } else {
        assert(names.take(n) =~= names);
    }
}

/// What `spec_find_band` finds is a band of that name, and the first of them.
pub proof fn lemma_find_band(available: Seq<BandView>, key: Seq<char>, from: int)
    requires
        0 <= from,
    ensures
        match spec_find_band(available, key, from) {
            Some(k) => from <= k < available.len() && available[k].name == key && forall|j: int|
                from <= j < k ==> (#[trigger] available[j]).name != key,
            None => forall|j: int|
                from <= j < available.len() ==> (#[trigger] available[j]).name != key,
        },
    decreases available.len() - from,
{
    if from < available.len() && available[from].name != key {
        lemma_find_band(available, key, from + 1);
    }
}

/// Whether `band` is the first band of `available` named `key`.
pub open spec fn is_band_named(available: Seq<BandView>, band: BandView, key: Seq<char>) -> bool {
    match spec_find_band(available, key, 0) {
        Some(k) => 0 <= k < available.len() && band == available[k] && band.name == key,
        None => false,
    }
}

/// The selected bands follow the request, not the file: there is one band for
/// each requested name, at the name's place; it is the first available band of
/// that name, trimmed; and no column is selected twice.
pub proof fn lemma_selected_follow_request(available: Seq<BandView>, names: Seq<Seq<char>>)
    requires
        spec_select(available, names) is Ok,
    ensures
        ({
            let selected = spec_select(available, names)->Ok_0;
            &&& selected.len() == names.len()
            &&& forall|i: int|
                0 <= i < names.len() ==> is_band_named(
                    available,
                    #[trigger] selected[i],
                    spec_trim(names[i]),
                )
            &&& forall|i: int, j: int|
                0 <= i < j < selected.len() ==> (#[trigger] selected[i]).source_idx
                    != (#[trigger] selected[j]).source_idx
        }),
    decreases names.len(),
{
    if names.len() > 0 {
        let front = names.drop_last();
        lemma_selected_follow_request(available, front);
        let before = spec_select(available, front)->Ok_0;
        let selected = spec_select(available, names)->Ok_0;
        let key = spec_trim(names.last());
        lemma_find_band(available, key, 0);
        let k = spec_find_band(available, key, 0)->Some_0;
        assert(selected == before.push(available[k]));
        assert forall|i: int| 0 <= i < names.len() implies is_band_named(
            available,
            #[trigger] selected[i],
            spec_trim(names[i]),
        ) by {
            if i < names.len() - 1 {
                assert(front[i] == names[i]);
                assert(selected[i] == before[i]);
            }
        }
        assert forall|i: int, j: int| 0 <= i < j < selected.len() implies (
        #[trigger] selected[i]).source_idx != (#[trigger] selected[j]).source_idx by {
            assert(selected[i] == before[i]);
            if j < selected.len() - 1 {
                assert(selected[j] == before[j]);
            } else {
                assert(!uses_column(before, available[k].source_idx));
                assert(selected[j] == available[k]);
                assert(before[i].source_idx != available[k].source_idx);
            }
        }
    }
}

} // verus!
