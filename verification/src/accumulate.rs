use crate::bands::{
    band_views, build_available_bands, normalize_headers, request_texts, resolve_selected_bands,
    spec_available_bands, spec_normalize_headers, spec_resolve, texts, BandView, SelectedBand,
    DATA_COLUMN_START,
};
use crate::classifier::validate_mesh_code_level;
use crate::error::{Failure, MeshError};
use crate::grid::{
    map_meshcode_to_tile, spec_map_meshcode_to_tile, spec_subdivisions, subdivisions_per_axis,
    supported_level,
};
use crate::rows::{read_row_cells, row_mesh_code, spec_row_cells, spec_row_mesh_code};
use crate::tiles::{blank_values, overlay, tile_map, TileBuffer, TileStore};
use vstd::prelude::*;

verus! {

/// Largest number of bands that a tile can carry.
pub const MAX_BANDS: usize = 255;

/// The levels of a run and the size of its tiles.
#[derive(Debug, Clone, Copy, PartialEq, Eq)]
pub struct TilePlan {
    /// The level of the mesh codes in the data.
    pub data_level: u8,
    /// The level of the cells that become tiles.
    pub tile_level: u8,
    /// Number of data cells along one axis of a tile.
    pub rows_per_axis: usize,
}

/// The plan for data of `level` cut into tiles of `tile_level`, which is `level`
/// itself where none is given: the tile level must not be finer than the data
/// level, and both must be standard levels.
pub open spec fn spec_plan_tiles(level: u8, tile_level: Option<u8>) -> Result<TilePlan, MeshError> {
    let tile = match tile_level {
        Some(t) => t,
        None => level,
    };
    if tile > level {
        Err(MeshError::InvalidLevelOrdering { tile_level: tile, data_level: level })
    } else if !supported_level(level as int) {
        Err(MeshError::UnsupportedLevel(level))
    } else if !supported_level(tile as int) {
        Err(MeshError::UnsupportedLevel(tile))
    } else {
        Ok(
            TilePlan {
                data_level: level,
                tile_level: tile,
                rows_per_axis: spec_subdivisions(tile as int, level as int) as usize,
            },
        )
    }
}

/// The plan of a run for data of `level` cut into tiles of `tile_level`.
pub fn plan_tiles(level: u8, tile_level: Option<u8>) -> (r: Result<TilePlan, MeshError>)
    ensures
        r == spec_plan_tiles(level, tile_level),
{
    let tile = match tile_level {
        Some(t) => t,
        None => level,
    };
    if tile > level {
        return Err(MeshError::InvalidLevelOrdering { tile_level: tile, data_level: level });
    }
    if level < 1 || level > 6 {
        return Err(MeshError::UnsupportedLevel(level));
    }
    if tile < 1 {
        return Err(MeshError::UnsupportedLevel(tile));
    }
    proof {
        crate::grid::lemma_subdivisions_bound(tile as int, level as int);
        lemma_standard_levels_refinable(tile as int + 1, level as int);
    }
    match subdivisions_per_axis(tile, level) {
        Ok(rows_per_axis) => Ok(TilePlan { data_level: level, tile_level: tile, rows_per_axis }),
        Err(e) => Err(e),
    }
}

/// Every level from 2 to 6 has a refinement factor.
pub proof fn lemma_standard_levels_refinable(from: int, upto: int)
    requires
        2 <= from,
        upto <= 6,
    ensures
        crate::grid::first_unrefinable(from, upto) is None,
    decreases upto - from + 1,
{
    if from <= upto {
        lemma_standard_levels_refinable(from + 1, upto);
    }
}

/// What a row with a mesh code does to the tiles: the tile it falls into, the
/// place of its first value in that tile, and its values.
pub struct RowUpdate {
    pub tile_code: u64,
    pub base: int,
    pub cells: Seq<i32>,
}

/// The update that a row of mesh code `mesh_code` makes: the code is mapped to
/// its tile and cell, then the values are read. The cell at row `r` from the
/// top and column `c` starts at place `(r * rows_per_axis + c) * bands`.
pub open spec fn spec_row_update(
    plan: TilePlan,
    bands: Seq<BandView>,
    mesh_code: u64,
    row: Seq<Seq<char>>,
) -> Result<RowUpdate, MeshError> {
    match spec_map_meshcode_to_tile(mesh_code, plan.data_level, plan.tile_level, plan.rows_per_axis) {
        Err(e) => Err(e),
        Ok(address) => match spec_row_cells(bands, row) {
            Err(e) => Err(e),
            Ok(cells) => Ok(
                RowUpdate {
                    tile_code: address.0,
                    base: (address.1 * plan.rows_per_axis + address.2) * bands.len(),
                    cells,
                },
            ),
        },
    }
}

/// The tiles after `update`: the values of the row stand at the row's cell of
/// its tile, whatever stood there before; where the tile was not held, it is
/// made of `size` values without data first.
pub open spec fn spec_apply(tiles: Map<u64, Seq<i32>>, size: nat, update: RowUpdate) -> Map<
    u64,
    Seq<i32>,
> {
    tiles.insert(
        update.tile_code,
        overlay(
            if tiles.dom().contains(update.tile_code) {
                tiles[update.tile_code]
            } else {
                blank_values(size)
            },
            update.base,
            update.cells,
        ),
    )
}

/// The place of a cell lies inside the tile, and so do all its bands.
pub proof fn lemma_cell_fits(row: int, col: int, rows: int, bands: int)
    requires
        0 <= row < rows,
        0 <= col < rows,
        0 <= bands,
    ensures
        0 <= row * rows <= rows * rows,
        0 <= row * rows + col < rows * rows,
        0 <= (row * rows + col) * bands,
        (row * rows + col) * bands + bands <= rows * rows * bands,
{
    assert(0 <= row * rows <= rows * rows - rows) by (nonlinear_arith)
        requires
            0 <= row < rows,
    ;
    let place = row * rows + col;
    assert(0 <= place * bands && (place + 1) * bands <= rows * rows * bands) by (nonlinear_arith)
        requires
            0 <= place < rows * rows,
            0 <= bands,
    ;
    assert((place + 1) * bands == place * bands + bands) by (nonlinear_arith);
}

/// What the first file fixes, from the number of columns of its first header
/// row and from its column names: the bands, and the number of values of a tile.
pub open spec fn spec_first_file(
    requested: Option<Seq<Seq<char>>>,
    rows_per_axis: int,
    code_count: int,
    names: Seq<Seq<char>>,
) -> Result<(Seq<BandView>, int), Failure> {
    match spec_available_bands(code_count, names) {
        Err(f) => Err(f),
        Ok(available) => match spec_resolve(available, requested) {
            Err(f) => Err(f),
            Ok(selected) => if selected.len() > MAX_BANDS {
                Err(Failure::TooManyBands)
            } else if rows_per_axis * rows_per_axis * selected.len() > usize::MAX {
                Err(Failure::TileSizeOverflow)
            } else {
                Ok((selected, rows_per_axis * rows_per_axis * selected.len()))
            },
        },
    }
}

/// Whether two lists hold the same texts.
pub fn same_texts(a: &Vec<String>, b: &Vec<String>) -> (same: bool)
    ensures
        same == (texts(a@) == texts(b@)),
{
    if a.len() != b.len() {
        assert(texts(a@).len() != texts(b@).len());
        return false;
    }
    let mut i: usize = 0;
    while i < a.len()
        invariant
            i <= a.len() == b.len(),
            forall|k: int| 0 <= k < i ==> (#[trigger] a@[k])@ == b@[k]@,
        decreases a.len() - i,
    {
        if a[i] != b[i] {
            assert(texts(a@)[i as int] != texts(b@)[i as int]);
            return false;
        }
        i = i + 1;
    }
    assert(texts(a@) =~= texts(b@));
    true
}

/// Where bands are resolved, there is at least one.
pub proof fn lemma_resolved_not_empty(available: Seq<BandView>, requested: Option<Seq<Seq<char>>>)
    requires
        available.len() > 0,
        spec_resolve(available, requested) is Ok,
    ensures
        spec_resolve(available, requested)->Ok_0.len() > 0,
{
    if let Some(names) = requested {
        crate::bands::lemma_selected_follow_request(available, names);
    }
}

/// A row that is stored stands in the tile whose code its mesh code begins
/// with: the tile is held afterwards, the row's values stand at the row's cell,
/// every other value of the tile is what it was, and no other tile is touched.
pub proof fn lemma_row_lands_in_its_tile(
    plan: TilePlan,
    bands: Seq<BandView>,
    mesh_code: u64,
    row: Seq<Seq<char>>,
    tiles: Map<u64, Seq<i32>>,
    size: nat,
)
    requires
        spec_row_update(plan, bands, mesh_code, row) is Ok,
        size == plan.rows_per_axis * plan.rows_per_axis * bands.len(),
        forall|code: u64| #[trigger] tiles.dom().contains(code) ==> tiles[code].len() == size,
    ensures
        ({
            let update = spec_row_update(plan, bands, mesh_code, row)->Ok_0;
            let after = spec_apply(tiles, size, update);
            let lead = crate::decimal::spec_decimal_digits(mesh_code as nat).take(
                crate::grid::spec_digits_for_level(plan.tile_level as int)->Some_0,
            );
            &&& update.tile_code == crate::decimal::spec_digits_value(lead)
            &&& after.dom() == tiles.dom().insert(update.tile_code)
            &&& after[update.tile_code].len() == size
            &&& update.cells.len() == bands.len()
            &&& 0 <= update.base && update.base + bands.len() <= size
            &&& forall|k: int|
                0 <= k < bands.len() ==> after[update.tile_code][update.base + k] == update.cells[k]
            &&& forall|i: int|
                0 <= i < size && !(update.base <= i < update.base + bands.len())
                    ==> after[update.tile_code][i] == if tiles.dom().contains(update.tile_code) {
                    tiles[update.tile_code][i]
                } else {
                    crate::values::NO_DATA_I32
                }
            &&& forall|code: u64|
                code != update.tile_code && tiles.dom().contains(code) ==> after[code]
                    == tiles[code]
        }),
{
    let update = spec_row_update(plan, bands, mesh_code, row)->Ok_0;
    let address = spec_map_meshcode_to_tile(
        mesh_code,
        plan.data_level,
        plan.tile_level,
        plan.rows_per_axis,
    )->Ok_0;
    crate::grid::lemma_mapped_address(
        mesh_code,
        plan.data_level,
        plan.tile_level,
        plan.rows_per_axis,
    );
    crate::rows::lemma_row_cells_len(bands, row);
    lemma_cell_fits(
        address.1 as int,
        address.2 as int,
        plan.rows_per_axis as int,
        bands.len() as int,
    );
    let after = spec_apply(tiles, size, update);
    assert(after.dom() =~= tiles.dom().insert(update.tile_code));
}

/// Rows of different cells can be stored in either order: where two updates go
/// to different tiles, or to places of one tile that do not overlap, the tiles
/// are the same whichever is applied first. So what the tiles hold does not
/// depend on the order in which such rows arrive.
pub proof fn lemma_updates_commute(
    tiles: Map<u64, Seq<i32>>,
    size: nat,
    first: RowUpdate,
    second: RowUpdate,
)
    requires
        forall|code: u64| #[trigger] tiles.dom().contains(code) ==> tiles[code].len() == size,
        first.tile_code != second.tile_code || first.base + first.cells.len() <= second.base
            || second.base + second.cells.len() <= first.base,
    ensures
        spec_apply(spec_apply(tiles, size, first), size, second) == spec_apply(
            spec_apply(tiles, size, second),
            size,
            first,
        ),
{
    let one = spec_apply(spec_apply(tiles, size, first), size, second);
    let other = spec_apply(spec_apply(tiles, size, second), size, first);
    assert(one.dom() =~= other.dom());
    assert forall|code: u64| one.dom().contains(code) implies one[code] == other[code] by {
        if first.tile_code == second.tile_code && code == first.tile_code {
            assert(one[code] =~= other[code]);
        }
    }
    assert(one =~= other);
}

/// The state of a run as contracts speak of it.
pub struct RunState {
    /// The levels and the tile size.
    pub plan: TilePlan,
    /// The band names asked for, if any were.
    pub requested: Option<Seq<Seq<char>>>,
    /// The column names of the first file, once a file was begun.
    pub header: Option<Seq<Seq<char>>>,
    /// The bands, fixed by the first file.
    pub bands: Seq<BandView>,
    /// Number of values of one tile.
    pub tile_value_count: nat,
    /// Whether a mesh code of the file at hand went by the classifier.
    pub level_checked: bool,
    /// The values of each tile that is held, by the tile's code.
    pub tiles: Map<u64, Seq<i32>>,
}

impl RunState {
    /// Whether the parts of the state fit together: the tiles are of one size;
    /// once a header is known, that size is the square of the cells along an
    /// axis times the number of bands, of which there are between 1 and 255;
    /// before, there are no tiles.
    pub open spec fn consistent(self) -> bool {
        &&& forall|code: u64| #[trigger]
            self.tiles.dom().contains(code) ==> self.tiles[code].len() == self.tile_value_count
        &&& self.header is Some ==> 1 <= self.bands.len() <= MAX_BANDS && self.tile_value_count
            == self.plan.rows_per_axis * self.plan.rows_per_axis * self.bands.len()
        &&& self.header is None ==> self.tiles == Map::<u64, Seq<i32>>::empty()
    }

    /// What beginning a file with the header rows `header1` and `header2` makes
    /// of the state. A header of no more columns than the identity columns is
    /// refused. The first file fixes the column names, the bands and the tile
    /// size, and is answered with `true`; a later file must have the same column
    /// names, and is answered with `false`. Either way the classifier is to see
    /// the file's first mesh code.
    pub open spec fn begin_file(self, header1: Seq<Seq<char>>, header2: Seq<Seq<char>>) -> Result<
        (RunState, bool),
        Failure,
    > {
        let names = spec_normalize_headers(header1, header2);
        if names.len() <= DATA_COLUMN_START {
            Err(Failure::TooFewColumns)
        } else {
            match self.header {
                Some(expected) => if expected == names {
                    Ok((RunState { level_checked: false, ..self }, false))
                } else {
                    Err(Failure::HeaderMismatch)
                },
                None => match spec_first_file(
                    self.requested,
                    self.plan.rows_per_axis as int,
                    header1.len() as int,
                    names,
                ) {
                    Err(f) => Err(f),
                    Ok(fixed) => Ok(
                        (
                            RunState {
                                header: Some(names),
                                bands: fixed.0,
                                tile_value_count: fixed.1 as nat,
                                level_checked: false,
                                ..self
                            },
                            true,
                        ),
                    ),
                },
            }
        }
    }

    /// What storing the row `row` of mesh code `mesh_code` makes of the state:
    /// the row's values stand in the tile that the code falls into.
    pub open spec fn store_row(self, mesh_code: u64, row: Seq<Seq<char>>) -> Result<
        RunState,
        MeshError,
    > {
        if self.header is None {
            Err(MeshError::NoHeader)
        } else {
            match spec_row_update(self.plan, self.bands, mesh_code, row) {
                Err(e) => Err(e),
                Ok(update) => Ok(
                    RunState { tiles: spec_apply(self.tiles, self.tile_value_count, update), ..self },
                ),
            }
        }
    }

    /// What taking the row `row` makes of the state, where the classifier
    /// confirms the level of the row's mesh code: a row whose first cell is blank
    /// changes nothing; a first cell that is no number is refused; else the row
    /// is stored, and a mesh code of the file at hand has then gone by the
    /// classifier.
    pub open spec fn push_row(self, row: Seq<Seq<char>>) -> Result<RunState, MeshError> {
        if self.header is None {
            Err(MeshError::NoHeader)
        } else {
            match spec_row_mesh_code(row) {
                Err(e) => Err(e),
                Ok(None) => Ok(self),
                Ok(Some(mesh_code)) => match self.store_row(mesh_code, row) {
                    Err(e) => Err(e),
                    Ok(stored) => Ok(RunState { level_checked: true, ..stored }),
                },
            }
        }
    }

    /// Whether the classifier is asked about the row `row`: it is asked about
    /// the first mesh code of each file.
    pub open spec fn asks_classifier(self, row: Seq<Seq<char>>) -> bool {
        self.header is Some && !self.level_checked && spec_row_mesh_code(row) matches Ok(Some(_))
    }

    /// The state after `event`, which was taken in without a refusal.
    pub open spec fn after(self, event: RunEvent) -> RunState {
        match event {
            RunEvent::File(header1, header2) => match self.begin_file(header1, header2) {
                Ok(begun) => begun.0,
                Err(_) => self,
            },
            RunEvent::Row(row) => match self.push_row(row) {
                Ok(post) => post,
                Err(_) => self,
            },
            RunEvent::Stored(mesh_code, row) => match self.store_row(mesh_code, row) {
                Ok(post) => post,
                Err(_) => self,
            },
            RunEvent::Drained => RunState { tiles: Map::<u64, Seq<i32>>::empty(), ..self },
        }
    }

    /// The state after the events `log`, in their order.
    pub open spec fn replay(self, log: Seq<RunEvent>) -> RunState
        decreases log.len(),
    {
        if log.len() == 0 {
            self
        } else {
            self.replay(log.drop_last()).after(log.last())
        }
    }

    /// The state at the start of a run with that plan and those requested bands.
    pub open spec fn start(plan: TilePlan, requested: Option<Seq<Seq<char>>>) -> RunState {
        RunState {
            plan,
            requested,
            header: None,
            bands: Seq::<BandView>::empty(),
            tile_value_count: 0,
            level_checked: false,
            tiles: Map::<u64, Seq<i32>>::empty(),
        }
    }
}

/// One thing that a run took in without refusing it.
pub enum RunEvent {
    /// The two header rows of a file that was begun.
    File(Seq<Seq<char>>, Seq<Seq<char>>),
    /// A row that was taken with `push_row`.
    Row(Seq<Seq<char>>),
    /// A mesh code and its row that were stored with `store_row`.
    Stored(u64, Seq<Seq<char>>),
    /// The tiles were handed out.
    Drained,
}

/// A step of a run keeps the plan and the requested bands.
pub proof fn lemma_replay_keeps_plan(start: RunState, log: Seq<RunEvent>)
    ensures
        start.replay(log).plan == start.plan,
        start.replay(log).requested == start.requested,
    decreases log.len(),
{
    if log.len() > 0 {
        lemma_replay_keeps_plan(start, log.drop_last());
    }
}


/// Only the first file that is begun is answered with `true`, which asks for
/// the description of the tile set to be written: once a file was begun, every
/// later one is answered with `false`, and leaves the column names, the bands
/// and the tile size as the first file fixed them.
pub proof fn lemma_first_file_once(
    pre: RunState,
    header1: Seq<Seq<char>>,
    header2: Seq<Seq<char>>,
    next1: Seq<Seq<char>>,
    next2: Seq<Seq<char>>,
)
    requires
        pre.begin_file(header1, header2) is Ok,
        pre.begin_file(header1, header2)->Ok_0.0.begin_file(next1, next2) is Ok,
    ensures
        ({
            let begun = pre.begin_file(header1, header2)->Ok_0;
            let later = begun.0.begin_file(next1, next2)->Ok_0;
            &&& begun.1 == (pre.header is None)
            &&& begun.0.header is Some
            &&& !later.1
            &&& later.0.header == begun.0.header
            &&& later.0.bands == begun.0.bands
            &&& later.0.tile_value_count == begun.0.tile_value_count
            &&& later.0.tiles == pre.tiles
        }),
{
}

/// The state of a run: what the first file fixed, and the tiles filled so far.
pub struct TileAccumulator {
    plan: TilePlan,
    requested: Option<Vec<String>>,
    header: Option<Vec<String>>,
    bands: Vec<SelectedBand>,
    tile_value_count: usize,
    level_checked: bool,
    store: TileStore,
    log: Ghost<Seq<RunEvent>>,
}

impl View for TileAccumulator {
    type V = RunState;

    closed spec fn view(&self) -> RunState {
        RunState {
            plan: self.plan,
            requested: match self.requested {
                Some(names) => Some(texts(names@)),
                None => None,
            },
            header: match self.header {
                Some(names) => Some(texts(names@)),
                None => None,
            },
            bands: band_views(self.bands@),
            tile_value_count: self.tile_value_count as nat,
            level_checked: self.level_checked,
            tiles: self.store@,
        }
    }
}

/// The result of `begin_file` as contracts speak of it.
pub open spec fn begun_view(post: RunState, r: Result<bool, MeshError>) -> Result<
    (RunState, bool),
    Failure,
> {
    match r {
        Ok(first) => Ok((post, first)),
        Err(e) => Err(e@),
    }
}

impl TileAccumulator {
    /// What the run took in so far without refusing it: the files begun, the
    /// rows taken and the handing out of tiles, in their order.
    pub closed spec fn log(&self) -> Seq<RunEvent> {
        self.log@
    }

    /// Whether the state is one that `new` made and the functions below changed.
    /// Such a state is consistent, and it is the state that what was taken in
    /// makes of the start of the run.
    pub closed spec fn wf(&self) -> bool {
        &&& self.store.wf()
        &&& self@.consistent()
        &&& self@ == RunState::start(self@.plan, self@.requested).replay(self.log@)
    }

    /// A state that is well formed is consistent.
    pub proof fn lemma_consistent(&self)
        requires
            self.wf(),
        ensures
            self@.consistent(),
    {
    }

    /// What a run holds follows from its plan, from the bands asked for and from
    /// what it took in, in that order, and from nothing else: it is the state
    /// that these make of the start of a run.
    pub proof fn lemma_state_follows_input(&self)
        requires
            self.wf(),
        ensures
            self@ == RunState::start(self@.plan, self@.requested).replay(self.log()),
    {
    }

    /// Two runs with the same plan and the same requested bands that took in
    /// the same files and rows in the same order hold the same: the same column
    /// names, bands and tile size, and the same values in the same tiles. So
    /// they hand out the same tiles in the same order.
    pub proof fn lemma_run_is_determined(&self, other: &TileAccumulator)
        requires
            self.wf(),
            other.wf(),
            self@.plan == other@.plan,
            self@.requested == other@.requested,
            self.log() == other.log(),
        ensures
            self@ == other@,
    {
    }

    /// The state at the start of a run.
    pub fn new(plan: TilePlan, requested: Option<Vec<String>>) -> (acc: TileAccumulator)
        ensures
            acc.wf(),
            acc.log() == Seq::<RunEvent>::empty(),
            acc@ == RunState::start(
                plan,
                match requested {
                    Some(names) => Some(texts(names@)),
                    None => None,
                },
            ),
    {
        let acc = TileAccumulator {
            plan,
            requested,
            header: None,
            bands: Vec::new(),
            tile_value_count: 0,
            level_checked: false,
            store: TileStore::new(),
            log: Ghost(Seq::<RunEvent>::empty()),
        };
        proof {
            assert(band_views(acc.bands@) =~= Seq::<BandView>::empty());
        }
        acc
    }

    /// The levels and the tile size.
    pub fn plan(&self) -> (plan: TilePlan)
        ensures
            plan == self@.plan,
    {
        self.plan
    }

    /// The bands; none before the first file was begun.
    pub fn bands(&self) -> (bands: &[SelectedBand])
        ensures
            band_views(bands@) == self@.bands,
    {
        self.bands.as_slice()
    }

    /// The column names of the first file, once a file was begun.
    pub fn header(&self) -> (header: Option<&[String]>)
        ensures
            match header {
                Some(names) => self@.header == Some(texts(names@)),
                None => self@.header is None,
            },
    {
        match &self.header {
            Some(names) => Some(names.as_slice()),
            None => None,
        }
    }

    /// Number of values of one tile.
    pub fn tile_value_count(&self) -> (count: usize)
        ensures
            count == self@.tile_value_count,
    {
        self.tile_value_count
    }

    /// Whether a mesh code of the file at hand went by the classifier.
    pub fn level_checked(&self) -> (checked: bool)
        ensures
            checked == self@.level_checked,
    {
        self.level_checked
    }

    /// Takes the two header rows of the next file. A refusal changes nothing.
    pub fn begin_file(&mut self, header1: &[String], header2: &[String]) -> (r: Result<
        bool,
        MeshError,
    >)
        requires
            old(self).wf(),
        ensures
            final(self).wf(),
            begun_view(final(self)@, r) == old(self)@.begin_file(texts(header1@), texts(header2@)),
            r is Err ==> final(self)@ == old(self)@ && final(self).log() == old(self).log(),
            r is Ok ==> final(self).log() == old(self).log().push(
                RunEvent::File(texts(header1@), texts(header2@)),
            ),
    {
        let ghost event = RunEvent::File(texts(header1@), texts(header2@));
        let names = normalize_headers(header1, header2);
        proof {
            assert(names@.len() == texts(names@).len());
        }
        if names.len() <= DATA_COLUMN_START {
            return Err(MeshError::TooFewColumns);
        }
        let known: Option<bool> = match &self.header {
            Some(expected) => Some(same_texts(expected, &names)),
            None => None,
        };
        match known {
            Some(true) => {
                self.level_checked = false;
                self.log = Ghost(self.log@.push(event));
                proof {
                    assert(self.log@.drop_last() =~= old(self).log@);
                }
                return Ok(false);
            },
            Some(false) => {
                return Err(MeshError::HeaderMismatch);
            },
            None => {},
        }
        let available = match build_available_bands(header1, names.as_slice()) {
            Ok(bands) => bands,
            Err(e) => {
                return Err(e);
            },
        };
        let requested: Option<&[String]> = match &self.requested {
            Some(list) => Some(list.as_slice()),
            None => None,
        };
        let selected = match resolve_selected_bands(available.as_slice(), requested) {
            Ok(bands) => bands,
            Err(e) => {
                return Err(e);
            },
        };
        proof {
            lemma_resolved_not_empty(band_views(available@), self@.requested);
        }
        if selected.len() > MAX_BANDS {
            return Err(MeshError::TooManyBands);
        }
        let rows = self.plan.rows_per_axis;
        let pixels = match rows.checked_mul(rows) {
            Some(p) => p,
            None => {
                proof {
                    assert(rows * rows * selected@.len() > usize::MAX) by (nonlinear_arith)
                        requires
                            rows * rows > usize::MAX,
                            selected@.len() >= 1,
                    ;
                }
                return Err(MeshError::TileSizeOverflow);
            },
        };
        let count = match pixels.checked_mul(selected.len()) {
            Some(c) => c,
            None => {
                return Err(MeshError::TileSizeOverflow);
            },
        };
        self.header = Some(names);
        self.bands = selected;
        self.tile_value_count = count;
        self.level_checked = false;
        self.log = Ghost(self.log@.push(event));
        proof {
            assert(self.log@.drop_last() =~= old(self).log@);
        }
        Ok(true)
    }

    /// Writes the values of a row whose mesh code is `mesh_code` into the tile
    /// that the code falls into. A later row for the same cell replaces an
    /// earlier one. A refusal changes nothing.
    pub fn store_row(&mut self, mesh_code: u64, row: &[String]) -> (r: Result<(), MeshError>)
        requires
            old(self).wf(),
        ensures
            final(self).wf(),
            match old(self)@.store_row(mesh_code, texts(row@)) {
                Ok(post) => {
                    &&& r is Ok
                    &&& final(self)@ == post
                    &&& final(self).log() == old(self).log().push(
                        RunEvent::Stored(mesh_code, texts(row@)),
                    )
                },
                Err(e) => {
                    &&& r == Err::<(), MeshError>(e)
                    &&& final(self)@ == old(self)@
                    &&& final(self).log() == old(self).log()
                },
            },
    {
        if self.header.is_none() {
            return Err(MeshError::NoHeader);
        }
        let rows = self.plan.rows_per_axis;
        let (tile_code, row_idx, col_idx) = match map_meshcode_to_tile(
            mesh_code,
            self.plan.data_level,
            self.plan.tile_level,
            rows,
        ) {
            Ok(address) => address,
            Err(e) => {
                return Err(e);
            },
        };
        let cells = match read_row_cells(self.bands.as_slice(), row) {
            Ok(cells) => cells,
            Err(e) => {
                return Err(e);
            },
        };
        let band_count = self.bands.len();
        proof {
            lemma_cell_fits(row_idx as int, col_idx as int, rows as int, band_count as int);
            assert(rows * rows <= rows * rows * band_count) by (nonlinear_arith)
                requires
                    band_count >= 1,
            ;
        }
        let base = (row_idx * rows + col_idx) * band_count;
        self.store.write_cells(tile_code, self.tile_value_count, base, &cells);
        self.log = Ghost(self.log@.push(RunEvent::Stored(mesh_code, texts(row@))));
        proof {
            assert(self.log@.drop_last() =~= old(self).log@);
        }
        Ok(())
    }

    /// Takes one row of the file at hand. The first mesh code of each file goes
    /// by the classifier, which may refuse it with `MeshLevelMismatch`, whatever
    /// the code. But for that, the row is taken as `RunState::push_row` says: a
    /// row whose first cell is blank is passed over, a first cell that is no
    /// number is refused, and else the row is stored. A refusal changes nothing.
    pub fn push_row(&mut self, row: &[String]) -> (r: Result<(), MeshError>)
        requires
            old(self).wf(),
        ensures
            final(self).wf(),
            r is Ok ==> old(self)@.push_row(texts(row@)) == Ok::<RunState, MeshError>(final(self)@)
                && final(self).log() == old(self).log().push(RunEvent::Row(texts(row@))),
            r is Err ==> final(self)@ == old(self)@ && final(self).log() == old(self).log(),
            r matches Err(e) ==> old(self)@.push_row(texts(row@)) == Err::<RunState, MeshError>(e)
                || (old(self)@.asks_classifier(texts(row@)) && e == MeshError::MeshLevelMismatch),
            !old(self)@.asks_classifier(texts(row@)) ==> (r is Ok <==> old(self)@.push_row(
                texts(row@),
            ) is Ok),
    {
        let ghost event = RunEvent::Row(texts(row@));
        if self.header.is_none() {
            return Err(MeshError::NoHeader);
        }
        let mesh_code = match row_mesh_code(row) {
            Ok(Some(code)) => code,
            Ok(None) => {
                self.log = Ghost(self.log@.push(event));
                proof {
                    assert(self.log@.drop_last() =~= old(self).log@);
                }
                return Ok(());
            },
            Err(e) => {
                return Err(e);
            },
        };
        if !self.level_checked {
            match validate_mesh_code_level(mesh_code, self.plan.data_level) {
                Ok(()) => {},
                Err(e) => {
                    return Err(e);
                },
            }
        }
        let ghost before = self.log@;
        match self.store_row(mesh_code, row) {
            Ok(()) => {},
            Err(e) => {
                return Err(e);
            },
        }
        self.level_checked = true;
        self.log = Ghost(before.push(event));
        proof {
            assert(self.log@.drop_last() =~= before);
        }
        Ok(())
    }

    /// Hands out the tiles filled so far, in the ascending order of their codes,
    /// and keeps none of them. Each tile has the values that were stored, and
    /// as many as the run's tiles have.
    pub fn take_tiles(&mut self) -> (tiles: Vec<TileBuffer>)
        requires
            old(self).wf(),
        ensures
            final(self).wf(),
            final(self)@ == (RunState { tiles: Map::<u64, Seq<i32>>::empty(), ..old(self)@ }),
            final(self).log() == old(self).log().push(RunEvent::Drained),
            crate::tiles::ascending(tiles@),
            tile_map(tiles@) == old(self)@.tiles,
            forall|i: int|
                0 <= i < tiles@.len() ==> (#[trigger] tiles@[i]).values@.len()
                    == old(self)@.tile_value_count,
    {
        let tiles = self.store.take_all();
        self.log = Ghost(self.log@.push(RunEvent::Drained));
        proof {
            assert(self.log@.drop_last() =~= old(self).log@);
            assert forall|i: int| 0 <= i < tiles@.len() implies (#[trigger] tiles@[i]).values@.len()
                == old(self)@.tile_value_count by {
                crate::tiles::lemma_place_of(tiles@, i);
                assert(old(self)@.tiles.dom().contains(tiles@[i].tile_code));
            }
        }
        tiles
    }
}

} // verus!
