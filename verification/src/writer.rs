use crate::bands::texts;
use crate::classifier::{level_names, spec_mesh_level_name};
use crate::decimal::{push_decimal, spec_decimal_text};
use crate::error::MeshError;
use crate::grid::supported_level;
use crate::registry::MeshStats;
use crate::tiles::TileBuffer;
use crate::values::{build_payload_i32, spec_payload, NO_DATA_I32};
use vstd::prelude::*;
use vstd::string::*;

verus! {

/// The grid that a tile's code belongs to.
#[derive(Debug, Clone, Copy, PartialEq, Eq)]
pub enum MeshKind {
    JisX0410,
    Xyz,
}

/// The type of the values of a tile.
#[derive(Debug, Clone, Copy, PartialEq, Eq)]
pub enum DType {
    Uint8,
    Int8,
    Uint16,
    Int16,
    Uint32,
    Int32,
}

/// The order of the bytes of a value.
#[derive(Debug, Clone, Copy, PartialEq, Eq)]
pub enum Endianness {
    Little,
    Big,
}

/// How the payload of a tile is compressed.
#[derive(Debug, Clone, Copy, PartialEq, Eq)]
pub enum CompressionMode {
    /// The payload stands as it is.
    Uncompressed,
    /// The payload is deflated, without a wrapper.
    DeflateRaw,
}

/// The size of a tile.
#[derive(Debug, Clone, Copy, PartialEq, Eq)]
pub struct TileDimensions {
    pub rows: u32,
    pub cols: u32,
    pub bands: u8,
}

/// All that the codec is told of a tile.
#[derive(Debug, Clone, PartialEq, Eq)]
pub struct TileEncodeRequest {
    pub tile_id: u64,
    pub mesh_kind: MeshKind,
    pub dtype: DType,
    pub endianness: Endianness,
    pub compression: CompressionMode,
    pub dimensions: TileDimensions,
    pub no_data: Option<i32>,
    pub payload: Vec<u8>,
}

/// The description of the tile `tile` for the codec: the tile's code, the fixed
/// selectors, the size, the no-data value, and the values as bytes. It is
/// refused where the rows do not fit in 32 bits, and then where the bands do
/// not fit in 8.
pub fn tile_encode_request(tile: &TileBuffer, rows_per_axis: usize, band_count: usize) -> (r: Result<
    TileEncodeRequest,
    MeshError,
>)
    ensures
        match r {
            Ok(request) => {
                &&& rows_per_axis <= u32::MAX
                &&& band_count <= u8::MAX
                &&& request.tile_id == tile.tile_code
                &&& request.mesh_kind == MeshKind::JisX0410
                &&& request.dtype == DType::Int32
                &&& request.endianness == Endianness::Little
                &&& request.compression == CompressionMode::DeflateRaw
                &&& request.dimensions == (TileDimensions {
                    rows: rows_per_axis as u32,
                    cols: rows_per_axis as u32,
                    bands: band_count as u8,
                })
                &&& request.no_data == Some(NO_DATA_I32)
                &&& request.payload@ == spec_payload(tile.values@)
            },
            Err(e) => if rows_per_axis > u32::MAX {
                e == MeshError::TileRowsOverflow
            } else {
                band_count > u8::MAX && e == MeshError::TooManyBands
            },
        },
{
    let payload = build_payload_i32(tile.values.as_slice());
    if rows_per_axis > u32::MAX as usize {
        return Err(MeshError::TileRowsOverflow);
    }
    if band_count > u8::MAX as usize {
        return Err(MeshError::TooManyBands);
    }
    Ok(
        TileEncodeRequest {
            tile_id: tile.tile_code,
            mesh_kind: MeshKind::JisX0410,
            dtype: DType::Int32,
            endianness: Endianness::Little,
            compression: CompressionMode::DeflateRaw,
            dimensions: TileDimensions {
                rows: rows_per_axis as u32,
                cols: rows_per_axis as u32,
                bands: band_count as u8,
            },
            no_data: Some(NO_DATA_I32),
            payload,
        },
    )
}

/// The name of the file of a tile: the tile's code and `.tile`.
pub fn tile_file_name(tile_code: u64) -> (name: String)
    ensures
        name@ == spec_decimal_text(tile_code as nat) + ".tile"@,
{
    let mut name = String::new();
    push_decimal(&mut name, tile_code);
    name.append(".tile");
    assert(name@ =~= spec_decimal_text(tile_code as nat) + ".tile"@);
    name
}

/// The name of one band in the description of a tile set.
#[derive(Debug, Clone, PartialEq, Eq)]
pub struct BandColumnMetadata {
    /// The number of the band, counted from 1.
    pub band: u16,
    /// The name of the column.
    pub name: String,
}

/// The description of a tile set, written once beside the tiles.
#[derive(Debug, Clone, PartialEq, Eq)]
pub struct TileSetMetadata {
    pub format: &'static str,
    pub tile_file_pattern: &'static str,
    pub mesh_kind: &'static str,
    pub data_mesh_level: u8,
    pub tile_mesh_level: u8,
    pub data_mesh_level_name: String,
    pub tile_mesh_level_name: String,
    pub year: u16,
    pub survey: String,
    pub stats_id: String,
    pub rows: u32,
    pub cols: u32,
    pub bands: u8,
    pub dtype: &'static str,
    pub endianness: &'static str,
    pub compression: &'static str,
    pub no_data: i32,
    pub band_columns: Vec<BandColumnMetadata>,
}

/// Whether `columns` numbers the names `names` from 1, in their order.
pub open spec fn numbers_bands(columns: Seq<BandColumnMetadata>, names: Seq<Seq<char>>) -> bool {
    columns.len() == names.len() && forall|i: int|
        0 <= i < columns.len() ==> (#[trigger] columns[i]).band == i + 1 && columns[i].name@
            == names[i]
}

/// Whether `m` describes the tile set of that survey, those levels, that size
/// and those bands.
pub open spec fn describes(
    m: TileSetMetadata,
    stats: MeshStats,
    survey: Seq<char>,
    data_level: u8,
    tile_level: u8,
    rows_per_axis: int,
    band_names: Seq<Seq<char>>,
) -> bool {
    &&& m.format@ == "MTI1"@
    &&& m.tile_file_pattern@ == "{meshcode}.tile"@
    &&& m.mesh_kind@ == "jis-x0410"@
    &&& m.data_mesh_level == data_level
    &&& m.tile_mesh_level == tile_level
    &&& m.data_mesh_level_name@ == spec_mesh_level_name(data_level)
    &&& m.tile_mesh_level_name@ == spec_mesh_level_name(tile_level)
    &&& m.year == stats.year
    &&& m.survey@ == survey
    &&& m.stats_id@ == stats.stats_id@
    &&& m.rows == rows_per_axis
    &&& m.cols == rows_per_axis
    &&& m.bands == band_names.len()
    &&& m.dtype@ == "int32"@
    &&& m.endianness@ == "little"@
    &&& m.compression@ == "deflate-raw"@
    &&& m.no_data == NO_DATA_I32
    &&& numbers_bands(m.band_columns@, band_names)
}

/// The description of a tile set. It is refused where the rows do not fit in
/// 32 bits, then where the bands do not fit in 8, then where the data level is
/// no standard level, then where the tile level is none.
pub fn build_metadata(
    mesh_stats: &MeshStats,
    survey: &str,
    data_level: u8,
    tile_level: u8,
    rows_per_axis: usize,
    band_names: &[String],
) -> (r: Result<TileSetMetadata, MeshError>)
    ensures
        match r {
            Ok(m) => rows_per_axis <= u32::MAX && band_names@.len() <= u8::MAX && supported_level(
                data_level as int,
            ) && supported_level(tile_level as int) && describes(
                m,
                *mesh_stats,
                survey@,
                data_level,
                tile_level,
                rows_per_axis as int,
                texts(band_names@),
            ),
            Err(e) => if rows_per_axis > u32::MAX {
                e == MeshError::TileRowsOverflow
            } else if band_names@.len() > u8::MAX {
                e == MeshError::TooManyBands
            } else if !supported_level(data_level as int) {
                e == MeshError::UnsupportedLevel(data_level)
            } else {
                !supported_level(tile_level as int) && e == MeshError::UnsupportedLevel(tile_level)
            },
        },
{
    if rows_per_axis > u32::MAX as usize {
        return Err(MeshError::TileRowsOverflow);
    }
    if band_names.len() > u8::MAX as usize {
        return Err(MeshError::TooManyBands);
    }
    let (data_name, tile_name) = match level_names(data_level, tile_level) {
        Ok(names) => names,
        Err(e) => {
            return Err(e);
        },
    };
    let mut band_columns: Vec<BandColumnMetadata> = Vec::new();
    let mut i: usize = 0;
    while i < band_names.len()
        invariant
            i <= band_names.len() <= u8::MAX,
            band_columns@.len() == i,
            forall|k: int|
                0 <= k < i ==> (#[trigger] band_columns@[k]).band == k + 1 && band_columns@[k].name@
                    == band_names@[k]@,
        decreases band_names.len() - i,
    {
        band_columns.push(BandColumnMetadata { band: (i + 1) as u16, name: band_names[i].clone() });
        i = i + 1;
    }
    Ok(
        TileSetMetadata {
            format: "MTI1",
            tile_file_pattern: "{meshcode}.tile",
            mesh_kind: "jis-x0410",
            data_mesh_level: data_level,
            tile_mesh_level: tile_level,
            data_mesh_level_name: data_name,
            tile_mesh_level_name: tile_name,
            year: mesh_stats.year,
            survey: survey.to_owned(),
            stats_id: mesh_stats.stats_id.clone(),
            rows: rows_per_axis as u32,
            cols: rows_per_axis as u32,
            bands: band_names.len() as u8,
            dtype: "int32",
            endianness: "little",
            compression: "deflate-raw",
            no_data: NO_DATA_I32,
            band_columns,
        },
    )
}

} // verus!
