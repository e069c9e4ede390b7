//! Mesh statistics of the Japanese statistical grid, repackaged as raster tiles:
//! the arithmetic of mesh codes, the choice of bands, the accumulation of rows
//! into tile buffers and the description of each tile for the codec.

pub mod accumulate;
pub mod areamap;
pub mod bands;
pub mod classifier;
pub mod decimal;
pub mod download;
pub mod error;
pub mod grid;
pub mod number;
pub mod registry;
pub mod rows;
pub mod table;
pub mod text;
pub mod tiles;
pub mod values;
pub mod writer;

pub use accumulate::{plan_tiles, TileAccumulator, TilePlan};
pub use bands::{
    build_available_bands, normalize_headers, resolve_selected_bands, SelectedBand,
};
pub use classifier::{check_detected_level, level_names, validate_mesh_code_level};
pub use error::MeshError;
pub use grid::{
    decode_quadrant, digits_for_level, map_meshcode_to_tile, parse_digit, refinement_factor,
    subdivisions_per_axis,
};
pub use registry::{find_mesh_stats, get_matching_mesh_stats, MeshStats};
pub use tiles::{TileBuffer, TileStore};
pub use values::{build_payload_i32, parse_nullable, parse_stat_value, NO_DATA_I32};
pub use writer::{
    build_metadata, tile_encode_request, tile_file_name, BandColumnMetadata, TileEncodeRequest,
    TileSetMetadata,
};
