use crate::decimal::{push_decimal, spec_decimal_text};
use vstd::prelude::*;
use vstd::string::*;

verus! {

/// Everything that can stop a run. No failure is retried or passed over.
#[derive(Debug, Clone, PartialEq, Eq)]
pub enum MeshError {
    /// The mesh level is not one of 1 to 6 (or, for a refinement step, 2 to 6).
    UnsupportedLevel(u8),
    /// The tile level is finer than the data level.
    InvalidLevelOrdering{ tile_level: u8, data_level: u8 },
    /// The number of cells along one axis of a tile does not fit the machine word.
    ResolutionOverflow,
    /// The mesh code has the wrong number of digits, or is no number.
    MalformedMeshCode,
    /// A second- or third-level digit of the mesh code is outside its range.
    InvalidSubdivisionDigit{ level: u8 },
    /// A quadrant digit of the mesh code is not 1, 2, 3 or 4.
    InvalidQuadrant{ digit: u8 },
    /// The cell computed from the mesh code does not lie inside the tile.
    TileCoordinateOutOfRange,
    /// The two header rows have different numbers of columns.
    HeaderColumnCountMismatch,
    /// There is no column after the identity columns.
    NoStatColumns,
    /// The header has no more columns than the identity columns.
    TooFewColumns,
    /// A band list was given, and it is empty.
    EmptyBandList,
    /// A requested band name is blank.
    BlankBandName,
    /// A requested band name, given here trimmed, matches no column.
    UnknownBand(String),
    /// A requested band name, given here trimmed, selects a column again.
    DuplicateBand(String),
    /// More than 255 bands were selected.
    TooManyBands,
    /// A file's header differs from the header of the first file.
    HeaderMismatch,
    /// The classifier does not place the mesh code at the data level.
    MeshLevelMismatch,
    /// A value does not fit in 32 signed bits.
    ValueOutOfRange,
    /// A value is no integer.
    InvalidInteger,
    /// The number of values of a tile does not fit the machine word.
    TileSizeOverflow,
    /// The number of rows of a tile does not fit in 32 bits.
    TileRowsOverflow,
    /// A row was handed in before any header.
    NoHeader,
    /// No survey of the registry matches.
    NoMatchingSurvey,
    /// The tile codec refused the tile.
    TileEncodingFailed,
}

/// A `MeshError` as contracts speak of it: the same cases, with a name as its text.
pub enum Failure {
    /// The mesh level is not one of 1 to 6 (or, for a refinement step, 2 to 6).
    UnsupportedLevel(u8),
    /// The tile level is finer than the data level.
    InvalidLevelOrdering{ tile_level: u8, data_level: u8 },
    /// The number of cells along one axis of a tile does not fit the machine word.
    ResolutionOverflow,
    /// The mesh code has the wrong number of digits, or is no number.
    MalformedMeshCode,
    /// A second- or third-level digit of the mesh code is outside its range.
    InvalidSubdivisionDigit{ level: u8 },
    /// A quadrant digit of the mesh code is not 1, 2, 3 or 4.
    InvalidQuadrant{ digit: u8 },
    /// The cell computed from the mesh code does not lie inside the tile.
    TileCoordinateOutOfRange,
    /// The two header rows have different numbers of columns.
    HeaderColumnCountMismatch,
    /// There is no column after the identity columns.
    NoStatColumns,
    /// The header has no more columns than the identity columns.
    TooFewColumns,
    /// A band list was given, and it is empty.
    EmptyBandList,
    /// A requested band name is blank.
    BlankBandName,
    /// A requested band name, given here trimmed, matches no column.
    UnknownBand(Seq<char>),
    /// A requested band name, given here trimmed, selects a column again.
    DuplicateBand(Seq<char>),
    /// More than 255 bands were selected.
    TooManyBands,
    /// A file's header differs from the header of the first file.
    HeaderMismatch,
    /// The classifier does not place the mesh code at the data level.
    MeshLevelMismatch,
    /// A value does not fit in 32 signed bits.
    ValueOutOfRange,
    /// A value is no integer.
    InvalidInteger,
    /// The number of values of a tile does not fit the machine word.
    TileSizeOverflow,
    /// The number of rows of a tile does not fit in 32 bits.
    TileRowsOverflow,
    /// A row was handed in before any header.
    NoHeader,
    /// No survey of the registry matches.
    NoMatchingSurvey,
    /// The tile codec refused the tile.
    TileEncodingFailed,
}

impl View for MeshError {
    type V = Failure;

    open spec fn view(&self) -> Failure {
        match *self {
            MeshError::UnsupportedLevel(level) => Failure::UnsupportedLevel(level),
            MeshError::InvalidLevelOrdering { tile_level, data_level } => {
                Failure::InvalidLevelOrdering { tile_level, data_level }
            },
            MeshError::ResolutionOverflow => Failure::ResolutionOverflow,
            MeshError::MalformedMeshCode => Failure::MalformedMeshCode,
            MeshError::InvalidSubdivisionDigit { level } => {
                Failure::InvalidSubdivisionDigit { level }
            },
            MeshError::InvalidQuadrant { digit } => Failure::InvalidQuadrant { digit },
            MeshError::TileCoordinateOutOfRange => Failure::TileCoordinateOutOfRange,
            MeshError::HeaderColumnCountMismatch => Failure::HeaderColumnCountMismatch,
            MeshError::NoStatColumns => Failure::NoStatColumns,
            MeshError::TooFewColumns => Failure::TooFewColumns,
            MeshError::EmptyBandList => Failure::EmptyBandList,
            MeshError::BlankBandName => Failure::BlankBandName,
            MeshError::UnknownBand(name) => Failure::UnknownBand(name@),
            MeshError::DuplicateBand(name) => Failure::DuplicateBand(name@),
            MeshError::TooManyBands => Failure::TooManyBands,
            MeshError::HeaderMismatch => Failure::HeaderMismatch,
            MeshError::MeshLevelMismatch => Failure::MeshLevelMismatch,
            MeshError::ValueOutOfRange => Failure::ValueOutOfRange,
            MeshError::InvalidInteger => Failure::InvalidInteger,
            MeshError::TileSizeOverflow => Failure::TileSizeOverflow,
            MeshError::TileRowsOverflow => Failure::TileRowsOverflow,
            MeshError::NoHeader => Failure::NoHeader,
            MeshError::NoMatchingSurvey => Failure::NoMatchingSurvey,
            MeshError::TileEncodingFailed => Failure::TileEncodingFailed,
        }
    }
}

impl Failure {
    /// The text that tells of the failure.
    pub open spec fn text(self) -> Seq<char> {
        match self {
            Failure::UnsupportedLevel(level) => "unsupported mesh level: "@ + spec_decimal_text(
                level as nat,
            ),
            Failure::InvalidLevelOrdering { tile_level, data_level } => "tile-level ("@
                + spec_decimal_text(tile_level as nat) + ") must be <= data level ("@
                + spec_decimal_text(data_level as nat) + ")"@,
            Failure::ResolutionOverflow => "tile resolution overflow"@,
            Failure::MalformedMeshCode => "malformed mesh code"@,
            Failure::InvalidSubdivisionDigit { level } => {
                "invalid subdivision digit in mesh code at level "@ + spec_decimal_text(level as nat)
            },
            Failure::InvalidQuadrant { digit } => "invalid split mesh quadrant: "@
                + spec_decimal_text(digit as nat),
            Failure::TileCoordinateOutOfRange => "computed tile coordinates out of range"@,
            Failure::HeaderColumnCountMismatch => "header column count mismatch"@,
            Failure::NoStatColumns => "no stat columns found"@,
            Failure::TooFewColumns => "CSV has too few columns"@,
            Failure::EmptyBandList => "--bands was provided but no bands were specified"@,
            Failure::BlankBandName => "--bands contains an empty value"@,
            Failure::UnknownBand(name) => "unknown band '"@ + name + "'"@,
            Failure::DuplicateBand(name) => "duplicate band in --bands: "@ + name,
            Failure::TooManyBands => "too many columns for tile bands"@,
            Failure::HeaderMismatch => "CSV header mismatch"@,
            Failure::MeshLevelMismatch => "mesh code level mismatch"@,
            Failure::ValueOutOfRange => "value out of i32 range"@,
            Failure::InvalidInteger => "invalid integer value"@,
            Failure::TileSizeOverflow => "tile payload size overflow"@,
            Failure::TileRowsOverflow => "tile rows exceed u32"@,
            Failure::NoHeader => "row before any header"@,
            Failure::NoMatchingSurvey => "一致する統計データが見つかりません"@,
            Failure::TileEncodingFailed => "failed to encode tile"@,
        }
    }
}

impl MeshError {
    /// The text that tells of the error. An unknown or repeated band is named in it.
    pub fn message(&self) -> (text: String)
        ensures
            text@ == self@.text(),
    {
        let mut text = String::new();
        match self {
            MeshError::UnsupportedLevel(level) => {
                text.append("unsupported mesh level: ");
                push_decimal(&mut text, *level as u64);
            },
            MeshError::InvalidLevelOrdering { tile_level, data_level } => {
                text.append("tile-level (");
                push_decimal(&mut text, *tile_level as u64);
                text.append(") must be <= data level (");
                push_decimal(&mut text, *data_level as u64);
                text.append(")");
            },
            MeshError::ResolutionOverflow => {
                text.append("tile resolution overflow");
            },
            MeshError::MalformedMeshCode => {
                text.append("malformed mesh code");
            },
            MeshError::InvalidSubdivisionDigit { level } => {
                text.append("invalid subdivision digit in mesh code at level ");
                push_decimal(&mut text, *level as u64);
            },
            MeshError::InvalidQuadrant { digit } => {
                text.append("invalid split mesh quadrant: ");
                push_decimal(&mut text, *digit as u64);
            },
            MeshError::TileCoordinateOutOfRange => {
                text.append("computed tile coordinates out of range");
            },
            MeshError::HeaderColumnCountMismatch => {
                text.append("header column count mismatch");
            },
            MeshError::NoStatColumns => {
                text.append("no stat columns found");
            },
            MeshError::TooFewColumns => {
                text.append("CSV has too few columns");
            },
            MeshError::EmptyBandList => {
                text.append("--bands was provided but no bands were specified");
            },
            MeshError::BlankBandName => {
                text.append("--bands contains an empty value");
            },
            MeshError::UnknownBand(name) => {
                text.append("unknown band '");
                text.append(name.as_str());
                text.append("'");
            },
            MeshError::DuplicateBand(name) => {
                text.append("duplicate band in --bands: ");
                text.append(name.as_str());
            },
            MeshError::TooManyBands => {
                text.append("too many columns for tile bands");
            },
            MeshError::HeaderMismatch => {
                text.append("CSV header mismatch");
            },
            MeshError::MeshLevelMismatch => {
                text.append("mesh code level mismatch");
            },
            MeshError::ValueOutOfRange => {
                text.append("value out of i32 range");
            },
            MeshError::InvalidInteger => {
                text.append("invalid integer value");
            },
            MeshError::TileSizeOverflow => {
                text.append("tile payload size overflow");
            },
            MeshError::TileRowsOverflow => {
                text.append("tile rows exceed u32");
            },
            MeshError::NoHeader => {
                text.append("row before any header");
            },
            MeshError::NoMatchingSurvey => {
                text.append("一致する統計データが見つかりません");
            },
            MeshError::TileEncodingFailed => {
                text.append("failed to encode tile");
            },
        }
        assert(text@ =~= self@.text());
        text
    }
}

} // verus!
