use crate::decimal::{
    all_digit_bytes, decimal_digits, digits_value, is_digit_byte, lemma_decimal_digits_are_digits,
    lemma_digits_value_bound, lemma_pow10_monotonic, pow10, spec_decimal_digits, spec_digits_value,
};
use crate::error::MeshError;
use vstd::prelude::*;

verus! {

/// Number of decimal digits of a mesh code of the given level: 4, 6, 8, 9, 10, 11
/// for the levels 1 to 6.
pub open spec fn spec_digits_for_level(level: int) -> Option<int> {
    if level == 1 {
        Some(4)
    } else if level == 2 {
        Some(6)
    } else if level == 3 {
        Some(8)
    } else if level == 4 {
        Some(9)
    } else if level == 5 {
        Some(10)
    } else if level == 6 {
        Some(11)
    } else {
        None
    }
}

/// Number of parts into which one axis of a cell of level `next_level - 1` is cut
/// to give the cells of `next_level`: 8 for level 2, 10 for level 3, 2 for the
/// levels 4 to 6.
pub open spec fn spec_refinement_factor(next_level: int) -> Option<int> {
    if next_level == 2 {
        Some(8)
    } else if next_level == 3 {
        Some(10)
    } else if 4 <= next_level <= 6 {
        Some(2)
    } else {
        None
    }
}

/// Whether `level` is one of the six standard levels.
pub open spec fn supported_level(level: int) -> bool {
    1 <= level <= 6
}

/// The product of the refinement factors of the levels above `tile_level` up to
/// `data_level`; 1 where there is none. A level without a factor counts as 1.
pub open spec fn spec_subdivisions(tile_level: int, data_level: int) -> int
    decreases data_level - tile_level,
{
    if data_level <= tile_level {
        1
    } else {
        spec_subdivisions(tile_level, data_level - 1) * match spec_refinement_factor(data_level) {
            Some(f) => f,
            None => 1,
        }
    }
}

/// The first level in `from..=upto` that has no refinement factor.
pub open spec fn first_unrefinable(from: int, upto: int) -> Option<int>
    decreases upto - from + 1,
{
    if from > upto {
        None
    } else if spec_refinement_factor(from) is None {
        Some(from)
    } else {
        first_unrefinable(from + 1, upto)
    }
}

/// Number of decimal digits of a mesh code of `level`.
pub fn digits_for_level(level: u8) -> (r: Result<usize, MeshError>)
    ensures
        match r {
            Ok(d) => spec_digits_for_level(level as int) == Some(d as int),
            Err(e) => spec_digits_for_level(level as int) is None && e
                == MeshError::UnsupportedLevel(level),
        },
{
    match level {
        1 => Ok(4),
        2 => Ok(6),
        3 => Ok(8),
        4 => Ok(9),
        5 => Ok(10),
        6 => Ok(11),
        _ => Err(MeshError::UnsupportedLevel(level)),
    }
}

/// Number of parts into which one axis of a cell is cut on the step to `next_level`.
pub fn refinement_factor(next_level: u8) -> (r: Result<usize, MeshError>)
    ensures
        match r {
            Ok(f) => spec_refinement_factor(next_level as int) == Some(f as int),
            Err(e) => spec_refinement_factor(next_level as int) is None && e
                == MeshError::UnsupportedLevel(next_level),
        },
{
    match next_level {
        2 => Ok(8),
        3 => Ok(10),
        4 | 5 | 6 => Ok(2),
        _ => Err(MeshError::UnsupportedLevel(next_level)),
    }
}

/// The south-west, south-east, north-west and north-east quarters of a cell, as
/// (row, column) counted from the south-west corner.
pub open spec fn spec_decode_quadrant(q: int) -> Option<(int, int)> {
    if q == 1 {
        Some((0, 0))
    } else if q == 2 {
        Some((0, 1))
    } else if q == 3 {
        Some((1, 0))
    } else if q == 4 {
        Some((1, 1))
    } else {
        None
    }
}

/// The quarter of a cell that the quadrant digit `q` names, as (row, column)
/// from the south-west corner.
pub fn decode_quadrant(q: u8) -> (r: Result<(usize, usize), MeshError>)
    ensures
        match r {
            Ok(rc) => spec_decode_quadrant(q as int) == Some((rc.0 as int, rc.1 as int)),
            Err(e) => spec_decode_quadrant(q as int) is None && e == (MeshError::InvalidQuadrant {
                digit: q,
            }),
        },
{
    match q {
        1 => Ok((0, 0)),
        2 => Ok((0, 1)),
        3 => Ok((1, 0)),
        4 => Ok((1, 1)),
        _ => Err(MeshError::InvalidQuadrant { digit: q }),
    }
}

/// The largest number of cells along one axis of a tile whose data level is `level`.
pub open spec fn subdivisions_bound(level: int) -> int {
    if level <= 1 {
        1
    } else if level == 2 {
        8
    } else if level == 3 {
        80
    } else if level == 4 {
        160
    } else if level == 5 {
        320
    } else {
        640
    }
}

/// Up to level 6 the product of the factors is at least 1 and at most `subdivisions_bound`.
pub proof fn lemma_subdivisions_bound(tile_level: int, data_level: int)
    requires
        data_level <= 6,
    ensures
        1 <= spec_subdivisions(tile_level, data_level) <= subdivisions_bound(data_level),
    decreases data_level - tile_level,
{
    if data_level > tile_level {
        lemma_subdivisions_bound(tile_level, data_level - 1);
        let below = spec_subdivisions(tile_level, data_level - 1);
        if data_level == 2 {
            assert(spec_subdivisions(tile_level, data_level) == below * 8);
        } else if data_level == 3 {
            assert(spec_subdivisions(tile_level, data_level) == below * 10);
        } else if 4 <= data_level <= 6 {
            assert(spec_subdivisions(tile_level, data_level) == below * 2);
        } else {
            assert(spec_subdivisions(tile_level, data_level) == below * 1);
        }
    }
}

/// What `subdivisions_per_axis` returns: the ordering of the levels is judged
/// first, then the first level without a factor is named, and else the product
/// of the factors is given. (For levels that have factors the product is at most
/// 640, so the multiplication, which is checked, never overflows.)
pub open spec fn spec_subdivisions_per_axis(tile_level: int, data_level: int) -> Result<
    int,
    MeshError,
> {
    if tile_level > data_level {
        Err(
            MeshError::InvalidLevelOrdering {
                tile_level: tile_level as u8,
                data_level: data_level as u8,
            },
        )
    } else {
        match first_unrefinable(tile_level + 1, data_level) {
            Some(l) => Err(MeshError::UnsupportedLevel(l as u8)),
            None => Ok(spec_subdivisions(tile_level, data_level)),
        }
    }
}

/// Number of cells of `data_level` along one axis of a cell of `tile_level`.
pub fn subdivisions_per_axis(tile_level: u8, data_level: u8) -> (r: Result<usize, MeshError>)
    ensures
        match r {
            Ok(n) => spec_subdivisions_per_axis(tile_level as int, data_level as int) == Ok::<
                int,
                MeshError,
            >(n as int),
            Err(e) => spec_subdivisions_per_axis(tile_level as int, data_level as int) == Err::<
                int,
                MeshError,
            >(e),
        },
{
    if tile_level > data_level {
        return Err(MeshError::InvalidLevelOrdering { tile_level, data_level });
    }
    let mut size: usize = 1;
    let mut level: u8 = tile_level;
    while level < data_level
        invariant
            tile_level <= level <= data_level,
            size == spec_subdivisions(tile_level as int, level as int),
            first_unrefinable(tile_level + 1, data_level as int) == first_unrefinable(
                level + 1,
                data_level as int,
            ),
        decreases data_level - level,
    {
        let next_level: u8 = level + 1;
        let factor = match refinement_factor(next_level) {
            Ok(f) => f,
            Err(e) => {
                return Err(e);
            },
        };
        proof {
            lemma_subdivisions_bound(tile_level as int, level as int);
            assert(size * factor <= 3200) by (nonlinear_arith)
                requires
                    0 <= size <= 320,
                    0 <= factor <= 10,
            ;
        }
        size = match size.checked_mul(factor) {
            Some(s) => s,
            None => {
                return Err(MeshError::ResolutionOverflow);
            },
        };
        level = next_level;
    }
    Ok(size)
}

/// The digit at place `idx` of `bytes`, counted from the left and from 0, where
/// there is a place `idx` and an ASCII digit stands at it.
pub open spec fn spec_parse_digit(bytes: Seq<u8>, idx: int) -> Option<u8> {
    if 0 <= idx < bytes.len() && is_digit_byte(bytes[idx]) {
        Some((bytes[idx] - 48) as u8)
    } else {
        None
    }
}

/// The digit at place `idx` of `bytes`.
pub fn parse_digit(bytes: &[u8], idx: usize) -> (r: Result<u8, MeshError>)
    ensures
        match r {
            Ok(d) => spec_parse_digit(bytes@, idx as int) == Some(d),
            Err(e) => spec_parse_digit(bytes@, idx as int) is None && e
                == MeshError::MalformedMeshCode,
        },
{
    if idx >= bytes.len() {
        return Err(MeshError::MalformedMeshCode);
    }
    let b = bytes[idx];
    if b < 48 || b > 57 {
        return Err(MeshError::MalformedMeshCode);
    }
    Ok(b - 48)
}

/// The cell of `level` inside its parent, as (row, column) from the south-west
/// corner, read from the digits of a mesh code. Level 2 has its row at place 4
/// and its column at place 5, each at most 7; level 3 has them at the places 6
/// and 7; the levels 4, 5 and 6 have one quadrant digit, at the places 8, 9, 10.
pub open spec fn spec_sub_cell(digits: Seq<u8>, level: int) -> Result<(int, int), MeshError> {
    if level == 2 {
        let row = digits[4] - 48;
        let col = digits[5] - 48;
        if row > 7 || col > 7 {
            Err(MeshError::InvalidSubdivisionDigit { level: 2 })
        } else {
            Ok((row, col))
        }
    } else if level == 3 {
        Ok((digits[6] - 48, digits[7] - 48))
    } else if 4 <= level <= 6 {
        let digit = digits[level + 4] - 48;
        match spec_decode_quadrant(digit) {
            Some(cell) => Ok(cell),
            None => Err(MeshError::InvalidQuadrant { digit: digit as u8 }),
        }
    } else {
        Err(MeshError::UnsupportedLevel(level as u8))
    }
}

/// The cell of `level` inside the tile of `tile_level`, as (row, column) from the
/// south-west corner of the tile: level by level, the cell found so far is
/// multiplied by the level's factor and the level's own cell is added. The first
/// level whose digits are refused decides the error.
pub open spec fn spec_south_cell(digits: Seq<u8>, tile_level: int, level: int) -> Result<
    (int, int),
    MeshError,
>
    decreases level - tile_level,
{
    if level <= tile_level {
        Ok((0, 0))
    } else {
        match spec_south_cell(digits, tile_level, level - 1) {
            Err(e) => Err(e),
            Ok(cell) => match spec_sub_cell(digits, level) {
                Err(e) => Err(e),
                Ok(sub) => {
                    let factor = spec_refinement_factor(level).unwrap();
                    Ok((cell.0 * factor + sub.0, cell.1 * factor + sub.1))
                },
            },
        }
    }
}

/// What `map_meshcode_to_tile` returns. The checks come in this order: the data
/// level is supported; the code has that level's number of digits; the tile level
/// is supported and not finer than the data level; each level's digits are in
/// range; the cell lies inside `rows_per_axis`. The tile code is the number that
/// the code's leading digits write, and the row is counted from the top.
pub open spec fn spec_map_meshcode_to_tile(
    mesh_code: u64,
    data_level: u8,
    tile_level: u8,
    rows_per_axis: usize,
) -> Result<(u64, usize, usize), MeshError> {
    let digits = spec_decimal_digits(mesh_code as nat);
    match spec_digits_for_level(data_level as int) {
        None => Err(MeshError::UnsupportedLevel(data_level)),
        Some(data_digits) => if digits.len() != data_digits {
            Err(MeshError::MalformedMeshCode)
        } else {
            match spec_digits_for_level(tile_level as int) {
                None => Err(MeshError::UnsupportedLevel(tile_level)),
                Some(tile_digits) => if tile_level > data_level {
                    Err(MeshError::InvalidLevelOrdering { tile_level, data_level })
                } else {
                    match spec_south_cell(digits, tile_level as int, data_level as int) {
                        Err(e) => Err(e),
                        Ok(cell) => if cell.0 >= rows_per_axis || cell.1 >= rows_per_axis {
                            Err(MeshError::TileCoordinateOutOfRange)
                        } else {
                            Ok(
                                (
                                    spec_digits_value(digits.take(tile_digits)) as u64,
                                    (rows_per_axis - 1 - cell.0) as usize,
                                    cell.1 as usize,
                                ),
                            )
                        },
                    }
                },
            }
        },
    }
}

/// Once a level's digits are refused, so is every finer level.
pub proof fn lemma_south_cell_error_stays(digits: Seq<u8>, tile_level: int, level: int, finer: int)
    requires
        level <= finer,
        spec_south_cell(digits, tile_level, level) is Err,
    ensures
        spec_south_cell(digits, tile_level, finer) == spec_south_cell(digits, tile_level, level),
    decreases finer - level,
{
    if level < finer {
        lemma_south_cell_error_stays(digits, tile_level, level, finer - 1);
    }
}

/// A cell that the digits of a code give lies inside the tile: row and column are
/// below the number of cells along one axis.
pub proof fn lemma_south_cell_in_range(digits: Seq<u8>, tile_level: int, level: int)
    requires
        1 <= tile_level <= level <= 6,
        all_digit_bytes(digits),
        spec_digits_for_level(level) matches Some(d) && d <= digits.len(),
    ensures
        spec_south_cell(digits, tile_level, level) matches Ok(cell) ==> 0 <= cell.0
            < spec_subdivisions(tile_level, level) && 0 <= cell.1 < spec_subdivisions(
            tile_level,
            level,
        ),
    decreases level - tile_level,
{
    if level > tile_level {
        lemma_south_cell_in_range(digits, tile_level, level - 1);
        lemma_subdivisions_bound(tile_level, level - 1);
        let below = spec_subdivisions(tile_level, level - 1);
        let lower = spec_south_cell(digits, tile_level, level - 1);
        let here = spec_sub_cell(digits, level);
        if lower is Ok && here is Ok {
            let cell = lower->Ok_0;
            let sub = here->Ok_0;
            let factor = spec_refinement_factor(level).unwrap();
            assert(spec_subdivisions(tile_level, level) == below * factor);
            lemma_sub_cell_in_range(digits, level);
            assert(cell.0 * factor + sub.0 < below * factor && cell.1 * factor + sub.1 < below
                * factor && cell.0 * factor + sub.0 >= 0 && cell.1 * factor + sub.1 >= 0)
                by (nonlinear_arith)
                requires
                    0 <= cell.0 < below,
                    0 <= cell.1 < below,
                    0 <= sub.0 < factor,
                    0 <= sub.1 < factor,
            ;
        }
    }
}

/// A level's own cell has row and column below the level's factor.
pub proof fn lemma_sub_cell_in_range(digits: Seq<u8>, level: int)
    requires
        all_digit_bytes(digits),
        spec_digits_for_level(level) matches Some(d) && d <= digits.len(),
    ensures
        spec_sub_cell(digits, level) matches Ok(sub) ==> spec_refinement_factor(level) matches Some(
            factor,
        ) && 0 <= sub.0 < factor && 0 <= sub.1 < factor,
{
    if level == 2 {
        assert(is_digit_byte(digits[4]) && is_digit_byte(digits[5]));
    } else if level == 3 {
        assert(is_digit_byte(digits[6]) && is_digit_byte(digits[7]));
    }
}

/// Maps a mesh code of `data_level` to the tile of `tile_level` that holds it and
/// to its cell in that tile: the tile's code, the row counted from the top, and
/// the column.
pub fn map_meshcode_to_tile(
    mesh_code: u64,
    data_level: u8,
    tile_level: u8,
    rows_per_axis: usize,
) -> (r: Result<(u64, usize, usize), MeshError>)
    ensures
        r == spec_map_meshcode_to_tile(mesh_code, data_level, tile_level, rows_per_axis),
        r matches Ok(address) ==> address.1 < rows_per_axis && address.2 < rows_per_axis,
{
    let digits = decimal_digits(mesh_code);
    let expected_digits = match digits_for_level(data_level) {
        Ok(d) => d,
        Err(e) => {
            return Err(e);
        },
    };
    if digits.len() != expected_digits {
        return Err(MeshError::MalformedMeshCode);
    }
    let tile_digits = match digits_for_level(tile_level) {
        Ok(d) => d,
        Err(e) => {
            return Err(e);
        },
    };
    if tile_level > data_level {
        return Err(MeshError::InvalidLevelOrdering { tile_level, data_level });
    }
    proof {
        lemma_decimal_digits_are_digits(mesh_code as nat);
        assert forall|j: int| 0 <= j < tile_digits implies is_digit_byte(
            #[trigger] digits@.take(tile_digits as int)[j],
        ) by {
            assert(digits@.take(tile_digits as int)[j] == digits@[j]);
        }
    }
    let tile_code = digits_value(digits.as_slice(), tile_digits);

    let mut row_south: usize = 0;
    let mut col: usize = 0;
    let mut level: u8 = tile_level;
    while level < data_level
        invariant
            1 <= tile_level <= level <= data_level <= 6,
            digits@ == spec_decimal_digits(mesh_code as nat),
            all_digit_bytes(digits@),
            spec_digits_for_level(data_level as int) == Some(digits@.len() as int),
            spec_south_cell(digits@, tile_level as int, level as int) == Ok::<
                (int, int),
                MeshError,
            >((row_south as int, col as int)),
            row_south < spec_subdivisions(tile_level as int, level as int),
            col < spec_subdivisions(tile_level as int, level as int),
        decreases data_level - level,
    {
        let next_level: u8 = level + 1;
        let factor = match refinement_factor(next_level) {
            Ok(f) => f,
            Err(e) => {
                return Err(e);
            },
        };
        let sub = match next_level {
            2 => {
                let r = match parse_digit(digits.as_slice(), 4) {
                    Ok(d) => d,
                    Err(e) => {
                        return Err(e);
                    },
                };
                let c = match parse_digit(digits.as_slice(), 5) {
                    Ok(d) => d,
                    Err(e) => {
                        return Err(e);
                    },
                };
                if r > 7 || c > 7 {
                    Err(MeshError::InvalidSubdivisionDigit { level: 2 })
                } else {
                    Ok((r as usize, c as usize))
                }
            },
            3 => {
                let r = match parse_digit(digits.as_slice(), 6) {
                    Ok(d) => d,
                    Err(e) => {
                        return Err(e);
                    },
                };
                let c = match parse_digit(digits.as_slice(), 7) {
                    Ok(d) => d,
                    Err(e) => {
                        return Err(e);
                    },
                };
                Ok((r as usize, c as usize))
            },
            _ => {
                let q = match parse_digit(digits.as_slice(), next_level as usize + 4) {
                    Ok(d) => d,
                    Err(e) => {
                        return Err(e);
                    },
                };
                decode_quadrant(q)
            },
        };
        proof {
            assert(sub matches Ok(cell) ==> spec_sub_cell(digits@, next_level as int) == Ok::<
                (int, int),
                MeshError,
            >((cell.0 as int, cell.1 as int)));
            assert(sub matches Err(e) ==> spec_sub_cell(digits@, next_level as int) == Err::<
                (int, int),
                MeshError,
            >(e));
        }
        let (sub_row, sub_col) = match sub {
            Ok(cell) => cell,
            Err(e) => {
                proof {
                    assert(spec_south_cell(digits@, tile_level as int, next_level as int) == Err::<
                        (int, int),
                        MeshError,
                    >(e));
                    lemma_south_cell_error_stays(
                        digits@,
                        tile_level as int,
                        next_level as int,
                        data_level as int,
                    );
                }
                return Err(e);
            },
        };
        proof {
            lemma_subdivisions_bound(tile_level as int, level as int);
            lemma_sub_cell_in_range(digits@, next_level as int);
            let below = spec_subdivisions(tile_level as int, level as int);
            assert(spec_subdivisions(tile_level as int, next_level as int) == below * factor);
            assert(row_south * factor + sub_row < below * factor && col * factor + sub_col < below
                * factor && below * factor <= 3200) by (nonlinear_arith)
                requires
                    0 <= row_south < below,
                    0 <= col < below,
                    below <= 320,
                    0 <= sub_row < factor,
                    0 <= sub_col < factor,
                    factor <= 10,
            ;
        }
        row_south = row_south * factor + sub_row;
        col = col * factor + sub_col;
        level = next_level;
    }

    if row_south >= rows_per_axis || col >= rows_per_axis {
        return Err(MeshError::TileCoordinateOutOfRange);
    }
    let row_top = rows_per_axis - 1 - row_south;
    Ok((tile_code, row_top, col))
}

/// The address that a mesh code is mapped to lies inside the tile: row and
/// column are below `rows_per_axis`, and the tile's code is the number that the
/// leading digits of the mesh code write. A code whose cell would lie outside
/// is refused, never moved inside.
pub proof fn lemma_mapped_address(mesh_code: u64, data_level: u8, tile_level: u8, rows_per_axis: usize)
    ensures
        spec_map_meshcode_to_tile(mesh_code, data_level, tile_level, rows_per_axis) matches Ok(
            address,
        ) ==> {
            let digits = spec_decimal_digits(mesh_code as nat);
            let tile_digits = spec_digits_for_level(tile_level as int)->Some_0;
            &&& address.1 < rows_per_axis
            &&& address.2 < rows_per_axis
            &&& spec_south_cell(digits, tile_level as int, data_level as int) == Ok::<
                (int, int),
                MeshError,
            >((rows_per_axis - 1 - address.1, address.2 as int))
            &&& address.0 == spec_digits_value(digits.take(tile_digits))
        },
{
    let digits = spec_decimal_digits(mesh_code as nat);
    if spec_map_meshcode_to_tile(mesh_code, data_level, tile_level, rows_per_axis) is Ok {
        let tile_digits = spec_digits_for_level(tile_level as int)->Some_0;
        lemma_decimal_digits_are_digits(mesh_code as nat);
        lemma_south_cell_in_range(digits, tile_level as int, data_level as int);
        let lead = digits.take(tile_digits);
        assert forall|j: int| 0 <= j < lead.len() implies is_digit_byte(#[trigger] lead[j]) by {
            assert(lead[j] == digits[j]);
        }
        lemma_digits_value_bound(lead);
        lemma_pow10_monotonic(lead.len(), 11);
        reveal_with_fuel(pow10, 12);
        assert(pow10(11) == 100000000000);
    }
}

/// Where a tile has as many cells along an axis as the levels give, no mesh
/// code is refused for lying outside the tile.
pub proof fn lemma_full_tile_holds_every_cell(mesh_code: u64, data_level: u8, tile_level: u8)
    requires
        spec_subdivisions(tile_level as int, data_level as int) <= usize::MAX,
    ensures
        spec_map_meshcode_to_tile(
            mesh_code,
            data_level,
            tile_level,
            spec_subdivisions(tile_level as int, data_level as int) as usize,
        ) != Err::<(u64, usize, usize), MeshError>(MeshError::TileCoordinateOutOfRange),
{
    let digits = spec_decimal_digits(mesh_code as nat);
    if supported_level(data_level as int) && supported_level(tile_level as int) && tile_level
        <= data_level && digits.len() == spec_digits_for_level(data_level as int)->Some_0 {
        lemma_decimal_digits_are_digits(mesh_code as nat);
        lemma_south_cell_in_range(digits, tile_level as int, data_level as int);
        lemma_south_cell_error_kinds(digits, tile_level as int, data_level as int);
    }
}

/// The digits of a code are refused only for a digit out of range.
pub proof fn lemma_south_cell_error_kinds(digits: Seq<u8>, tile_level: int, level: int)
    requires
        1 <= tile_level <= level <= 6,
    ensures
        spec_south_cell(digits, tile_level, level) matches Err(e) ==> e
            != MeshError::TileCoordinateOutOfRange,
    decreases level - tile_level,
{
    if level > tile_level {
        lemma_south_cell_error_kinds(digits, tile_level, level - 1);
    }
}

} // verus!
