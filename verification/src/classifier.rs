use crate::decimal::spec_decimal_text;
use crate::error::MeshError;
use crate::grid::supported_level;
use vstd::prelude::*;

verus! {

/// Asks `jismesh::to_meshlevel` for the level of one mesh code, and gives the
/// number of a standard level where it names one. Nothing is claimed of which
/// level it reports: it counts the digits through a floating-point logarithm.
/// A code that it refuses, or places at a level that is none of the six
/// standard ones, gives nothing.
#[verifier::external_body]
fn detect_mesh_level(mesh_code: u64) -> (level: Option<u8>)
    ensures
        level matches Some(l) ==> supported_level(l as int),
{
    let levels = jismesh::to_meshlevel(&ndarray::arr1(&[mesh_code])).ok()?;
    match levels.first()? {
        jismesh::MeshLevel::Lv1 => Some(1),
        jismesh::MeshLevel::Lv2 => Some(2),
        jismesh::MeshLevel::Lv3 => Some(3),
        jismesh::MeshLevel::Lv4 => Some(4),
        jismesh::MeshLevel::Lv5 => Some(5),
        jismesh::MeshLevel::Lv6 => Some(6),
        _ => None,
    }
}

/// The name of a standard level: `Lv` and the level's number.
pub open spec fn spec_mesh_level_name(level: u8) -> Seq<char> {
    seq!['L', 'v'] + spec_decimal_text(level as nat)
}

/// The name under which `jismesh` prints a standard level: `MeshLevel::try_from`
/// accepts the numbers 1 to 6 as the levels `Lv1` to `Lv6`, and a level is
/// printed as its variant is written. Other numbers that a `u8` holds name no level.
#[verifier::external_body]
fn mesh_level_name(level: u8) -> (name: Option<String>)
    ensures
        match name {
            Some(n) => supported_level(level as int) && n@ == spec_mesh_level_name(level),
            None => !supported_level(level as int),
        },
{
    match jismesh::MeshLevel::try_from(usize::from(level)) {
        Ok(found) => Some(found.to_string()),
        Err(_) => None,
    }
}

/// Judges what the classifier found for a mesh code against the level that the
/// code is said to have.
pub fn check_detected_level(detected: Option<u8>, expected_level: u8) -> (r: Result<(), MeshError>)
    ensures
        r is Ok <==> detected == Some(expected_level),
        r matches Err(e) ==> e == MeshError::MeshLevelMismatch,
{
    match detected {
        Some(level) => if level == expected_level {
            Ok(())
        } else {
            Err(MeshError::MeshLevelMismatch)
        },
        None => Err(MeshError::MeshLevelMismatch),
    }
}

/// Has the classifier confirm that `mesh_code` is a code of `expected_level`.
/// Whatever the classifier answers, a refusal is a `MeshLevelMismatch`, and only
/// a standard level is ever confirmed.
pub fn validate_mesh_code_level(mesh_code: u64, expected_level: u8) -> (r: Result<(), MeshError>)
    ensures
        r matches Err(e) ==> e == MeshError::MeshLevelMismatch,
        r is Ok ==> supported_level(expected_level as int),
{
    check_detected_level(detect_mesh_level(mesh_code), expected_level)
}

/// The names of the data level and of the tile level, for the description of a
/// tile set.
pub fn level_names(data_level: u8, tile_level: u8) -> (r: Result<(String, String), MeshError>)
    ensures
        match r {
            Ok(names) => supported_level(data_level as int) && supported_level(tile_level as int)
                && names.0@ == spec_mesh_level_name(data_level) && names.1@
                == spec_mesh_level_name(tile_level),
            Err(e) => if !supported_level(data_level as int) {
                e == MeshError::UnsupportedLevel(data_level)
            } else {
                !supported_level(tile_level as int) && e == MeshError::UnsupportedLevel(tile_level)
            },
        },
{
    let data_name = match mesh_level_name(data_level) {
        Some(n) => n,
        None => {
            return Err(MeshError::UnsupportedLevel(data_level));
        },
    };
    let tile_name = match mesh_level_name(tile_level) {
        Some(n) => n,
        None => {
            return Err(MeshError::UnsupportedLevel(tile_level));
        },
    };
    Ok((data_name, tile_name))
}

} // verus!
