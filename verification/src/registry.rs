use crate::error::MeshError;
use vstd::prelude::*;
use vstd::string::*;

verus! {

/// One survey of the registry: a set of statistics that can be had at one mesh
/// level for one year.
#[derive(Debug, Clone, PartialEq, Eq)]
pub struct MeshStats {
    /// The name of the survey.
    pub name: String,
    /// The year of the survey.
    pub year: u16,
    /// The mesh level of the data.
    pub meshlevel: u8,
    /// The identifier under which the data is published.
    pub stats_id: String,
    /// The EPSG code of the datum of the mesh codes: 4301, 4612 or 6668.
    pub datum: u16,
}

/// Whether `entry` is a survey of that level, year and name.
pub open spec fn matches_survey(entry: MeshStats, level: u8, year: u16, survey: Seq<char>) -> bool {
    entry.meshlevel == level && entry.year == year && entry.name@ == survey
}

/// The place of the first entry of `registry`, at or after `from`, that matches.
pub open spec fn spec_first_match(
    registry: Seq<MeshStats>,
    level: u8,
    year: u16,
    survey: Seq<char>,
    from: int,
) -> Option<int>
    decreases registry.len() - from,
{
    if from >= registry.len() {
        None
    } else if matches_survey(registry[from], level, year, survey) {
        Some(from)
    } else {
        spec_first_match(registry, level, year, survey, from + 1)
    }
}

/// What `spec_first_match` finds matches, and nothing before it does.
pub proof fn lemma_first_match(
    registry: Seq<MeshStats>,
    level: u8,
    year: u16,
    survey: Seq<char>,
    from: int,
)
    requires
        0 <= from,
    ensures
        match spec_first_match(registry, level, year, survey, from) {
            Some(k) => from <= k < registry.len() && matches_survey(
                registry[k],
                level,
                year,
                survey,
            ) && forall|j: int|
                from <= j < k ==> !matches_survey(#[trigger] registry[j], level, year, survey),
            None => forall|j: int|
                from <= j < registry.len() ==> !matches_survey(
                    #[trigger] registry[j],
                    level,
                    year,
                    survey,
                ),
        },
    decreases registry.len() - from,
{
    if from < registry.len() && !matches_survey(registry[from], level, year, survey) {
        lemma_first_match(registry, level, year, survey, from + 1);
    }
}

/// The first survey of `registry` with that level, year and name.
pub fn get_matching_mesh_stats<'a>(
    registry: &'a [MeshStats],
    level: u8,
    year: u16,
    survey: &str,
) -> (found: Option<&'a MeshStats>)
    ensures
        match found {
            Some(entry) => spec_first_match(registry@, level, year, survey@, 0) matches Some(k)
                && 0 <= k < registry@.len() && *entry == registry@[k],
            None => spec_first_match(registry@, level, year, survey@, 0) is None,
        },
{
    let wanted = survey.to_owned();
    let mut i: usize = 0;
    while i < registry.len()
        invariant
            i <= registry.len(),
            wanted@ == survey@,
            spec_first_match(registry@, level, year, survey@, 0) == spec_first_match(
                registry@,
                level,
                year,
                survey@,
                i as int,
            ),
        decreases registry.len() - i,
    {
        let entry = &registry[i];
        if entry.meshlevel == level && entry.year == year && entry.name == wanted {
            return Some(entry);
        }
        i = i + 1;
    }
    None
}

/// The first survey of `registry` with that level, year and name; without one,
/// the run fails with `NoMatchingSurvey`.
pub fn find_mesh_stats<'a>(registry: &'a [MeshStats], level: u8, year: u16, survey: &str) -> (r:
    Result<&'a MeshStats, MeshError>)
    ensures
        match r {
            Ok(entry) => spec_first_match(registry@, level, year, survey@, 0) matches Some(k) && 0
                <= k < registry@.len() && *entry == registry@[k],
            Err(e) => spec_first_match(registry@, level, year, survey@, 0) is None && e
                == MeshError::NoMatchingSurvey,
        },
{
    match get_matching_mesh_stats(registry, level, year, survey) {
        Some(entry) => Ok(entry),
        None => Err(MeshError::NoMatchingSurvey),
    }
}

} // verus!
