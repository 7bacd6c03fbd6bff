//! The selectable distance metrics and cluster-graph scoring functions, and
//! the scoring function's registry name.

use vstd::prelude::*;
use crate::error::FFIError;

verus! {

/// The distance metric the upstream dataset is built with.
#[derive(Debug, PartialEq, Eq, Copy, Clone, Structural)]
pub enum DistanceMetric {
    Unspecified,
    Euclidean,
    EuclideanSQ,
    Manhattan,
    L3Norm,
    L4Norm,
    Chebyshev,
    Cosine,
    Canberra,
    NeedlemanWunsch,
    Levenshtein,
}

/// The pre-trained scorers selectable for graph extraction.
#[derive(Debug, PartialEq, Eq, Copy, Clone, Structural)]
pub enum ScoringFunction {
    LrManhattanSc,
    LrManhattanCc,
    LrManhattanGn,
    LrManhattanCr,
    LrManhattanSp,
    LrManhattanVd,
    LrEuclideanCc,
    LrEuclideanSc,
    LrEuclideanGn,
    LrEuclideanCr,
    LrEuclideanSp,
    LrEuclideanVd,
    DtManhattanCc,
    DtManhattanSc,
    DtManhattanGn,
    DtManhattanCr,
    DtManhattanSp,
    DtManhattanVd,
    DtEuclideanCc,
    DtEuclideanSc,
    DtEuclideanGn,
    DtEuclideanCr,
    DtEuclideanSp,
    DtEuclideanVd,
}

/// The registry name of a scoring function, as the model store spells it.
pub open spec fn scoring_name_spec(sf: ScoringFunction) -> Seq<char> {
    match sf {
        ScoringFunction::LrManhattanSc => "lr_manhattan_sc"@,
        ScoringFunction::LrManhattanCc => "lr_manhattan_cc"@,
        ScoringFunction::LrManhattanGn => "lr_manhattan_gn"@,
        ScoringFunction::LrManhattanCr => "lr_manhattan_cr"@,
        ScoringFunction::LrManhattanSp => "lr_manhattan_sp"@,
        ScoringFunction::LrManhattanVd => "lr_manhattan_vd"@,
        ScoringFunction::LrEuclideanCc => "lr_euclidean_cc"@,
        ScoringFunction::LrEuclideanSc => "lr_euclidean_sc"@,
        ScoringFunction::LrEuclideanGn => "lr_euclidean_gn"@,
        ScoringFunction::LrEuclideanCr => "lr_euclidean_cr"@,
        ScoringFunction::LrEuclideanSp => "lr_euclidean_sp"@,
        ScoringFunction::LrEuclideanVd => "lr_euclidean_vd"@,
        ScoringFunction::DtManhattanCc => "dt_manhattan_cc"@,
        ScoringFunction::DtManhattanSc => "dt_manhattan_sc"@,
        ScoringFunction::DtManhattanGn => "dt_manhattan_gn"@,
        ScoringFunction::DtManhattanCr => "dt_manhattan_cr"@,
        ScoringFunction::DtManhattanSp => "dt_manhattan_sp"@,
        ScoringFunction::DtManhattanVd => "dt_manhattan_vd"@,
        ScoringFunction::DtEuclideanCc => "dt_euclidean_cc"@,
        ScoringFunction::DtEuclideanSc => "dt_euclidean_sc"@,
        ScoringFunction::DtEuclideanGn => "dt_euclidean_gn"@,
        ScoringFunction::DtEuclideanCr => "dt_euclidean_cr"@,
        ScoringFunction::DtEuclideanSp => "dt_euclidean_sp"@,
        ScoringFunction::DtEuclideanVd => "dt_euclidean_vd"@,
    }
}

/// The registry name of a scoring function; every listed scorer has one.
pub fn enum_to_string(scoring_function: &ScoringFunction) -> (r: Result<String, FFIError>)
    ensures
        r matches Ok(s) && s@ == scoring_name_spec(*scoring_function),
{
    match scoring_function {
        ScoringFunction::LrManhattanSc => Ok("lr_manhattan_sc".to_owned()),
        ScoringFunction::LrManhattanCc => Ok("lr_manhattan_cc".to_owned()),
        ScoringFunction::LrManhattanGn => Ok("lr_manhattan_gn".to_owned()),
        ScoringFunction::LrManhattanCr => Ok("lr_manhattan_cr".to_owned()),
        ScoringFunction::LrManhattanSp => Ok("lr_manhattan_sp".to_owned()),
        ScoringFunction::LrManhattanVd => Ok("lr_manhattan_vd".to_owned()),
        ScoringFunction::LrEuclideanCc => Ok("lr_euclidean_cc".to_owned()),
        ScoringFunction::LrEuclideanSc => Ok("lr_euclidean_sc".to_owned()),
        ScoringFunction::LrEuclideanGn => Ok("lr_euclidean_gn".to_owned()),
        ScoringFunction::LrEuclideanCr => Ok("lr_euclidean_cr".to_owned()),
        ScoringFunction::LrEuclideanSp => Ok("lr_euclidean_sp".to_owned()),
        ScoringFunction::LrEuclideanVd => Ok("lr_euclidean_vd".to_owned()),
        ScoringFunction::DtManhattanCc => Ok("dt_manhattan_cc".to_owned()),
        ScoringFunction::DtManhattanSc => Ok("dt_manhattan_sc".to_owned()),
        ScoringFunction::DtManhattanGn => Ok("dt_manhattan_gn".to_owned()),
        ScoringFunction::DtManhattanCr => Ok("dt_manhattan_cr".to_owned()),
        ScoringFunction::DtManhattanSp => Ok("dt_manhattan_sp".to_owned()),
        ScoringFunction::DtManhattanVd => Ok("dt_manhattan_vd".to_owned()),
        ScoringFunction::DtEuclideanCc => Ok("dt_euclidean_cc".to_owned()),
        ScoringFunction::DtEuclideanSc => Ok("dt_euclidean_sc".to_owned()),
        ScoringFunction::DtEuclideanGn => Ok("dt_euclidean_gn".to_owned()),
        ScoringFunction::DtEuclideanCr => Ok("dt_euclidean_cr".to_owned()),
        ScoringFunction::DtEuclideanSp => Ok("dt_euclidean_sp".to_owned()),
        ScoringFunction::DtEuclideanVd => Ok("dt_euclidean_vd".to_owned()),
    }
}

} // verus!
