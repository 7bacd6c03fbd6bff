//! String distances against independent values and the scoring-function
//! registry names.

use spring_embed::error::FFIError;
use spring_embed::metrics::{levenshtein, nw_distance};
use spring_embed::scoring::{enum_to_string, ScoringFunction};

#[test]
fn levenshtein_known_values() {
    assert_eq!(levenshtein("", ""), 0);
    assert_eq!(levenshtein("abc", ""), 3);
    assert_eq!(levenshtein("", "abc"), 3);
    assert_eq!(levenshtein("kitten", "sitting"), 3);
    assert_eq!(levenshtein("NAJIBEATSPEPPERS", "NAJIBPEPPERSEATS"), 8);
    assert_eq!(levenshtein("TOMEATSWHATFOODEATS", "FOODEATSWHATTOMEATS"), 6);
}

#[test]
fn nw_distance_equals_unit_penalty_alignment() {
    assert_eq!(nw_distance("NAJIBEATSPEPPERS", "NAJIBPEPPERSEATS"), 8);
    assert_eq!(nw_distance("kitten", "sitting"), 3);
    assert_eq!(nw_distance("", "xy"), 2);
}

#[test]
fn distances_crate_agreement() {
    // The independent implementation agrees on ASCII inputs.
    for (x, y) in [
        ("kitten", "sitting"),
        ("NAJIBEATSPEPPERS", "NAJIBPEPPERSEATS"),
        ("abcdef", "azced"),
        ("", "abc"),
        ("same", "same"),
    ] {
        let theirs: u32 = distances::strings::levenshtein(x, y);
        assert_eq!(levenshtein(x, y), theirs);
        let theirs_nw: u32 = distances::strings::nw_distance(x, y);
        assert_eq!(nw_distance(x, y), theirs_nw);
    }
}

#[test]
fn scoring_registry_names() {
    assert_eq!(enum_to_string(&ScoringFunction::LrEuclideanCc).unwrap(), "lr_euclidean_cc");
    assert_eq!(enum_to_string(&ScoringFunction::DtManhattanVd).unwrap(), "dt_manhattan_vd");
    let all = [
        ScoringFunction::LrManhattanSc,
        ScoringFunction::LrEuclideanSp,
        ScoringFunction::DtEuclideanGn,
    ];
    for sf in all {
        let name = enum_to_string(&sf).unwrap();
        assert!(name.len() == 15);
        assert!(name.contains('_'));
    }
    // The error variants still exist for the registries that can miss.
    let _ = FFIError::ScoringFunctionNotFound;
}
