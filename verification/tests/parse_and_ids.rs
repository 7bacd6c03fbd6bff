//! The vertex-name parser and the id record types.

use spring_embed::cluster_id::{ClusterID, ClusterIDs, ClusterIDsWrapper};
use spring_embed::error::FFIError;
use spring_embed::helpers::parse_cluster_name;

#[test]
fn parse_well_formed_names() {
    assert_eq!(parse_cluster_name("12-34").unwrap(), (12, 34));
    assert_eq!(parse_cluster_name("0-1").unwrap(), (0, 1));
    assert_eq!(parse_cluster_name("007-2000").unwrap(), (7, 2000));
}

#[test]
fn parse_rejects_malformed_names() {
    for bad in ["", "12", "-34", "12-", "1-2-3", "a-2", "3-b", "1 -2", "12_34"] {
        assert_eq!(parse_cluster_name(bad).unwrap_err(), FFIError::InvalidStringPassed);
    }
}

#[test]
fn parse_rejects_overflowing_numbers() {
    let huge = format!("{}9-1", usize::MAX);
    assert_eq!(parse_cluster_name(&huge).unwrap_err(), FFIError::InvalidStringPassed);
    let edge = format!("{}-1", usize::MAX);
    assert_eq!(parse_cluster_name(&edge).unwrap(), (usize::MAX, 1));
}

#[test]
fn parse_with_message_error() {
    assert_eq!(spring_embed::h_graph::parse_cluster_name("3-4").unwrap(), (3, 4));
    assert!(spring_embed::h_graph::parse_cluster_name("3;4").is_err());
}

#[test]
fn cluster_id_round_trip() {
    let a = ClusterID::new(5, 9);
    assert_eq!(a.to_tuple(), (5, 9));
    let ids = ClusterIDs::new(a, ClusterID::new(1, 2), ClusterID::new(3, 4));
    assert_eq!(ids.id, a);
    assert_eq!(ids.left_id.to_tuple(), (1, 2));
    let w = ClusterIDsWrapper { data: ids };
    assert_eq!(w.data().right_id.to_tuple(), (3, 4));
}
