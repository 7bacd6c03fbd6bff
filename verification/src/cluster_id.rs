//! Stable vertex identity.
//!
//! A vertex of the cluster tree is identified by its `(offset, cardinality)`
//! pair, used uniformly as the key of every node map.

use vstd::prelude::*;

verus! {

/// The identity of one cluster-tree vertex.
#[derive(Clone, Copy, Debug, PartialEq, Eq, Hash, Structural)]
pub struct ClusterID {
    pub offset: usize,
    pub cardinality: usize,
}

impl ClusterID {
    pub fn new(offset: usize, cardinality: usize) -> (r: ClusterID)
        ensures
            r == (ClusterID { offset, cardinality }),
    {
        ClusterID { offset, cardinality }
    }

    pub fn to_tuple(&self) -> (r: (usize, usize))
        ensures
            r.0 == self.offset,
            r.1 == self.cardinality,
    {
        (self.offset, self.cardinality)
    }
}

/// A vertex id together with the ids of its two children; leaves carry the
/// zero id twice.
#[derive(Clone, Copy, Debug, PartialEq, Eq, Structural)]
pub struct ClusterIDs {
    pub id: ClusterID,
    pub left_id: ClusterID,
    pub right_id: ClusterID,
}

impl ClusterIDs {
    pub fn new(id: ClusterID, left_id: ClusterID, right_id: ClusterID) -> (r: ClusterIDs)
        ensures
            r == (ClusterIDs { id, left_id, right_id }),
    {
        ClusterIDs { id, left_id, right_id }
    }
}

/// An owning carrier for a [`ClusterIDs`] record handed across a boundary.
#[derive(Clone, Copy, Debug, PartialEq, Eq, Structural)]
pub struct ClusterIDsWrapper {
    pub data: ClusterIDs,
}

impl ClusterIDsWrapper {
    pub fn data(&self) -> (r: &ClusterIDs)
        ensures
            r == self.data,
    {
        &self.data
    }
}

} // verus!
