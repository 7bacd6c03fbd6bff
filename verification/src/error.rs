//! The result conditions reported across the library boundary.

use vstd::prelude::*;

verus! {

/// Outcome of an operation on the engine or its surrounding state.
#[derive(Debug, PartialEq, Eq, Clone, Copy, Structural)]
pub enum FFIError {
    /// All went fine.
    Success,
    NullPointerPassed,
    InvalidStringPassed,
    HandleInitFailed,
    LoadTreeFailed,
    GraphBuildFailed,
    QueryIsNull,
    PhysicsAlreadyShutdown,
    DivisionByZero,
    PhysicsRunning,
    PhysicsFinished,
    PhysicsNotReady,
    StartupDataInvalid,
    SaveFailed,
    UnsupportedMetric,
    ScoringFunctionNotFound,
    PathNotFound,
    NotInCache,
    TooManyLabels,
    ColoringFailed,
    NotImplemented,
}

} // verus!
