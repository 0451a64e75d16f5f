use vstd::prelude::*;

verus! {

/// The ways in which the engine refuses a request.
#[derive(Debug, Clone, Copy, PartialEq, Eq, Structural)]
pub enum EngineError {
    /// A worker pool was asked for with no workers.
    Configuration,
    /// An epoch advance did not move strictly forward.
    EpochOrder,
}

} // verus!
