//! Reasons for which a workload or a run is refused.

use vstd::prelude::*;

verus! {

/// Why a workload could not be generated or a simulation could not be run.
#[derive(Clone, Copy, Debug, PartialEq, Eq, Structural)]
pub enum SimulationError {
    /// The device has fewer than two tracks, or there is no request at all.
    DegenerateConfiguration,
    /// The arrival window is empty, or an arrival plus the deadline horizon
    /// does not fit the 32-bit clock.
    InvalidConfiguration,
    /// A request lies outside the device, or is not fresh: it has already
    /// been released or has already waited.
    InvalidRequest,
    /// The clock reached its largest value while requests were outstanding.
    ClockOverflow,
}

} // verus!
