use vstd::prelude::*;

verus! {

/// What can go wrong with a single transfer on the wire.
#[derive(Debug, Clone, Copy, PartialEq, Eq, Structural)]
pub enum DapError {
    /// The acknowledge is none of those that SWD knows.
    SwdProtocol,
    /// The line stayed high: the target did not answer at all.
    NoAcknowledge,
    /// The target answered FAULT.
    FaultResponse,
    /// The target answered WAIT.
    WaitResponse,
    /// The parity bit does not match the data that was read.
    IncorrectParity,
}

/// What can go wrong with an operation on a probe.
#[derive(Debug, PartialEq, Eq)]
pub enum DebugProbeError {
    /// The target did not accept the access within the allowed number of attempts.
    Timeout,
    /// A transfer failed on the wire.
    ArchitectureSpecific(DapError),
    /// The probe itself failed; the text says how.
    ProbeSpecific(String),
    /// Recovering from an answer of the target took more accesses nested in one
    /// another than can be counted.
    RecoveryDepth,
}

impl vstd::std_specs::convert::FromSpecImpl<DapError> for DebugProbeError {
    open spec fn obeys_from_spec() -> bool {
        true
    }

    open spec fn from_spec(error: DapError) -> DebugProbeError {
        DebugProbeError::ArchitectureSpecific(error)
    }
}

impl From<DapError> for DebugProbeError {
    fn from(error: DapError) -> (converted: DebugProbeError) {
        DebugProbeError::ArchitectureSpecific(error)
    }
}

/// An error on the wire is passed on as it is.
pub proof fn law_wire_error_is_kept(error: DapError)
    ensures
        <DebugProbeError as vstd::std_specs::convert::FromSpec<DapError>>::from_spec(error)
            == DebugProbeError::ArchitectureSpecific(error),
{
}

} // verus!
