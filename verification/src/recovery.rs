use vstd::prelude::*;

use crate::error::{DapError, DebugProbeError};
use crate::probe;
use crate::probe::ProbeEvent;
use crate::registers;
use crate::registers::{Abort, Ctrl, PortType, ABORT_ADDRESS, CTRL_ADDRESS};
use crate::response;
use crate::schedule;
use crate::transfer::{SwdTransfer, TransferDirection, TransferStatus};

verus! {

/// How often a register access is attempted before it is given up.
pub const ACCESS_ATTEMPTS: u32 = 20;

/// How deep the accesses that recover from an answer of the target may be nested: as
/// deep as can be counted.
///
/// Recovering takes accesses that may have to be recovered from themselves, and a target
/// that answers every request with WAIT would have them nested without end. No memory
/// holds that many nested accesses, so the limit has no bearing on how an access comes
/// out; see [`law_depth_is_out_of_reach`].
pub const RECOVERY_DEPTH: usize = usize::MAX;

// ---------------------------------------------------------------------------
// What an access does, told from the history of the probe
// ---------------------------------------------------------------------------
/// The write that clears the sticky flags given.
pub open spec fn clear_request(flags: Ctrl) -> SwdTransfer {
    SwdTransfer::spec_write(
        PortType::DebugPort,
        ABORT_ADDRESS,
        (Abort { orunerrclr: flags.sticky_orun, stkerrclr: flags.sticky_err }).spec_value(),
    )
}

/// The write that clears the overrun flag, which a WAIT answer sets.
pub open spec fn clear_overrun_request() -> SwdTransfer {
    clear_request(Ctrl { sticky_orun: true, sticky_err: false })
}

/// The read of the flags that tell why the target answered FAULT.
pub open spec fn flags_request() -> SwdTransfer {
    SwdTransfer::spec_read(PortType::DebugPort, CTRL_ADDRESS)
}

/// The outcome of a line reset of which only exchanges are left from `at` on, and where
/// what follows it starts. `None` if no such line reset ends behind `at`.
pub open spec fn reset_remainder(history: Seq<ProbeEvent>, at: int) -> Option<
    (Result<(), DebugProbeError>, int),
>
    decreases history.len() - at,
{
    if at < 0 || at >= history.len() {
        None
    } else {
        match history[at] {
            ProbeEvent::LineReset { outcome } => Some((outcome, at + 1)),
            ProbeEvent::Exchange { .. } => reset_remainder(history, at + 1),
            ProbeEvent::LineResetStart => None,
        }
    }
}

/// The outcome of the line reset that starts at `at`, and where what follows it starts.
/// `None` if none starts there.
pub open spec fn line_reset_outcome(history: Seq<ProbeEvent>, at: int) -> Option<
    (Result<(), DebugProbeError>, int),
> {
    if 0 <= at < history.len() && history[at] is LineResetStart {
        reset_remainder(history, at + 1)
    } else {
        None
    }
}

/// The result of a register access with `attempts` attempts left whose events start
/// at `at`, and where they end. `None` if the events there are not those of such an
/// access.
///
/// Each attempt performs `request` on its own.
/// - An error of the probe is the result.
/// - If the target accepts the request, the value of the transfer is the result.
/// - If the transfer fails, the access recovers from that, and an error on the way is
///   the result. Behind that a FAULT is the result, and any other failure has the
///   request attempted again.
pub open spec fn access_outcome(
    depth: nat,
    request: SwdTransfer,
    attempts: nat,
    history: Seq<ProbeEvent>,
    at: int,
) -> Option<(Result<u32, DebugProbeError>, int)>
    decreases depth, attempts,
{
    if attempts == 0 {
        Some((Err(DebugProbeError::Timeout), at))
    } else if at < 0 || at >= history.len() {
        None
    } else {
        match schedule::batch_outcome(seq![request], history[at]) {
            None => None,
            Some(Err(error)) => Some((Err(error), at + 1)),
            Some(Ok(after)) => if after[0].status is Success {
                Some((Ok(after[0].value), at + 1))
            } else {
                match recovery_outcome(depth, after[0].status, history, at + 1) {
                    None => None,
                    Some((Err(error), end)) => Some((Err(error), end)),
                    Some((Ok(()), next)) => if after[0].status == TransferStatus::Failed(
                        DapError::FaultResponse,
                    ) {
                        Some(
                            (
                                Err(
                                    DebugProbeError::ArchitectureSpecific(DapError::FaultResponse),
                                ),
                                next,
                            ),
                        )
                    } else {
                        access_outcome(depth, request, (attempts - 1) as nat, history, next)
                    },
                }
            },
        }
    }
}

/// The result of recovering from an attempt that ended with `status`, with events that
/// start at `at`, and where they end. `None` if the events there are not those of such
/// a recovery.
///
/// - After a WAIT the sticky overrun flag is cleared.
/// - After a FAULT the sticky flags are read, and those that are set are cleared.
/// - After any other failure a line reset is performed, and nothing else.
///
/// Clearing and reading flags are accesses themselves, nested at most `depth` deep.
pub open spec fn recovery_outcome(
    depth: nat,
    status: TransferStatus,
    history: Seq<ProbeEvent>,
    at: int,
) -> Option<(Result<(), DebugProbeError>, int)>
    decreases depth, 0nat,
{
    match status {
        TransferStatus::Success | TransferStatus::Pending => Some((Ok(()), at)),
        TransferStatus::Failed(DapError::WaitResponse) => if depth == 0 {
            Some((Err(DebugProbeError::RecoveryDepth), at))
        } else {
            match access_outcome(
                (depth - 1) as nat,
                clear_overrun_request(),
                ACCESS_ATTEMPTS as nat,
                history,
                at,
            ) {
                None => None,
                Some((Err(error), end)) => Some((Err(error), end)),
                Some((Ok(_), end)) => Some((Ok(()), end)),
            }
        },
        TransferStatus::Failed(DapError::FaultResponse) => if depth == 0 {
            Some((Err(DebugProbeError::RecoveryDepth), at))
        } else {
            match access_outcome(
                (depth - 1) as nat,
                flags_request(),
                ACCESS_ATTEMPTS as nat,
                history,
                at,
            ) {
                None => None,
                Some((Err(error), end)) => Some((Err(error), end)),
                Some((Ok(word), next)) => {
                    let flags = Ctrl::spec_from_word(word);
                    if flags.sticky_orun || flags.sticky_err {
                        match access_outcome(
                            (depth - 1) as nat,
                            clear_request(flags),
                            ACCESS_ATTEMPTS as nat,
                            history,
                            next,
                        ) {
                            None => None,
                            Some((Err(error), end)) => Some((Err(error), end)),
                            Some((Ok(_), end)) => Some((Ok(()), end)),
                        }
                    } else {
                        Some((Ok(()), next))
                    }
                },
            }
        },
        TransferStatus::Failed(_) => line_reset_outcome(history, at),
    }
}

// ---------------------------------------------------------------------------
// Facts about histories that grow
// ---------------------------------------------------------------------------
proof fn lemma_reset_remainder_extends(before: Seq<ProbeEvent>, after: Seq<ProbeEvent>, at: int)
    requires
        probe::extends(before, after),
        reset_remainder(before, at) is Some,
    ensures
        reset_remainder(after, at) == reset_remainder(before, at),
        at < reset_remainder(before, at).unwrap().1 <= before.len(),
    decreases before.len() - at,
{
    assert(before[at] == after[at]);
    if before[at] is Exchange {
        lemma_reset_remainder_extends(before, after, at + 1);
    }
}

/// A line reset that was just added is found behind what was there before.
pub proof fn lemma_line_reset_found(
    before: Seq<ProbeEvent>,
    after: Seq<ProbeEvent>,
    outcome: Result<(), DebugProbeError>,
)
    requires
        probe::line_reset_added(before, after, outcome),
    ensures
        probe::extends(before, after),
        line_reset_outcome(after, before.len() as int) == Some((outcome, after.len() as int)),
{
    let exchanges = choose|exchanges: Seq<ProbeEvent>| #[trigger]
        probe::only_exchanges(exchanges) && after == before.push(ProbeEvent::LineResetStart)
            + exchanges.push(ProbeEvent::LineReset { outcome });
    let start = before.push(ProbeEvent::LineResetStart);
    lemma_reset_remainder_found(start, exchanges, outcome, 0);
    assert(after[before.len() as int] == ProbeEvent::LineResetStart);
}

proof fn lemma_reset_remainder_found(
    before: Seq<ProbeEvent>,
    exchanges: Seq<ProbeEvent>,
    outcome: Result<(), DebugProbeError>,
    skipped: int,
)
    requires
        probe::only_exchanges(exchanges),
        0 <= skipped <= exchanges.len(),
    ensures
        ({
            let after = before + exchanges.push(ProbeEvent::LineReset { outcome });
            reset_remainder(after, before.len() + skipped) == Some((outcome, after.len() as int))
        }),
    decreases exchanges.len() - skipped,
{
    let after = before + exchanges.push(ProbeEvent::LineReset { outcome });
    if skipped < exchanges.len() {
        assert(after[before.len() + skipped] == exchanges[skipped]);
        lemma_reset_remainder_found(before, exchanges, outcome, skipped + 1);
    }
}

/// What happens to the probe after an access has no bearing on the access.
pub proof fn lemma_access_extends(
    depth: nat,
    request: SwdTransfer,
    attempts: nat,
    before: Seq<ProbeEvent>,
    after: Seq<ProbeEvent>,
    at: int,
)
    requires
        probe::extends(before, after),
        at <= before.len(),
        access_outcome(depth, request, attempts, before, at) is Some,
    ensures
        access_outcome(depth, request, attempts, after, at) == access_outcome(
            depth,
            request,
            attempts,
            before,
            at,
        ),
        at <= access_outcome(depth, request, attempts, before, at).unwrap().1 <= before.len(),
    decreases depth, attempts,
{
    if attempts > 0 {
        assert(before[at] == after[at]);
        if let Some(Ok(settled)) = schedule::batch_outcome(seq![request], before[at]) {
            let status = settled[0].status;
            if !(status is Success) {
                lemma_recovery_extends(depth, status, before, after, at + 1);
                let (result, next) = recovery_outcome(depth, status, before, at + 1).unwrap();
                if result is Ok && status != TransferStatus::Failed(DapError::FaultResponse) {
                    let retries = (attempts - 1) as nat;
                    lemma_access_extends(depth, request, retries, before, after, next);
                }
            }
        }
    }
}

/// What happens to the probe after a recovery has no bearing on the recovery.
pub proof fn lemma_recovery_extends(
    depth: nat,
    status: TransferStatus,
    before: Seq<ProbeEvent>,
    after: Seq<ProbeEvent>,
    at: int,
)
    requires
        probe::extends(before, after),
        at <= before.len(),
        recovery_outcome(depth, status, before, at) is Some,
    ensures
        recovery_outcome(depth, status, after, at) == recovery_outcome(depth, status, before, at),
        at <= recovery_outcome(depth, status, before, at).unwrap().1 <= before.len(),
    decreases depth, 0nat,
{
    let nested = (depth - 1) as nat;
    let fresh = ACCESS_ATTEMPTS as nat;
    match status {
        TransferStatus::Failed(DapError::WaitResponse) => {
            if depth > 0 {
                lemma_access_extends(nested, clear_overrun_request(), fresh, before, after, at);
            }
        },
        TransferStatus::Failed(DapError::FaultResponse) => {
            if depth > 0 {
                let read = flags_request();
                lemma_access_extends(nested, read, fresh, before, after, at);
                let (result, next) = access_outcome(nested, read, fresh, before, at).unwrap();
                if let Ok(word) = result {
                    let flags = Ctrl::spec_from_word(word);
                    if flags.sticky_orun || flags.sticky_err {
                        let clear = clear_request(flags);
                        lemma_access_extends(nested, clear, fresh, before, after, next);
                    }
                }
            }
        },
        TransferStatus::Failed(_) => {
            assert(before[at] == after[at]);
            lemma_reset_remainder_extends(before, after, at + 1);
        },
        _ => {},
    }
}

// ---------------------------------------------------------------------------
// The attempts of an access
// ---------------------------------------------------------------------------
/// How the transfer of `request` ended if `event` is an exchange that performs it and
/// the probe answered.
pub open spec fn attempt_status(request: SwdTransfer, event: ProbeEvent) -> Option<
    TransferStatus,
> {
    match schedule::batch_outcome(seq![request], event) {
        Some(Ok(after)) => Some(after[0].status),
        _ => None,
    }
}

/// Whether an attempt that ended with `status` has the request attempted again.
pub open spec fn is_retried(status: TransferStatus) -> bool {
    status is Failed && status != TransferStatus::Failed(DapError::FaultResponse)
}

/// Whether `status` means that something went wrong with the protocol itself.
pub open spec fn is_protocol_error(status: TransferStatus) -> bool {
    is_retried(status) && status != TransferStatus::Failed(DapError::WaitResponse)
}

/// Where in `history` the attempts of an access stand, without those of the accesses
/// that it takes to recover.
pub open spec fn attempt_places(
    depth: nat,
    request: SwdTransfer,
    attempts: nat,
    history: Seq<ProbeEvent>,
    at: int,
) -> Seq<int>
    decreases attempts,
{
    if attempts == 0 || at < 0 || at >= history.len() {
        Seq::empty()
    } else {
        match attempt_status(request, history[at]) {
            Some(status) if is_retried(status) => match recovery_outcome(
                depth,
                status,
                history,
                at + 1,
            ) {
                Some((Ok(()), next)) => seq![at] + attempt_places(
                    depth,
                    request,
                    (attempts - 1) as nat,
                    history,
                    next,
                ),
                _ => seq![at],
            },
            _ => seq![at],
        }
    }
}

/// Whether a line reset that started at or behind `from` is still going on at `at`.
pub open spec fn in_line_reset(history: Seq<ProbeEvent>, from: int, at: int) -> bool
    decreases at - from,
{
    if at <= from {
        false
    } else {
        match history[at - 1] {
            ProbeEvent::LineResetStart => true,
            ProbeEvent::LineReset { .. } => false,
            ProbeEvent::Exchange { .. } => in_line_reset(history, from, at - 1),
        }
    }
}

/// Whether `event` is an exchange that clears or reads sticky flags.
pub open spec fn is_recovery_exchange(event: ProbeEvent) -> bool {
    ||| schedule::batch_outcome(seq![flags_request()], event) is Some
    ||| exists|flags: Ctrl|
        schedule::batch_outcome(seq![#[trigger] clear_request(flags)], event) is Some
}

/// An attempt that was answered is settled.
proof fn lemma_attempt_is_settled(request: SwdTransfer, event: ProbeEvent)
    ensures
        attempt_status(request, event) matches Some(status) ==> !(status is Pending),
{
    if let ProbeEvent::Exchange { reply: Ok(bits), .. } = event {
        schedule::law_every_transfer_is_settled(seq![request], bits, 0);
    }
}

proof fn lemma_exchange_starts_no_reset(history: Seq<ProbeEvent>, at: int)
    requires
        history[at] is Exchange,
    ensures
        !in_line_reset(history, at, at + 1),
{
    reveal_with_fuel(in_line_reset, 2);
}

proof fn lemma_in_line_reset_split(history: Seq<ProbeEvent>, from: int, middle: int, at: int)
    requires
        from <= middle <= at,
        !in_line_reset(history, from, middle),
    ensures
        in_line_reset(history, from, at) == in_line_reset(history, middle, at),
    decreases at - middle,
{
    if at > middle && history[at - 1] is Exchange {
        lemma_in_line_reset_split(history, from, middle, at - 1);
    }
}

/// Between the start of a line reset and its end everything belongs to it.
proof fn lemma_inside_reset(history: Seq<ProbeEvent>, from: int, at: int)
    requires
        reset_remainder(history, at) is Some,
        in_line_reset(history, from, at),
        from <= at,
    ensures
        ({
            let (_, end) = reset_remainder(history, at).unwrap();
            &&& at < end <= history.len()
            &&& history[end - 1] is LineReset
            &&& forall|i: int| at <= i < end ==> #[trigger] in_line_reset(history, from, i)
        }),
    decreases history.len() - at,
{
    if history[at] is Exchange {
        lemma_inside_reset(history, from, at + 1);
    }
}

// ---------------------------------------------------------------------------
// What holds of every access
// ---------------------------------------------------------------------------
/// After a protocol error the next thing done with the probe is a line reset. If that
/// fails, its error is the result and nothing more is done. If it succeeds, the same
/// request is attempted with one attempt less, which times out if none is left.
pub proof fn law_protocol_error_resets_the_line(
    depth: nat,
    request: SwdTransfer,
    attempts: nat,
    history: Seq<ProbeEvent>,
    at: int,
    status: TransferStatus,
)
    requires
        attempts > 0,
        attempt_status(request, history[at]) == Some(status),
        is_protocol_error(status),
        access_outcome(depth, request, attempts, history, at) is Some,
    ensures
        at + 1 < history.len(),
        history[at + 1] is LineResetStart,
        match line_reset_outcome(history, at + 1) {
            Some((Err(error), end)) => access_outcome(depth, request, attempts, history, at)
                == Some((Err::<u32, DebugProbeError>(error), end)),
            Some((Ok(()), next)) => {
                &&& access_outcome(depth, request, attempts, history, at) == access_outcome(
                    depth,
                    request,
                    (attempts - 1) as nat,
                    history,
                    next,
                )
                &&& attempts == 1 ==> access_outcome(depth, request, attempts, history, at)
                    == Some((Err::<u32, DebugProbeError>(DebugProbeError::Timeout), next))
            },
            None => false,
        },
{
    assert(recovery_outcome(depth, status, history, at + 1) == line_reset_outcome(
        history,
        at + 1,
    ));
}

/// An error of the probe on any exchange that does not belong to a line reset ends the
/// access: nothing more is done with the probe, and the error is the result.
pub proof fn law_probe_error_ends_access(
    depth: nat,
    request: SwdTransfer,
    attempts: nat,
    history: Seq<ProbeEvent>,
    at: int,
    place: int,
    error: DebugProbeError,
)
    requires
        access_outcome(depth, request, attempts, history, at) is Some,
        at <= place < access_outcome(depth, request, attempts, history, at).unwrap().1,
        !in_line_reset(history, at, place),
        history[place] matches ProbeEvent::Exchange { reply, .. } && reply == Err::<
            Seq<bool>,
            DebugProbeError,
        >(error),
    ensures
        access_outcome(depth, request, attempts, history, at) == Some(
            (Err::<u32, DebugProbeError>(error), place + 1),
        ),
    decreases depth, attempts,
{
    if place > at {
        let status = attempt_status(request, history[at]).unwrap();
        let (result, next) = recovery_outcome(depth, status, history, at + 1).unwrap();
        lemma_recovery_ends_outside_reset(depth, status, history, at + 1);
        lemma_exchange_starts_no_reset(history, at);
        lemma_in_line_reset_split(history, at, at + 1, place);
        if place < next {
            lemma_probe_error_ends_recovery(depth, status, history, at + 1, place, error);
        } else {
            lemma_in_line_reset_split(history, at + 1, next, place);
            let retries = (attempts - 1) as nat;
            law_probe_error_ends_access(depth, request, retries, history, next, place, error);
        }
    }
}

proof fn lemma_probe_error_ends_recovery(
    depth: nat,
    status: TransferStatus,
    history: Seq<ProbeEvent>,
    at: int,
    place: int,
    error: DebugProbeError,
)
    requires
        0 <= at <= history.len(),
        recovery_outcome(depth, status, history, at) is Some,
        at <= place < recovery_outcome(depth, status, history, at).unwrap().1,
        !in_line_reset(history, at, place),
        history[place] matches ProbeEvent::Exchange { reply, .. } && reply == Err::<
            Seq<bool>,
            DebugProbeError,
        >(error),
    ensures
        recovery_outcome(depth, status, history, at) == Some(
            (Err::<(), DebugProbeError>(error), place + 1),
        ),
    decreases depth, 0nat,
{
    let nested = (depth - 1) as nat;
    let fresh = ACCESS_ATTEMPTS as nat;
    match status {
        TransferStatus::Failed(DapError::WaitResponse) => {
            let clear = clear_overrun_request();
            law_probe_error_ends_access(nested, clear, fresh, history, at, place, error);
        },
        TransferStatus::Failed(DapError::FaultResponse) => {
            let read = flags_request();
            let (result, next) = access_outcome(nested, read, fresh, history, at).unwrap();
            if place < next {
                law_probe_error_ends_access(nested, read, fresh, history, at, place, error);
            } else {
                let clear = clear_request(Ctrl::spec_from_word(result.unwrap()));
                lemma_access_ends_outside_reset(nested, read, fresh, history, at);
                lemma_in_line_reset_split(history, at, next, place);
                law_probe_error_ends_access(nested, clear, fresh, history, next, place, error);
            }
        },
        TransferStatus::Failed(_) => {
            if place > at {
                lemma_inside_reset(history, at, at + 1);
            }
        },
        _ => {},
    }
}

proof fn lemma_access_ends_outside_reset(
    depth: nat,
    request: SwdTransfer,
    attempts: nat,
    history: Seq<ProbeEvent>,
    at: int,
)
    requires
        at <= history.len(),
        access_outcome(depth, request, attempts, history, at) is Some,
    ensures
        ({
            let (_, end) = access_outcome(depth, request, attempts, history, at).unwrap();
            &&& at <= end <= history.len()
            &&& !in_line_reset(history, at, end)
        }),
    decreases depth, attempts,
{
    lemma_access_extends(depth, request, attempts, history, history, at);
    if attempts > 0 {
        lemma_exchange_starts_no_reset(history, at);
        if let Some(status) = attempt_status(request, history[at]) {
            if !(status is Success) {
                lemma_recovery_ends_outside_reset(depth, status, history, at + 1);
                let (result, next) = recovery_outcome(depth, status, history, at + 1).unwrap();
                lemma_in_line_reset_split(history, at, at + 1, next);
                if result is Ok && status != TransferStatus::Failed(DapError::FaultResponse) {
                    let retries = (attempts - 1) as nat;
                    lemma_access_ends_outside_reset(depth, request, retries, history, next);
                    let (_, end) = access_outcome(depth, request, retries, history, next).unwrap();
                    lemma_in_line_reset_split(history, at, next, end);
                }
            }
        }
    }
}

proof fn lemma_recovery_ends_outside_reset(
    depth: nat,
    status: TransferStatus,
    history: Seq<ProbeEvent>,
    at: int,
)
    requires
        at <= history.len(),
        recovery_outcome(depth, status, history, at) is Some,
    ensures
        ({
            let (_, end) = recovery_outcome(depth, status, history, at).unwrap();
            &&& at <= end <= history.len()
            &&& !in_line_reset(history, at, end)
        }),
    decreases depth, 0nat,
{
    lemma_recovery_extends(depth, status, history, history, at);
    let nested = (depth - 1) as nat;
    let fresh = ACCESS_ATTEMPTS as nat;
    match status {
        TransferStatus::Failed(DapError::WaitResponse) => {
            if depth > 0 {
                let clear = clear_overrun_request();
                lemma_access_ends_outside_reset(nested, clear, fresh, history, at);
            }
        },
        TransferStatus::Failed(DapError::FaultResponse) => {
            if depth > 0 {
                let read = flags_request();
                lemma_access_ends_outside_reset(nested, read, fresh, history, at);
                let (result, next) = access_outcome(nested, read, fresh, history, at).unwrap();
                if let Ok(word) = result {
                    let flags = Ctrl::spec_from_word(word);
                    if flags.sticky_orun || flags.sticky_err {
                        let clear = clear_request(flags);
                        lemma_access_ends_outside_reset(nested, clear, fresh, history, next);
                        let (_, end) = access_outcome(nested, clear, fresh, history, next).unwrap();
                        lemma_in_line_reset_split(history, at, next, end);
                    }
                }
            }
        },
        TransferStatus::Failed(_) => {
            lemma_inside_reset(history, at, at + 1);
        },
        _ => {},
    }
}

/// A request is attempted at least once, at once, and never more often than allowed.
/// Every attempt performs the request. Every attempt but the last failed with something
/// other than a FAULT, so none follows an attempt that was accepted or answered with
/// FAULT. Nothing at all follows an attempt that was accepted.
pub proof fn law_attempts_are_bounded(
    depth: nat,
    request: SwdTransfer,
    attempts: nat,
    history: Seq<ProbeEvent>,
    at: int,
)
    requires
        attempts > 0,
        access_outcome(depth, request, attempts, history, at) is Some,
    ensures
        ({
            let places = attempt_places(depth, request, attempts, history, at);
            let (_, end) = access_outcome(depth, request, attempts, history, at).unwrap();
            &&& 1 <= places.len() <= attempts
            &&& places[0] == at
            &&& forall|k: int|
                0 <= k < places.len() ==> at <= #[trigger] places[k] < end
                    && schedule::batch_outcome(seq![request], history[places[k]]) is Some
            &&& forall|k: int|
                0 <= k < places.len() - 1 ==> (attempt_status(
                    request,
                    history[#[trigger] places[k]],
                ) matches Some(status) && is_retried(status))
            &&& attempt_status(request, history[places.last()]) == Some(TransferStatus::Success)
                ==> end == places.last() + 1
        }),
    decreases attempts,
{
    lemma_attempt_is_settled(request, history[at]);
    lemma_access_extends(depth, request, attempts, history, history, at);
    if let Some(status) = attempt_status(request, history[at]) {
        if !(status is Success) {
            lemma_recovery_extends(depth, status, history, history, at + 1);
        }
        if is_retried(status) {
            let (result, next) = recovery_outcome(depth, status, history, at + 1).unwrap();
            if result is Ok && attempts > 1 {
                let retries = (attempts - 1) as nat;
                law_attempts_are_bounded(depth, request, retries, history, next);
                let places = attempt_places(depth, request, attempts, history, at);
                let rest = attempt_places(depth, request, retries, history, next);
                assert(places =~= seq![at] + rest);
                assert forall|k: int| 0 <= k < places.len() - 1 implies (attempt_status(
                    request,
                    history[#[trigger] places[k]],
                ) matches Some(status) && is_retried(status)) by {
                    if k > 0 {
                        assert(places[k] == rest[k - 1]);
                    }
                }
                assert forall|k: int| 0 <= k < places.len() implies at <= #[trigger] places[k]
                    < access_outcome(depth, request, attempts, history, at).unwrap().1
                    && schedule::batch_outcome(seq![request], history[places[k]]) is Some by {
                    if k > 0 {
                        assert(places[k] == rest[k - 1]);
                    }
                }
                assert(places.last() == rest.last());
            }
        }
    }
}

/// Where the probe answers every attempt and everything done to recover succeeds, the
/// result follows from the attempts: the access succeeds if and only if the last attempt
/// was accepted, ends in a fault if and only if the last attempt was answered with FAULT,
/// and times out if and only if all attempts were made and the last one failed otherwise.
pub proof fn law_result_follows_from_attempts(
    depth: nat,
    request: SwdTransfer,
    attempts: nat,
    history: Seq<ProbeEvent>,
    at: int,
)
    requires
        attempts > 0,
        access_outcome(depth, request, attempts, history, at) is Some,
        ({
            let places = attempt_places(depth, request, attempts, history, at);
            forall|k: int|
                0 <= k < places.len() ==> (attempt_status(
                    request,
                    history[#[trigger] places[k]],
                ) matches Some(status) && (recovery_outcome(
                    depth,
                    status,
                    history,
                    places[k] + 1,
                ) matches Some((Ok(()), _))))
        }),
    ensures
        ({
            let places = attempt_places(depth, request, attempts, history, at);
            let (result, _) = access_outcome(depth, request, attempts, history, at).unwrap();
            let last = attempt_status(request, history[places.last()]).unwrap();
            &&& result is Ok <==> last is Success
            &&& result == Err::<u32, DebugProbeError>(
                DebugProbeError::ArchitectureSpecific(DapError::FaultResponse),
            ) <==> last == TransferStatus::Failed(DapError::FaultResponse)
            &&& result == Err::<u32, DebugProbeError>(DebugProbeError::Timeout) <==> places.len()
                == attempts && is_retried(last)
            &&& is_retried(last) ==> places.len() == attempts
        }),
    decreases attempts,
{
    let places = attempt_places(depth, request, attempts, history, at);
    law_attempts_are_bounded(depth, request, attempts, history, at);
    lemma_attempt_is_settled(request, history[at]);
    assert(places[0] == at);
    let status = attempt_status(request, history[at]).unwrap();
    if is_retried(status) {
        let (_, next) = recovery_outcome(depth, status, history, at + 1).unwrap();
        let retries = (attempts - 1) as nat;
        let rest = attempt_places(depth, request, retries, history, next);
        assert(places =~= seq![at] + rest);
        if attempts > 1 {
            assert forall|k: int| 0 <= k < rest.len() implies (attempt_status(
                request,
                history[#[trigger] rest[k]],
            ) matches Some(status) && (recovery_outcome(
                depth,
                status,
                history,
                rest[k] + 1,
            ) matches Some((Ok(()), _)))) by {
                assert(places[k + 1] == rest[k]);
            }
            law_result_follows_from_attempts(depth, request, retries, history, next);
            law_attempts_are_bounded(depth, request, retries, history, next);
            assert(places.last() == rest.last());
        } else {
            assert(rest.len() == 0);
        }
    }
}

/// Every exchange of an access is one of its attempts, clears or reads sticky flags, or
/// belongs to a line reset.
pub proof fn law_nothing_else_is_exchanged(
    depth: nat,
    request: SwdTransfer,
    attempts: nat,
    history: Seq<ProbeEvent>,
    at: int,
    place: int,
)
    requires
        access_outcome(depth, request, attempts, history, at) is Some,
        at <= place < access_outcome(depth, request, attempts, history, at).unwrap().1,
        history[place] is Exchange,
    ensures
        ({
            ||| attempt_places(depth, request, attempts, history, at).contains(place)
            ||| is_recovery_exchange(history[place])
            ||| in_line_reset(history, at, place)
        }),
    decreases depth, attempts,
{
    let places = attempt_places(depth, request, attempts, history, at);
    law_attempts_are_bounded(depth, request, attempts, history, at);
    lemma_attempt_is_settled(request, history[at]);
    if place == at {
        assert(places[0] == at);
    } else {
        let status = attempt_status(request, history[at]).unwrap();
        let (result, next) = recovery_outcome(depth, status, history, at + 1).unwrap();
        lemma_recovery_ends_outside_reset(depth, status, history, at + 1);
        lemma_exchange_starts_no_reset(history, at);
        lemma_in_line_reset_split(history, at, at + 1, place);
        if place < next {
            lemma_nothing_else_in_recovery(depth, status, history, at + 1, place);
        } else {
            let retries = (attempts - 1) as nat;
            lemma_in_line_reset_split(history, at + 1, next, place);
            law_nothing_else_is_exchanged(depth, request, retries, history, next, place);
            let rest = attempt_places(depth, request, retries, history, next);
            assert(places =~= seq![at] + rest);
            if rest.contains(place) {
                let k = choose|k: int| 0 <= k < rest.len() && rest[k] == place;
                assert(places[k + 1] == place);
            }
        }
    }
}

proof fn lemma_nothing_else_in_recovery(
    depth: nat,
    status: TransferStatus,
    history: Seq<ProbeEvent>,
    at: int,
    place: int,
)
    requires
        0 <= at <= history.len(),
        recovery_outcome(depth, status, history, at) is Some,
        at <= place < recovery_outcome(depth, status, history, at).unwrap().1,
        history[place] is Exchange,
    ensures
        is_recovery_exchange(history[place]) || in_line_reset(history, at, place),
    decreases depth, 0nat,
{
    let nested = (depth - 1) as nat;
    let fresh = ACCESS_ATTEMPTS as nat;
    match status {
        TransferStatus::Failed(DapError::WaitResponse) => {
            let overrun = Ctrl { sticky_orun: true, sticky_err: false };
            lemma_nothing_else_in_clearing(nested, overrun, history, at, place);
        },
        TransferStatus::Failed(DapError::FaultResponse) => {
            let read = flags_request();
            let (result, next) = access_outcome(nested, read, fresh, history, at).unwrap();
            if place < next {
                law_nothing_else_is_exchanged(nested, read, fresh, history, at, place);
                law_attempts_are_bounded(nested, read, fresh, history, at);
            } else {
                let flags = Ctrl::spec_from_word(result.unwrap());
                lemma_access_ends_outside_reset(nested, read, fresh, history, at);
                lemma_in_line_reset_split(history, at, next, place);
                lemma_nothing_else_in_clearing(nested, flags, history, next, place);
            }
        },
        TransferStatus::Failed(_) => {
            lemma_inside_reset(history, at, at + 1);
        },
        _ => {},
    }
}

proof fn lemma_nothing_else_in_clearing(
    depth: nat,
    flags: Ctrl,
    history: Seq<ProbeEvent>,
    at: int,
    place: int,
)
    requires
        access_outcome(
            depth,
            clear_request(flags),
            ACCESS_ATTEMPTS as nat,
            history,
            at,
        ) is Some,
        at <= place < access_outcome(
            depth,
            clear_request(flags),
            ACCESS_ATTEMPTS as nat,
            history,
            at,
        ).unwrap().1,
        history[place] is Exchange,
    ensures
        is_recovery_exchange(history[place]) || in_line_reset(history, at, place),
    decreases depth, ACCESS_ATTEMPTS + 1,
{
    let clear = clear_request(flags);
    let fresh = ACCESS_ATTEMPTS as nat;
    law_nothing_else_is_exchanged(depth, clear, fresh, history, at, place);
    law_attempts_are_bounded(depth, clear, fresh, history, at);
}

/// An access that succeeds gives what the target answered to that very request, in
/// the last exchange.
pub proof fn law_access_gives_the_answer(
    depth: nat,
    request: SwdTransfer,
    attempts: nat,
    history: Seq<ProbeEvent>,
    at: int,
)
    requires
        access_outcome(depth, request, attempts, history, at) is Some,
        access_outcome(depth, request, attempts, history, at).unwrap().0 is Ok,
    ensures
        ({
            let (result, end) = access_outcome(depth, request, attempts, history, at).unwrap();
            schedule::batch_outcome(seq![request], history[end - 1]) matches Some(Ok(after))
                && after[0].status is Success && result == Ok::<u32, DebugProbeError>(
                after[0].value,
            )
        }),
    decreases attempts,
{
    let status = attempt_status(request, history[at]).unwrap();
    if !(status is Success) {
        let (_, next) = recovery_outcome(depth, status, history, at + 1).unwrap();
        let retries = (attempts - 1) as nat;
        law_access_gives_the_answer(depth, request, retries, history, next);
    }
}

/// A register that is read successfully gives the word in the last reply: the last
/// exchange performed this read, and its reply shows the word behind the start of the
/// answer.
pub proof fn law_read_gives_the_word_in_the_last_reply(
    depth: nat,
    port: PortType,
    address: u16,
    attempts: nat,
    history: Seq<ProbeEvent>,
    at: int,
    word: u32,
)
    requires
        ({
            let request = SwdTransfer::spec_read(port, address);
            access_outcome(depth, request, attempts, history, at) matches Some((result, _))
                && result == Ok::<u32, DebugProbeError>(word)
        }),
    ensures
        ({
            let request = SwdTransfer::spec_read(port, address);
            let (_, end) = access_outcome(depth, request, attempts, history, at).unwrap();
            probe::reply_to(
                schedule::line_cycles(schedule::on_line(seq![request])),
                history[end - 1],
            ) matches Some(Ok(reply)) && response::outcome(
                reply.skip(
                    if port is AccessPort {
                        48
                    } else {
                        0
                    },
                ),
                TransferDirection::Read,
            ) == Ok::<u32, DapError>(word)
        }),
{
    let request = SwdTransfer::spec_read(port, address);
    let (_, end) = access_outcome(depth, request, attempts, history, at).unwrap();
    law_access_gives_the_answer(depth, request, attempts, history, at);
    if let Some(Ok(reply)) = probe::reply_to(
        schedule::line_cycles(schedule::on_line(seq![request])),
        history[end - 1],
    ) {
        schedule::law_single_transfer_answer(request, reply);
    }
}

/// A request that the target accepts at once takes a single exchange.
pub proof fn law_accepted_request_takes_one_exchange(
    depth: nat,
    request: SwdTransfer,
    attempts: nat,
    history: Seq<ProbeEvent>,
    at: int,
    after: Seq<SwdTransfer>,
)
    requires
        attempts > 0,
        0 <= at < history.len(),
        schedule::batch_outcome(seq![request], history[at]) == Some(
            Ok::<Seq<SwdTransfer>, DebugProbeError>(after),
        ),
        after[0].status is Success,
    ensures
        access_outcome(depth, request, attempts, history, at) == Some(
            (Ok::<u32, DebugProbeError>(after[0].value), at + 1),
        ),
{
}

/// A request that the target answers with FAULT never succeeds, and is not attempted
/// again.
pub proof fn law_fault_is_never_success(
    depth: nat,
    request: SwdTransfer,
    attempts: nat,
    history: Seq<ProbeEvent>,
    at: int,
)
    requires
        attempts > 0,
        attempt_status(request, history[at]) == Some(
            TransferStatus::Failed(DapError::FaultResponse),
        ),
        access_outcome(depth, request, attempts, history, at) is Some,
    ensures
        access_outcome(depth, request, attempts, history, at).unwrap().0 is Err,
        attempt_places(depth, request, attempts, history, at) == seq![at],
        access_outcome(depth, request, 1, history, at) == access_outcome(
            depth,
            request,
            attempts,
            history,
            at,
        ),
{
}

/// Whether the attempt at `place` is retried at `next`: it failed with something other
/// than a FAULT, and recovering from that succeeds and ends there.
pub open spec fn retried_at(
    depth: nat,
    request: SwdTransfer,
    history: Seq<ProbeEvent>,
    place: int,
    next: int,
) -> bool {
    &&& 0 <= place < history.len()
    &&& attempt_status(request, history[place]) matches Some(status) && is_retried(status)
        && recovery_outcome(depth, status, history, place + 1) == Some(
        (Ok::<(), DebugProbeError>(()), next),
    )
}

/// Whether the attempt at `place` fails with a protocol error, and the line reset behind
/// it, whatever exchanges it takes, succeeds and ends at `next`.
pub open spec fn reset_until(
    request: SwdTransfer,
    history: Seq<ProbeEvent>,
    place: int,
    next: int,
) -> bool {
    &&& 0 <= place < history.len()
    &&& attempt_status(request, history[place]) matches Some(status) && is_protocol_error(status)
    &&& line_reset_outcome(history, place + 1) == Some((Ok::<(), DebugProbeError>(()), next))
}

/// Whether the attempt at `place` is answered with WAIT, and clearing the overrun behind
/// it, whatever that takes, succeeds and ends at `next`.
pub open spec fn cleared_until(
    depth: nat,
    request: SwdTransfer,
    history: Seq<ProbeEvent>,
    place: int,
    next: int,
) -> bool {
    &&& depth > 0
    &&& 0 <= place < history.len()
    &&& attempt_status(request, history[place]) == Some(
        TransferStatus::Failed(DapError::WaitResponse),
    )
    &&& access_outcome(
        (depth - 1) as nat,
        clear_overrun_request(),
        ACCESS_ATTEMPTS as nat,
        history,
        place + 1,
    ) matches Some((Ok(_), end)) && end == next
}

/// A request that is not accepted and not answered with FAULT in any of its attempts
/// times out, whatever it takes to recover after each of them, as long as that succeeds.
/// `places` are the places of the attempts, and the end of the last recovery.
pub proof fn law_unaccepted_request_times_out(
    depth: nat,
    request: SwdTransfer,
    attempts: nat,
    history: Seq<ProbeEvent>,
    places: Seq<int>,
)
    requires
        places.len() == attempts + 1,
        forall|k: int, n: int|
            0 <= k < attempts && n == k + 1 ==> retried_at(
                depth,
                request,
                history,
                #[trigger] places[k],
                #[trigger] places[n],
            ),
    ensures
        access_outcome(depth, request, attempts, history, places[0]) == Some(
            (Err::<u32, DebugProbeError>(DebugProbeError::Timeout), places.last()),
        ),
    decreases attempts,
{
    if attempts > 0 {
        let rest = places.drop_first();
        let retries = (attempts - 1) as nat;
        assert(retried_at(depth, request, history, places[0], places[1]));
        law_unaccepted_request_times_out(depth, request, retries, history, rest);
    }
}

/// A request that fails with a protocol error each time, with a line reset that succeeds
/// after each failure, whatever exchanges that takes, is attempted `attempts` times and
/// then times out. `places` are the places of the attempts, and the end of the last line
/// reset.
pub proof fn law_failing_request_times_out(
    depth: nat,
    request: SwdTransfer,
    attempts: nat,
    history: Seq<ProbeEvent>,
    places: Seq<int>,
)
    requires
        places.len() == attempts + 1,
        forall|k: int, n: int|
            0 <= k < attempts && n == k + 1 ==> reset_until(
                request,
                history,
                #[trigger] places[k],
                #[trigger] places[n],
            ),
    ensures
        access_outcome(depth, request, attempts, history, places[0]) == Some(
            (Err::<u32, DebugProbeError>(DebugProbeError::Timeout), places.last()),
        ),
{
    law_unaccepted_request_times_out(depth, request, attempts, history, places);
}

/// A request that the target answers with WAIT each time, and whose overrun is cleared
/// each time, whatever that takes, is attempted `attempts` times and then times out.
/// `places` are the places of the attempts, and the end of the last clearing.
pub proof fn law_waiting_request_times_out(
    depth: nat,
    request: SwdTransfer,
    attempts: nat,
    history: Seq<ProbeEvent>,
    places: Seq<int>,
)
    requires
        places.len() == attempts + 1,
        forall|k: int, n: int|
            0 <= k < attempts && n == k + 1 ==> cleared_until(
                depth,
                request,
                history,
                #[trigger] places[k],
                #[trigger] places[n],
            ),
    ensures
        access_outcome(depth, request, attempts, history, places[0]) == Some(
            (Err::<u32, DebugProbeError>(DebugProbeError::Timeout), places.last()),
        ),
{
    law_unaccepted_request_times_out(depth, request, attempts, history, places);
}

/// The limit to the nesting of recoveries is out of reach: where an access has no more
/// events than the limit, it comes out as with any higher limit.
pub proof fn law_depth_is_out_of_reach(
    depth: nat,
    higher: nat,
    request: SwdTransfer,
    attempts: nat,
    history: Seq<ProbeEvent>,
    at: int,
)
    requires
        depth <= higher,
        0 <= at <= history.len(),
        history.len() - at <= depth,
    ensures
        access_outcome(depth, request, attempts, history, at) == access_outcome(
            higher,
            request,
            attempts,
            history,
            at,
        ),
    decreases depth, attempts,
{
    if attempts > 0 && at < history.len() {
        if let Some(status) = attempt_status(request, history[at]) {
            if !(status is Success) {
                lemma_recovery_depth(depth, higher, status, history, at + 1);
                if let Some((Ok(()), next)) = recovery_outcome(depth, status, history, at + 1) {
                    let retries = (attempts - 1) as nat;
                    lemma_recovery_extends(depth, status, history, history, at + 1);
                    law_depth_is_out_of_reach(depth, higher, request, retries, history, next);
                }
            }
        }
    }
}

proof fn lemma_recovery_depth(
    depth: nat,
    higher: nat,
    status: TransferStatus,
    history: Seq<ProbeEvent>,
    at: int,
)
    requires
        0 < depth <= higher,
        0 <= at <= history.len(),
        history.len() - at < depth,
    ensures
        recovery_outcome(depth, status, history, at) == recovery_outcome(
            higher,
            status,
            history,
            at,
        ),
    decreases depth, 0nat,
{
    let nested = (depth - 1) as nat;
    let higher_nested = (higher - 1) as nat;
    let fresh = ACCESS_ATTEMPTS as nat;
    match status {
        TransferStatus::Failed(DapError::WaitResponse) => {
            let clear = clear_overrun_request();
            law_depth_is_out_of_reach(nested, higher_nested, clear, fresh, history, at);
        },
        TransferStatus::Failed(DapError::FaultResponse) => {
            let read = flags_request();
            law_depth_is_out_of_reach(nested, higher_nested, read, fresh, history, at);
            if let Some((Ok(word), next)) = access_outcome(nested, read, fresh, history, at) {
                let clear = clear_request(Ctrl::spec_from_word(word));
                lemma_access_extends(nested, read, fresh, history, history, at);
                law_depth_is_out_of_reach(nested, higher_nested, clear, fresh, history, next);
            }
        },
        _ => {},
    }
}

// ---------------------------------------------------------------------------
// An access, step by step
// ---------------------------------------------------------------------------
/// A register access has 20 attempts, and recoveries nest as deep as can be counted.
pub proof fn law_limits_of_an_access()
    ensures
        ACCESS_ATTEMPTS == 20,
        RECOVERY_DEPTH == usize::MAX,
{
}

/// Without an attempt left an access times out at once. With one, the first thing done with
/// the probe is to perform the request. If the probe fails that, its error is the result; if
/// the target accepts it, the value of the transfer is; and in both cases nothing follows.
pub proof fn law_access_starts_with_its_request(
    depth: nat,
    request: SwdTransfer,
    attempts: nat,
    history: Seq<ProbeEvent>,
    at: int,
)
    requires
        access_outcome(depth, request, attempts, history, at) is Some,
    ensures
        ({
            let outcome = access_outcome(depth, request, attempts, history, at);
            if attempts == 0 {
                outcome == Some((Err::<u32, DebugProbeError>(DebugProbeError::Timeout), at))
            } else {
                &&& 0 <= at < history.len()
                &&& match schedule::batch_outcome(seq![request], history[at]) {
                    None => false,
                    Some(Err(error)) => outcome == Some(
                        (Err::<u32, DebugProbeError>(error), at + 1),
                    ),
                    Some(Ok(after)) => {
                        &&& after.len() == 1
                        &&& after[0].status is Success || after[0].status is Failed
                        &&& after[0].status is Success ==> outcome == Some(
                            (Ok::<u32, DebugProbeError>(after[0].value), at + 1),
                        )
                    },
                }
            }
        }),
{
    if attempts > 0 {
        lemma_attempt_is_settled(request, history[at]);
    }
}

/// After a WAIT the overrun flag is cleared, by a write of 0x10 to register 0 of the debug
/// port that has 20 attempts of its own. If that fails, its error is the result. Else the
/// request is attempted again, with one attempt less.
pub proof fn law_wait_clears_the_overrun(
    depth: nat,
    request: SwdTransfer,
    attempts: nat,
    history: Seq<ProbeEvent>,
    at: int,
    after: Seq<SwdTransfer>,
)
    requires
        depth > 0,
        attempts > 0,
        0 <= at < history.len(),
        schedule::batch_outcome(seq![request], history[at]) == Some(
            Ok::<Seq<SwdTransfer>, DebugProbeError>(after),
        ),
        after[0].status == TransferStatus::Failed(DapError::WaitResponse),
    ensures
        ({
            let outcome = access_outcome(depth, request, attempts, history, at);
            let clear = SwdTransfer {
                port: PortType::DebugPort,
                direction: TransferDirection::Write,
                address: 0x0,
                value: 0x10,
                status: TransferStatus::Pending,
            };
            match access_outcome((depth - 1) as nat, clear, 20, history, at + 1) {
                None => outcome is None,
                Some((Err(error), end)) => outcome == Some(
                    (Err::<u32, DebugProbeError>(error), end),
                ),
                Some((Ok(_), next)) => outcome == access_outcome(
                    depth,
                    request,
                    (attempts - 1) as nat,
                    history,
                    next,
                ),
            }
        }),
{
    let cleared = access_outcome(
        (depth - 1) as nat,
        clear_overrun_request(),
        ACCESS_ATTEMPTS as nat,
        history,
        at + 1,
    );
    assert(recovery_outcome(depth, after[0].status, history, at + 1) is Some <==> cleared is Some);
}

/// After a FAULT the flags are read, from register 4 of the debug port. Bit 1 of the word
/// tells an overrun, which bit 4 of a write to register 0 clears; bit 5 tells an error,
/// which bit 2 clears. What is not set is not cleared, and if neither is set, nothing is
/// written. Both accesses have 20 attempts of their own, and the error of one that fails is
/// the result. Else the fault is.
pub proof fn law_fault_clears_what_is_set(
    depth: nat,
    request: SwdTransfer,
    attempts: nat,
    history: Seq<ProbeEvent>,
    at: int,
    after: Seq<SwdTransfer>,
)
    requires
        depth > 0,
        attempts > 0,
        0 <= at < history.len(),
        schedule::batch_outcome(seq![request], history[at]) == Some(
            Ok::<Seq<SwdTransfer>, DebugProbeError>(after),
        ),
        after[0].status == TransferStatus::Failed(DapError::FaultResponse),
    ensures
        ({
            let outcome = access_outcome(depth, request, attempts, history, at);
            let fault = Err::<u32, DebugProbeError>(
                DebugProbeError::ArchitectureSpecific(DapError::FaultResponse),
            );
            let read = SwdTransfer {
                port: PortType::DebugPort,
                direction: TransferDirection::Read,
                address: 0x4,
                value: 0,
                status: TransferStatus::Pending,
            };
            match access_outcome((depth - 1) as nat, read, 20, history, at + 1) {
                None => outcome is None,
                Some((Err(error), end)) => outcome == Some(
                    (Err::<u32, DebugProbeError>(error), end),
                ),
                Some((Ok(word), next)) => {
                    let overrun = word & 0x2 != 0;
                    let error = word & 0x20 != 0;
                    let clear = SwdTransfer {
                        port: PortType::DebugPort,
                        direction: TransferDirection::Write,
                        address: 0x0,
                        value: if overrun && error {
                            0x14
                        } else if overrun {
                            0x10
                        } else {
                            0x4
                        },
                        status: TransferStatus::Pending,
                    };
                    if overrun || error {
                        match access_outcome((depth - 1) as nat, clear, 20, history, next) {
                            None => outcome is None,
                            Some((Err(error), end)) => outcome == Some(
                                (Err::<u32, DebugProbeError>(error), end),
                            ),
                            Some((Ok(_), end)) => outcome == Some((fault, end)),
                        }
                    } else {
                        outcome == Some((fault, next))
                    }
                },
            }
        }),
{
    let flags = access_outcome(
        (depth - 1) as nat,
        flags_request(),
        ACCESS_ATTEMPTS as nat,
        history,
        at + 1,
    );
    assert(recovery_outcome(depth, after[0].status, history, at + 1) is Some ==> flags is Some);
    if let Some((Ok(word), _)) = flags {
        registers::law_ctrl_flags(word);
    }
}

/// Where no nested access is left, a WAIT or a FAULT ends an access at once.
pub proof fn law_no_depth_left_ends_access(
    request: SwdTransfer,
    attempts: nat,
    history: Seq<ProbeEvent>,
    at: int,
    after: Seq<SwdTransfer>,
)
    requires
        attempts > 0,
        0 <= at < history.len(),
        schedule::batch_outcome(seq![request], history[at]) == Some(
            Ok::<Seq<SwdTransfer>, DebugProbeError>(after),
        ),
        after[0].status == TransferStatus::Failed(DapError::WaitResponse) || after[0].status
            == TransferStatus::Failed(DapError::FaultResponse),
    ensures
        access_outcome(0, request, attempts, history, at) == Some(
            (Err::<u32, DebugProbeError>(DebugProbeError::RecoveryDepth), at + 1),
        ),
{
    assert(recovery_outcome(0, after[0].status, history, at + 1) is Some);
}

/// After a failure that is neither a WAIT nor a FAULT the line is reset, and nothing else is
/// done. Where that ends at `end`, after exchanges only, its error is the result, or else
/// the request is attempted again, with one attempt less.
pub proof fn law_other_failures_reset_the_line(
    depth: nat,
    request: SwdTransfer,
    attempts: nat,
    history: Seq<ProbeEvent>,
    at: int,
    after: Seq<SwdTransfer>,
    end: int,
)
    requires
        attempts > 0,
        0 <= at < history.len(),
        schedule::batch_outcome(seq![request], history[at]) == Some(
            Ok::<Seq<SwdTransfer>, DebugProbeError>(after),
        ),
        after[0].status is Failed,
        after[0].status != TransferStatus::Failed(DapError::WaitResponse),
        after[0].status != TransferStatus::Failed(DapError::FaultResponse),
    ensures
        ({
            let outcome = access_outcome(depth, request, attempts, history, at);
            &&& outcome is Some ==> at + 1 < history.len() && history[at + 1]
                == ProbeEvent::LineResetStart
            &&& at + 1 < end < history.len() && history[at + 1] == ProbeEvent::LineResetStart && (
            forall|i: int| at + 1 < i < end ==> (#[trigger] history[i]) is Exchange) ==> (
            history[end] matches ProbeEvent::LineReset { outcome: reset } ==> match reset {
                Err(error) => outcome == Some((Err::<u32, DebugProbeError>(error), end + 1)),
                Ok(()) => outcome == access_outcome(
                    depth,
                    request,
                    (attempts - 1) as nat,
                    history,
                    end + 1,
                ),
            })
        }),
{
    let status = after[0].status;
    assert(recovery_outcome(depth, status, history, at + 1) == line_reset_outcome(
        history,
        at + 1,
    ));
    if at + 1 < end < history.len() && history[at + 1] == ProbeEvent::LineResetStart && (forall|
        i: int,
    | at + 1 < i < end ==> (#[trigger] history[i]) is Exchange) && history[end] is LineReset {
        lemma_reset_remainder_skips(history, at + 2, end);
    }
}

/// Exchanges are skipped until a line reset ends.
proof fn lemma_reset_remainder_skips(history: Seq<ProbeEvent>, at: int, end: int)
    requires
        0 <= at <= end < history.len(),
        forall|i: int| at <= i < end ==> (#[trigger] history[i]) is Exchange,
        history[end] is LineReset,
    ensures
        reset_remainder(history, at) == Some((history[end]->outcome, end + 1)),
    decreases end - at,
{
    if at < end {
        assert(history[at] is Exchange);
        lemma_reset_remainder_skips(history, at + 1, end);
    }
}

} // verus!
