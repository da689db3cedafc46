use vstd::prelude::*;

use crate::batch::perform_transfers;
use crate::error::{DapError, DebugProbeError};
use crate::probe;
use crate::probe::{ProbeEvent, RawSwdIo};
use crate::recovery;
use crate::recovery::{ACCESS_ATTEMPTS, RECOVERY_DEPTH};
use crate::registers::{Abort, Ctrl, PortType, ABORT_ADDRESS, CTRL_ADDRESS};
use crate::response;
use crate::schedule;
use crate::sequence::Cycle;
use crate::transfer;
use crate::transfer::{SwdTransfer, TransferDirection, TransferStatus, TransferType};

verus! {

// ---------------------------------------------------------------------------
// Accessing one register
// ---------------------------------------------------------------------------
/// Clears the sticky flags given.
fn clear_flags(flags: Ctrl) -> (request: SwdTransfer)
    ensures
        request == recovery::clear_request(flags),
{
    let abort = Abort { orunerrclr: flags.sticky_orun, stkerrclr: flags.sticky_err };
    SwdTransfer::write(PortType::DebugPort, ABORT_ADDRESS, abort.value())
}

/// Attempts `request` until it succeeds or fails for good, and recovers from the
/// answers of the target that allow it. The accesses that this takes are nested at
/// most `depth` deep.
pub fn access_register<P: RawSwdIo>(probe: &mut P, request: SwdTransfer, depth: usize) -> (result:
    Result<u32, DebugProbeError>)
    ensures
        probe::extends(old(probe).history(), final(probe).history()),
        recovery::access_outcome(
            depth as nat,
            request,
            ACCESS_ATTEMPTS as nat,
            final(probe).history(),
            old(probe).history().len() as int,
        ) == Some((result, final(probe).history().len() as int)),
    decreases depth,
{
    let ghost start = probe.history();
    let ghost at = start.len() as int;
    let ghost full = ACCESS_ATTEMPTS as nat;
    let mut attempts: u32 = ACCESS_ATTEMPTS;
    while attempts > 0
        invariant
            start == old(probe).history(),
            at == start.len(),
            full == ACCESS_ATTEMPTS,
            probe::extends(start, probe.history()),
            // Whatever follows, the whole access comes out as what is left of it.
            forall|later: Seq<ProbeEvent>| #[trigger]
                probe::extends(probe.history(), later) ==> recovery::access_outcome(
                    depth as nat,
                    request,
                    full,
                    later,
                    at,
                ) == recovery::access_outcome(
                    depth as nat,
                    request,
                    attempts as nat,
                    later,
                    probe.history().len() as int,
                ),
        decreases attempts,
    {
        let ghost before = probe.history();
        attempts = attempts - 1;

        let mut transfers: Vec<SwdTransfer> = Vec::new();
        transfers.push(request);
        assert(transfers@ =~= seq![request]);
        let outcome = perform_transfers(probe, transfers.as_mut_slice());
        let ghost performed = probe.history();
        assert(probe::extends(before, performed));
        if let Err(error) = outcome {
            return Err(error);
        }
        match transfers[0].status {
            TransferStatus::Success => {
                return Ok(transfers[0].value);
            },
            TransferStatus::Pending => {},
            TransferStatus::Failed(DapError::WaitResponse) => {
                // Overrun detection is in use, so the overrun has to be cleared.
                if depth == 0 {
                    return Err(DebugProbeError::RecoveryDepth);
                }
                let clear = clear_flags(Ctrl { sticky_orun: true, sticky_err: false });
                let cleared = access_register(probe, clear, depth - 1);
                assert(probe::extends(before, probe.history()));
                assert(recovery::recovery_outcome(
                    depth as nat,
                    transfers@[0].status,
                    probe.history(),
                    performed.len() as int,
                ) == Some((without_value(cleared), probe.history().len() as int)));
                if let Err(error) = cleared {
                    return Err(error);
                }
            },
            TransferStatus::Failed(DapError::FaultResponse) => {
                // The flags in the control register tell what happened.
                if depth == 0 {
                    return Err(DebugProbeError::RecoveryDepth);
                }
                let read = SwdTransfer::read(PortType::DebugPort, CTRL_ADDRESS);
                let flags_word = access_register(probe, read, depth - 1);
                let ghost flags_read = probe.history();
                assert(probe::extends(before, flags_read));
                let word: u32 = match flags_word {
                    Ok(word) => word,
                    Err(error) => {
                        assert(recovery::recovery_outcome(
                            depth as nat,
                            transfers@[0].status,
                            probe.history(),
                            performed.len() as int,
                        ) == Some((Err::<(), DebugProbeError>(error), flags_read.len() as int)));
                        return Err(error);
                    },
                };
                let flags = Ctrl::from_word(word);
                if flags.sticky_orun || flags.sticky_err {
                    let cleared = access_register(probe, clear_flags(flags), depth - 1);
                    proof {
                        assert(probe::extends(before, probe.history()));
                        recovery::lemma_access_extends(
                            (depth - 1) as nat,
                            recovery::flags_request(),
                            full,
                            flags_read,
                            probe.history(),
                            performed.len() as int,
                        );
                        assert(recovery::recovery_outcome(
                            depth as nat,
                            transfers@[0].status,
                            probe.history(),
                            performed.len() as int,
                        ) == Some((without_value(cleared), probe.history().len() as int)));
                    }
                    if let Err(error) = cleared {
                        return Err(error);
                    }
                }
                assert(recovery::recovery_outcome(
                    depth as nat,
                    transfers@[0].status,
                    probe.history(),
                    performed.len() as int,
                ) == Some((Ok::<(), DebugProbeError>(()), probe.history().len() as int)));
                return Err(DebugProbeError::from(DapError::FaultResponse));
            },
            TransferStatus::Failed(_) => {
                // The target might be in a weird state, from which a line reset should
                // get it out.
                let reset = probe.swd_line_reset();
                proof {
                    recovery::lemma_line_reset_found(performed, probe.history(), reset);
                    assert(probe::extends(before, probe.history()));
                    assert(recovery::recovery_outcome(
                        depth as nat,
                        transfers@[0].status,
                        probe.history(),
                        performed.len() as int,
                    ) == Some((reset, probe.history().len() as int)));
                }
                if let Err(error) = reset {
                    return Err(error);
                }
            },
        }
        proof {
            let recovered = probe.history();
            assert forall|later: Seq<ProbeEvent>| #[trigger]
                probe::extends(recovered, later) implies recovery::access_outcome(
                depth as nat,
                request,
                full,
                later,
                at,
            ) == recovery::access_outcome(
                depth as nat,
                request,
                attempts as nat,
                later,
                recovered.len() as int,
            ) by {
                assert(probe::extends(before, later));
                assert(later[before.len() as int] == performed[before.len() as int]);
                recovery::lemma_recovery_extends(
                    depth as nat,
                    transfers@[0].status,
                    recovered,
                    later,
                    performed.len() as int,
                );
            }
        }
    }
    assert(probe::extends(probe.history(), probe.history()));
    Err(DebugProbeError::Timeout)
}

/// The first exchange of an access performs its request: it drives the cycles of a read from
/// or a write to the very register, the write with the very value, and behind them what it
/// takes to get the answer. If the access succeeds, the last exchange does the same, and its
/// reply holds the answer.
pub proof fn law_register_exchanges(
    depth: nat,
    request: SwdTransfer,
    attempts: nat,
    history: Seq<ProbeEvent>,
    at: int,
)
    requires
        attempts > 0,
        recovery::access_outcome(depth, request, attempts, history, at) is Some,
    ensures
        ({
            let (result, end) = recovery::access_outcome(
                depth,
                request,
                attempts,
                history,
                at,
            ).unwrap();
            let fetch = transfer::transfer_cycles(PortType::DebugPort, TransferType::Read, 0xC);
            let own = transfer::transfer_cycles(
                request.port,
                if request.direction is Read {
                    TransferType::Read
                } else {
                    TransferType::Write(request.value)
                },
                request.address,
            );
            let cycles = if request.direction is Write {
                own + Seq::new(16, |i: int| Cycle::Drive(false)) + fetch
            } else if request.port == PortType::DebugPort {
                own
            } else {
                own + fetch
            };
            let answer = if request.direction is Write {
                64int
            } else if request.port == PortType::DebugPort {
                0
            } else {
                48
            };
            &&& 0 <= at < history.len()
            &&& probe::reply_to(cycles, history[at]) is Some
            &&& result matches Ok(word) ==> (probe::reply_to(
                cycles,
                history[end - 1],
            ) matches Some(Ok(reply)) && (response::outcome(
                reply.skip(answer),
                TransferDirection::Read,
            ) matches Ok(read) && word == if request.direction is Read {
                read
            } else {
                request.value
            }))
        }),
{
    let transfers = seq![request];
    let line = schedule::on_line(transfers);
    let (result, end) = recovery::access_outcome(depth, request, attempts, history, at).unwrap();
    recovery::law_access_starts_with_its_request(depth, request, attempts, history, at);
    schedule::law_single_transfer_line(request);
    schedule::law_line_by_position(transfers, 0);
    schedule::law_slot_by_position(line, 0);
    if result is Ok {
        recovery::law_access_gives_the_answer(depth, request, attempts, history, at);
        if let ProbeEvent::Exchange { reply: Ok(reply), .. } = history[end - 1] {
            schedule::law_transfer_is_settled_by_its_slot(transfers, reply, 0);
        }
    }
}

// ---------------------------------------------------------------------------
// Accessing a block
// ---------------------------------------------------------------------------
/// One transfer for each of `values`, each a write of that value to the same
/// register.
pub open spec fn block_writes(port: PortType, address: u16, values: Seq<u32>) -> Seq<SwdTransfer> {
    values.map_values(|value: u32| SwdTransfer::spec_write(port, address, value))
}

/// `count` reads from the same register.
pub open spec fn block_reads(port: PortType, address: u16, count: nat) -> Seq<SwdTransfer> {
    Seq::new(count, |i: int| SwdTransfer::spec_read(port, address))
}

/// How many of `transfers` come before the first that failed.
pub open spec fn before_failure(transfers: Seq<SwdTransfer>) -> nat
    decreases transfers.len(),
{
    if transfers.len() == 0 || transfers[0].status is Failed {
        0
    } else {
        1 + before_failure(transfers.drop_first())
    }
}

/// The result of a block access: the error of the first transfer that failed.
pub open spec fn block_result(transfers: Seq<SwdTransfer>) -> Result<(), DebugProbeError> {
    let good = before_failure(transfers);
    if good < transfers.len() {
        match transfers[good as int].status {
            TransferStatus::Failed(error) => Err(DebugProbeError::ArchitectureSpecific(error)),
            _ => Ok(()),
        }
    } else {
        Ok(())
    }
}

/// What a block read leaves in `values`: the values of the transfers that come before
/// the first that failed; the others are as they were.
pub open spec fn block_values(values: Seq<u32>, transfers: Seq<SwdTransfer>) -> Seq<u32> {
    Seq::new(
        values.len(),
        |i: int|
            if i < before_failure(transfers) {
                transfers[i].value
            } else {
                values[i]
            },
    )
}

/// The result of an access of whose value no use is made.
pub open spec fn without_value(result: Result<u32, DebugProbeError>) -> Result<
    (),
    DebugProbeError,
> {
    match result {
        Ok(_) => Ok(()),
        Err(error) => Err(error),
    }
}

/// Before the first failure nothing failed.
proof fn lemma_before_failure(transfers: Seq<SwdTransfer>, good: int)
    requires
        0 <= good <= transfers.len(),
        forall|i: int| 0 <= i < good ==> !((#[trigger] transfers[i]).status is Failed),
        good < transfers.len() ==> transfers[good].status is Failed,
    ensures
        before_failure(transfers) == good,
    decreases transfers.len(),
{
    if good > 0 {
        let rest = transfers.drop_first();
        assert forall|i: int| 0 <= i < good - 1 implies !((
        #[trigger] rest[i]).status is Failed) by {
            assert(rest[i] == transfers[i + 1]);
        }
        lemma_before_failure(rest, good - 1);
    }
}

/// A block access succeeds if and only if none of its transfers failed, and a block
/// read then delivers the values of all of them.
pub proof fn law_block_succeeds_as_a_whole(values: Seq<u32>, transfers: Seq<SwdTransfer>)
    requires
        values.len() == transfers.len(),
    ensures
        block_result(transfers) is Ok <==> forall|i: int|
            0 <= i < transfers.len() ==> !((#[trigger] transfers[i]).status is Failed),
        block_result(transfers) is Ok ==> forall|i: int|
            0 <= i < transfers.len() ==> #[trigger] block_values(values, transfers)[i]
                == transfers[i].value,
{
    lemma_before_failure_is_first(transfers);
}

proof fn lemma_before_failure_is_first(transfers: Seq<SwdTransfer>)
    ensures
        before_failure(transfers) <= transfers.len(),
        forall|i: int|
            0 <= i < before_failure(transfers) ==> !((#[trigger] transfers[i]).status is Failed),
        before_failure(transfers) < transfers.len() ==> transfers[before_failure(
            transfers,
        ) as int].status is Failed,
    decreases transfers.len(),
{
    if transfers.len() > 0 && !(transfers[0].status is Failed) {
        let rest = transfers.drop_first();
        lemma_before_failure_is_first(rest);
        assert forall|i: int| 0 <= i < before_failure(transfers) implies !((
        #[trigger] transfers[i]).status is Failed) by {
            if i > 0 {
                assert(rest[i - 1] == transfers[i]);
            }
        }
    }
}

/// The transfers of a block, one by one: each is to the register and the port given, and the
/// writes carry the values in their order.
pub proof fn law_block_transfer_by_transfer(
    port: PortType,
    address: u16,
    values: Seq<u32>,
    k: int,
)
    requires
        0 <= k < values.len(),
    ensures
        block_reads(port, address, values.len()).len() == values.len(),
        block_reads(port, address, values.len())[k] == (SwdTransfer {
            port,
            direction: TransferDirection::Read,
            address,
            value: 0,
            status: TransferStatus::Pending,
        }),
        block_writes(port, address, values).len() == values.len(),
        block_writes(port, address, values)[k] == (SwdTransfer {
            port,
            direction: TransferDirection::Write,
            address,
            value: values[k],
            status: TransferStatus::Pending,
        }),
{
}

/// The line of a block: its transfers, one right behind the other, and a read from RDBUFF
/// behind the last if its answer comes late.
proof fn lemma_block_line(transfers: Seq<SwdTransfer>, reads: bool, k: int)
    requires
        0 <= k < transfers.len(),
        forall|i: int|
            0 <= i < transfers.len() ==> (#[trigger] transfers[i]).port == transfers[0].port
                && transfers[i].direction == transfers[0].direction && transfers[i].address
                == transfers[0].address,
        reads == (transfers[0].direction is Read),
    ensures
        ({
            let line = schedule::on_line(transfers);
            let width = if reads {
                48int
            } else {
                64int
            };
            let late = !reads || transfers[0].port != PortType::DebugPort;
            &&& schedule::place(transfers, k) == k
            &&& schedule::answer_place(transfers, k) == if late {
                k + 1
            } else {
                k
            }
            &&& line[k] == transfers[k]
            &&& schedule::slot_start(line, k) == width * k
            &&& schedule::slot_start(line, k + 1) == width * (k + 1)
            &&& k + 1 == transfers.len() ==> if late {
                &&& line.len() == k + 2
                &&& line[k + 1].port == PortType::DebugPort
                &&& line[k + 1].direction is Read
                &&& line[k + 1].address == 0xC
            } else {
                line.len() == k + 1
            }
        }),
    decreases k,
{
    schedule::law_line_by_position(transfers, k);
    let line = schedule::on_line(transfers);
    if k > 0 {
        lemma_block_line(transfers, reads, k - 1);
        schedule::law_line_by_position(transfers, k - 1);
        assert(transfers[k].port == transfers[0].port);
        assert(transfers[k - 1].port == transfers[0].port);
    }
    schedule::law_slot_by_position(line, k);
}

/// What a block read puts on the line: the cycles of a read from the register, once for each
/// value, and for an access port those of a read from register 0xC of the debug port behind
/// the last. An empty block puts nothing on the line.
pub proof fn law_block_read_by_position(port: PortType, address: u16, count: nat)
    ensures
        ({
            let cycles = schedule::line_cycles(
                schedule::on_line(block_reads(port, address, count)),
            );
            let read = transfer::transfer_cycles(port, TransferType::Read, address);
            let fetch = transfer::transfer_cycles(PortType::DebugPort, TransferType::Read, 0xC);
            &&& cycles.len() == if port == PortType::DebugPort || count == 0 {
                48 * count
            } else {
                48 * count + 48
            }
            &&& forall|i: int| 0 <= i < 48 * count ==> #[trigger] cycles[i] == read[i % 48]
            &&& forall|i: int|
                48 * count <= i < cycles.len() ==> #[trigger] cycles[i] == fetch[i - 48 * count]
        }),
{
    let transfers = block_reads(port, address, count);
    let line = schedule::on_line(transfers);
    let cycles = schedule::line_cycles(line);
    let read = transfer::transfer_cycles(port, TransferType::Read, address);
    let fetch = transfer::transfer_cycles(PortType::DebugPort, TransferType::Read, 0xC);
    if count == 0 {
        assert(transfers =~= Seq::<SwdTransfer>::empty());
        schedule::law_empty_batch_is_an_empty_line();
    } else {
        lemma_block_line(transfers, true, count - 1);
        schedule::law_slot_by_position(line, count - 1);
        assert forall|i: int| 0 <= i < 48 * count implies #[trigger] cycles[i] == read[i % 48] by {
            let k = i / 48;
            lemma_block_line(transfers, true, k);
            schedule::law_line_by_position(transfers, k);
            schedule::law_slot_by_position(line, k);
            assert(cycles.subrange(48 * k, 48 * k + 48)[i % 48] == cycles[i]);
        }
        if port != PortType::DebugPort {
            let end = 48 * count as int;
            schedule::law_slot_by_position(line, count as int);
            assert forall|i: int| 48 * count <= i < cycles.len() implies #[trigger] cycles[i]
                == fetch[i - 48 * count] by {
                assert(cycles.subrange(end, end + 48)[i - end] == cycles[i]);
            }
        }
    }
}

/// What a block write puts on the line: for each value the cycles of a write of that value to
/// the register and 16 cycles with the line low, and those of a read from register 0xC of the
/// debug port behind the last. An empty block puts nothing on the line.
pub proof fn law_block_write_by_position(port: PortType, address: u16, values: Seq<u32>)
    ensures
        ({
            let cycles = schedule::line_cycles(
                schedule::on_line(block_writes(port, address, values)),
            );
            let count = values.len();
            let fetch = transfer::transfer_cycles(PortType::DebugPort, TransferType::Read, 0xC);
            &&& cycles.len() == if count == 0 {
                0
            } else {
                64 * count + 48
            }
            &&& forall|i: int|
                0 <= i < 64 * count ==> #[trigger] cycles[i] == if i % 64 < 48 {
                    transfer::transfer_cycles(
                        port,
                        TransferType::Write(values[i / 64]),
                        address,
                    )[i % 64]
                } else {
                    Cycle::Drive(false)
                }
            &&& forall|i: int|
                64 * count <= i < cycles.len() ==> #[trigger] cycles[i] == fetch[i - 64 * count]
        }),
{
    let transfers = block_writes(port, address, values);
    let line = schedule::on_line(transfers);
    let cycles = schedule::line_cycles(line);
    let count = values.len();
    let fetch = transfer::transfer_cycles(PortType::DebugPort, TransferType::Read, 0xC);
    if count == 0 {
        assert(transfers =~= Seq::<SwdTransfer>::empty());
        schedule::law_empty_batch_is_an_empty_line();
    } else {
        lemma_block_line(transfers, false, count - 1);
        schedule::law_slot_by_position(line, count - 1);
        assert forall|i: int| 0 <= i < 64 * count implies #[trigger] cycles[i] == if i % 64 < 48 {
            transfer::transfer_cycles(port, TransferType::Write(values[i / 64]), address)[i % 64]
        } else {
            Cycle::Drive(false)
        } by {
            let k = i / 64;
            lemma_block_line(transfers, false, k);
            schedule::law_line_by_position(transfers, k);
            schedule::law_slot_by_position(line, k);
            if i % 64 < 48 {
                assert(cycles.subrange(64 * k, 64 * k + 48)[i % 64] == cycles[i]);
            }
        }
        let end = 64 * count as int;
        schedule::law_slot_by_position(line, count as int);
        assert forall|i: int| 64 * count <= i < cycles.len() implies #[trigger] cycles[i]
            == fetch[i - 64 * count] by {
            assert(cycles.subrange(end, end + 48)[i - end] == cycles[i]);
        }
    }
}

/// How read `k` of a block is settled: by what the reply shows 48 cycles behind the read
/// before, and for an access port another 48 cycles later.
pub proof fn law_block_read_is_settled(
    port: PortType,
    address: u16,
    count: nat,
    reply: Seq<bool>,
    k: int,
)
    requires
        0 <= k < count,
    ensures
        ({
            let after = schedule::all_settled(block_reads(port, address, count), reply);
            let answer = reply.skip(
                if port == PortType::DebugPort {
                    48 * k
                } else {
                    48 * k + 48
                },
            );
            &&& after.len() == count
            &&& match response::outcome(answer, TransferDirection::Read) {
                Ok(word) => after[k].status == TransferStatus::Success && after[k].value == word,
                Err(error) => after[k].status == TransferStatus::Failed(error),
            }
        }),
{
    let transfers = block_reads(port, address, count);
    lemma_block_line(transfers, true, k);
    if k + 1 < count {
        lemma_block_line(transfers, true, k + 1);
    }
    schedule::law_transfer_is_settled_by_its_slot(transfers, reply, k);
}

/// How write `k` of a block is settled: by what the reply shows for the transfer behind it,
/// 64 cycles later. That is the next write, or a read behind the last.
pub proof fn law_block_write_is_settled(
    port: PortType,
    address: u16,
    values: Seq<u32>,
    reply: Seq<bool>,
    k: int,
)
    requires
        0 <= k < values.len(),
    ensures
        ({
            let after = schedule::all_settled(block_writes(port, address, values), reply);
            let behind = if k + 1 < values.len() {
                TransferDirection::Write
            } else {
                TransferDirection::Read
            };
            &&& after.len() == values.len()
            &&& match response::outcome(reply.skip(64 * k + 64), behind) {
                Ok(_) => after[k].status == TransferStatus::Success,
                Err(error) => after[k].status == TransferStatus::Failed(error),
            }
        }),
{
    let transfers = block_writes(port, address, values);
    lemma_block_line(transfers, false, k);
    if k + 1 < values.len() {
        lemma_block_line(transfers, false, k + 1);
    }
    schedule::law_transfer_is_settled_by_its_slot(transfers, reply, k);
}

/// A block access fails with the error of the first of its transfers that failed. A block
/// read delivers the values of the transfers before that one, and touches no other.
pub proof fn law_block_stops_at_the_first_failure(
    values: Seq<u32>,
    transfers: Seq<SwdTransfer>,
    k: int,
)
    requires
        values.len() == transfers.len(),
        0 <= k < transfers.len(),
    ensures
        block_values(values, transfers).len() == values.len(),
        (forall|i: int| 0 <= i < k ==> !((#[trigger] transfers[i]).status is Failed)) ==> (
        transfers[k].status matches TransferStatus::Failed(error) ==> block_result(transfers)
            == Err::<(), DebugProbeError>(DebugProbeError::ArchitectureSpecific(error))),
        (forall|i: int| 0 <= i <= k ==> !((#[trigger] transfers[i]).status is Failed))
            ==> block_values(values, transfers)[k] == transfers[k].value,
        (exists|i: int| 0 <= i <= k && (#[trigger] transfers[i]).status is Failed) ==> block_values(
            values,
            transfers,
        )[k] == values[k],
{
    lemma_before_failure_is_first(transfers);
    let good = before_failure(transfers) as int;
    if good < transfers.len() {
        assert(transfers[good].status is Failed);
    }
}

/// Of the result of a write only whether it succeeded is kept, or why not.
pub proof fn law_only_the_value_is_dropped(result: Result<u32, DebugProbeError>)
    ensures
        match result {
            Ok(_) => without_value(result) == Ok::<(), DebugProbeError>(()),
            Err(error) => without_value(result) == Err::<(), DebugProbeError>(error),
        },
{
}

/// Hands the values that the transfers of a block read to `values`, up to the first
/// transfer that failed.
pub fn take_values(values: &mut [u32], transfers: &[SwdTransfer]) -> (result: Result<
    (),
    DebugProbeError,
>)
    requires
        old(values)@.len() == transfers@.len(),
        forall|i: int|
            0 <= i < transfers@.len() ==> !((#[trigger] transfers@[i]).status is Pending),
    ensures
        result == block_result(transfers@),
        final(values)@ == block_values(old(values)@, transfers@),
{
    let ghost before = values@;
    let mut index: usize = 0;
    while index < transfers.len()
        invariant
            index <= transfers@.len() == values@.len() == before.len(),
            before == old(values)@,
            forall|i: int| 0 <= i < index ==> !((#[trigger] transfers@[i]).status is Failed),
            forall|i: int| 0 <= i < index ==> #[trigger] values@[i] == transfers@[i].value,
            forall|i: int| index <= i < before.len() ==> #[trigger] values@[i] == before[i],
            forall|i: int|
                0 <= i < transfers@.len() ==> !((#[trigger] transfers@[i]).status is Pending),
        decreases transfers@.len() - index,
    {
        if let TransferStatus::Failed(error) = transfers[index].status {
            proof {
                lemma_before_failure(transfers@, index as int);
                assert(values@ =~= block_values(before, transfers@));
            }
            return Err(DebugProbeError::from(error));
        }
        values[index] = transfers[index].value;
        index = index + 1;
    }
    proof {
        lemma_before_failure(transfers@, index as int);
        assert(values@ =~= block_values(before, transfers@));
    }
    Ok(())
}

/// Whether all transfers of a block succeeded; if not, the error of the first that
/// did not.
pub fn check_block(transfers: &[SwdTransfer]) -> (result: Result<(), DebugProbeError>)
    requires
        forall|i: int|
            0 <= i < transfers@.len() ==> !((#[trigger] transfers@[i]).status is Pending),
    ensures
        result == block_result(transfers@),
{
    let mut index: usize = 0;
    while index < transfers.len()
        invariant
            index <= transfers@.len(),
            forall|i: int| 0 <= i < index ==> !((#[trigger] transfers@[i]).status is Failed),
        decreases transfers@.len() - index,
    {
        if let TransferStatus::Failed(error) = transfers[index].status {
            proof {
                lemma_before_failure(transfers@, index as int);
            }
            return Err(DebugProbeError::from(error));
        }
        index = index + 1;
    }
    proof {
        lemma_before_failure(transfers@, index as int);
    }
    Ok(())
}

/// Access to the registers of the debug port and of the access ports of a target.
pub trait DAPAccess {
    /// Reads the register at `address` of `port`.
    fn read_register(&mut self, port: PortType, address: u16) -> Result<u32, DebugProbeError>;

    /// Reads the register at `address` of `port` once for each of `values`.
    fn read_block(&mut self, port: PortType, address: u16, values: &mut [u32]) -> Result<
        (),
        DebugProbeError,
    >;

    /// Writes `value` to the register at `address` of `port`.
    fn write_register(&mut self, port: PortType, address: u16, value: u32) -> Result<
        (),
        DebugProbeError,
    >;

    /// Writes each of `values` to the register at `address` of `port`.
    fn write_block(&mut self, port: PortType, address: u16, values: &[u32]) -> Result<
        (),
        DebugProbeError,
    >;
}

impl<Probe: RawSwdIo> DAPAccess for Probe {
    fn read_register(&mut self, port: PortType, address: u16) -> (result: Result<
        u32,
        DebugProbeError,
    >)
        ensures
            probe::extends(old(self).history(), final(self).history()),
            recovery::access_outcome(
                RECOVERY_DEPTH as nat,
                SwdTransfer::spec_read(port, address),
                ACCESS_ATTEMPTS as nat,
                final(self).history(),
                old(self).history().len() as int,
            ) == Some((result, final(self).history().len() as int)),
            // The first exchange reads this very register. The last one does so too if a word
            // is returned, and the word is the one in its reply.
            ({
                let start = old(self).history().len() as int;
                let events = final(self).history();
                let read = transfer::transfer_cycles(port, TransferType::Read, address);
                let fetch = transfer::transfer_cycles(PortType::DebugPort, TransferType::Read, 0xC);
                let cycles = if port == PortType::DebugPort {
                    read
                } else {
                    read + fetch
                };
                &&& start < events.len()
                &&& probe::reply_to(cycles, events[start]) is Some
                &&& result matches Ok(word) ==> (probe::reply_to(
                    cycles,
                    events.last(),
                ) matches Some(Ok(reply)) && response::outcome(
                    reply.skip(
                        if port == PortType::DebugPort {
                            0
                        } else {
                            48
                        },
                    ),
                    TransferDirection::Read,
                ) == Ok::<u32, DapError>(word))
            }),
    {
        let ghost start = self.history().len() as int;
        let result = access_register(self, SwdTransfer::read(port, address), RECOVERY_DEPTH);
        proof {
            law_register_exchanges(
                RECOVERY_DEPTH as nat,
                SwdTransfer::spec_read(port, address),
                ACCESS_ATTEMPTS as nat,
                self.history(),
                start,
            );
        }
        result
    }

    fn read_block(&mut self, port: PortType, address: u16, values: &mut [u32]) -> (result: Result<
        (),
        DebugProbeError,
    >)
        ensures
            final(self).history() == old(self).history().push(final(self).history().last()),
            match schedule::batch_outcome(
                block_reads(port, address, old(values)@.len()),
                final(self).history().last(),
            ) {
                Some(Ok(after)) => result == block_result(after) && final(values)@ == block_values(
                    old(values)@,
                    after,
                ),
                Some(Err(error)) => result == Err::<(), DebugProbeError>(error) && final(values)@
                    == old(values)@,
                None => false,
            },
            // The exchange reads this very register, once for each value.
            ({
                let count = old(values)@.len();
                let read = transfer::transfer_cycles(port, TransferType::Read, address);
                let fetch = transfer::transfer_cycles(PortType::DebugPort, TransferType::Read, 0xC);
                let cycles = Seq::new(
                    if port == PortType::DebugPort || count == 0 {
                        48 * count
                    } else {
                        48 * count + 48
                    },
                    |i: int|
                        if i < 48 * count {
                            read[i % 48]
                        } else {
                            fetch[i - 48 * count]
                        },
                );
                probe::reply_to(cycles, final(self).history().last()) is Some
            }),
    {
        proof {
            let count = values@.len();
            let read = transfer::transfer_cycles(port, TransferType::Read, address);
            let fetch = transfer::transfer_cycles(PortType::DebugPort, TransferType::Read, 0xC);
            let line = schedule::line_cycles(schedule::on_line(block_reads(port, address, count)));
            law_block_read_by_position(port, address, count);
            assert(line =~= Seq::new(
                if port == PortType::DebugPort || count == 0 {
                    48 * count
                } else {
                    48 * count + 48
                },
                |i: int|
                    if i < 48 * count {
                        read[i % 48]
                    } else {
                        fetch[i - 48 * count]
                    },
            ));
        }
        let mut transfers: Vec<SwdTransfer> = vec![SwdTransfer::read(port, address); values.len()];
        assert(transfers@ =~= block_reads(port, address, values@.len()));
        if let Err(error) = perform_transfers(self, transfers.as_mut_slice()) {
            return Err(error);
        }
        take_values(values, transfers.as_slice())
    }

    fn write_register(&mut self, port: PortType, address: u16, value: u32) -> (result: Result<
        (),
        DebugProbeError,
    >)
        ensures
            probe::extends(old(self).history(), final(self).history()),
            match recovery::access_outcome(
                RECOVERY_DEPTH as nat,
                SwdTransfer::spec_write(port, address, value),
                ACCESS_ATTEMPTS as nat,
                final(self).history(),
                old(self).history().len() as int,
            ) {
                Some((access, end)) => {
                    &&& result == without_value(access)
                    &&& end == final(self).history().len()
                },
                None => false,
            },
            // The first exchange writes this very value to this very register. The last one
            // does so too if the write succeeds, and its reply says that it did.
            ({
                let start = old(self).history().len() as int;
                let events = final(self).history();
                let write = transfer::transfer_cycles(port, TransferType::Write(value), address);
                let fetch = transfer::transfer_cycles(PortType::DebugPort, TransferType::Read, 0xC);
                let cycles = write + Seq::new(16, |i: int| Cycle::Drive(false)) + fetch;
                &&& start < events.len()
                &&& probe::reply_to(cycles, events[start]) is Some
                &&& result is Ok ==> (probe::reply_to(cycles, events.last()) matches Some(Ok(reply))
                    && response::outcome(reply.skip(64), TransferDirection::Read) is Ok)
            }),
    {
        let request = SwdTransfer::write(port, address, value);
        let ghost start = self.history().len() as int;
        let access = access_register(self, request, RECOVERY_DEPTH);
        proof {
            law_register_exchanges(
                RECOVERY_DEPTH as nat,
                request,
                ACCESS_ATTEMPTS as nat,
                self.history(),
                start,
            );
        }
        match access {
            Ok(_) => Ok(()),
            Err(error) => Err(error),
        }
    }

    fn write_block(&mut self, port: PortType, address: u16, values: &[u32]) -> (result: Result<
        (),
        DebugProbeError,
    >)
        ensures
            final(self).history() == old(self).history().push(final(self).history().last()),
            match schedule::batch_outcome(
                block_writes(port, address, values@),
                final(self).history().last(),
            ) {
                Some(Ok(after)) => result == block_result(after),
                Some(Err(error)) => result == Err::<(), DebugProbeError>(error),
                None => false,
            },
            // The exchange writes these very values to this very register, in their order.
            ({
                let count = values@.len();
                let fetch = transfer::transfer_cycles(PortType::DebugPort, TransferType::Read, 0xC);
                let cycles = Seq::new(
                    if count == 0 {
                        0
                    } else {
                        64 * count + 48
                    },
                    |i: int|
                        if i >= 64 * count {
                            fetch[i - 64 * count]
                        } else if i % 64 < 48 {
                            transfer::transfer_cycles(
                                port,
                                TransferType::Write(values@[i / 64]),
                                address,
                            )[i % 64]
                        } else {
                            Cycle::Drive(false)
                        },
                );
                probe::reply_to(cycles, final(self).history().last()) is Some
            }),
    {
        proof {
            let count = values@.len();
            let fetch = transfer::transfer_cycles(PortType::DebugPort, TransferType::Read, 0xC);
            let line = schedule::line_cycles(
                schedule::on_line(block_writes(port, address, values@)),
            );
            law_block_write_by_position(port, address, values@);
            assert(line =~= Seq::new(
                if count == 0 {
                    0
                } else {
                    64 * count + 48
                },
                |i: int|
                    if i >= 64 * count {
                        fetch[i - 64 * count]
                    } else if i % 64 < 48 {
                        transfer::transfer_cycles(
                            port,
                            TransferType::Write(values@[i / 64]),
                            address,
                        )[i % 64]
                    } else {
                        Cycle::Drive(false)
                    },
            ));
        }
        let mut transfers: Vec<SwdTransfer> = Vec::new();
        let mut count: usize = 0;
        while count < values.len()
            invariant
                count <= values@.len(),
                transfers@ == block_writes(port, address, values@.take(count as int)),
            decreases values@.len() - count,
        {
            transfers.push(SwdTransfer::write(port, address, values[count]));
            count = count + 1;
            assert(transfers@ =~= block_writes(port, address, values@.take(count as int)));
        }
        assert(values@.take(count as int) =~= values@);

        if let Err(error) = perform_transfers(self, transfers.as_mut_slice()) {
            return Err(error);
        }
        check_block(transfers.as_slice())
    }
}

} // verus!
