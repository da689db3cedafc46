use vstd::prelude::*;

use crate::error::{DapError, DebugProbeError};
use crate::probe::{shift, RawSwdIo};
use crate::registers::{PortType, ABORT_ADDRESS, CTRL_ADDRESS, DPIDR_ADDRESS};
use crate::response::parse_swd_response;
use crate::schedule;
use crate::sequence::IoSequence;
use crate::transfer::{
    rdbuff_read, response_length, SwdTransfer, TransferDirection, TransferStatus, IDLE_CYCLES,
};

verus! {

/// What has to go over the line for a batch of transfers, and where to look for
/// the answers.
pub struct TransferPlan {
    /// The cycles to clock over the line.
    pub sequence: IoSequence,
    /// The directions of the transfers on the line.
    pub expected_responses: Vec<TransferDirection>,
    /// For each transfer of the batch the place of its answer on the line.
    pub result_indices: Vec<usize>,
}

impl TransferPlan {
    /// Whether this is the plan for `transfers`.
    pub open spec fn describes(&self, transfers: Seq<SwdTransfer>) -> bool {
        let line = schedule::on_line(transfers);
        &&& self.sequence.wf()
        &&& self.sequence@ == schedule::line_cycles(line)
        &&& self.expected_responses@ == line.map_values(|t: SwdTransfer| t.direction)
        &&& self.result_indices@.len() == transfers.len()
        &&& forall|i: int|
            0 <= i < transfers.len() ==> #[trigger] self.result_indices@[i] == schedule::answer_place(
                transfers,
                i,
            )
    }

    /// Puts an additional read from RDBUFF on the line.
    fn append_fetch(&mut self, Ghost(line): Ghost<Seq<SwdTransfer>>)
        requires
            old(self).sequence.wf(),
            old(self).sequence@ == schedule::line_cycles(line),
            old(self).expected_responses@ == line.map_values(|t: SwdTransfer| t.direction),
        ensures
            final(self).sequence.wf(),
            final(self).sequence@ == schedule::line_cycles(line.push(SwdTransfer::spec_rdbuff_read())),
            final(self).expected_responses@ == line.push(
                SwdTransfer::spec_rdbuff_read(),
            ).map_values(|t: SwdTransfer| t.direction),
            final(self).result_indices == old(self).result_indices,
    {
        let ghost fetch = SwdTransfer::spec_rdbuff_read();
        self.sequence.extend(&rdbuff_read());
        self.expected_responses.push(TransferDirection::Read);
        proof {
            schedule::lemma_line_cycles_push(line, fetch);
            assert(self.sequence@ =~= schedule::line_cycles(line.push(fetch)));
            assert(self.expected_responses@ =~= line.push(fetch).map_values(
                |t: SwdTransfer| t.direction,
            ));
        }
    }

    /// Puts one more transfer on the line.
    fn append(&mut self, transfer: &SwdTransfer, Ghost(line): Ghost<Seq<SwdTransfer>>)
        requires
            old(self).sequence.wf(),
            old(self).sequence@ == schedule::line_cycles(line),
            old(self).expected_responses@ == line.map_values(|t: SwdTransfer| t.direction),
        ensures
            final(self).sequence.wf(),
            final(self).sequence@ == schedule::line_cycles(line.push(*transfer)),
            final(self).expected_responses@ == line.push(*transfer).map_values(
                |t: SwdTransfer| t.direction,
            ),
            final(self).result_indices == old(self).result_indices,
            final(self).expected_responses@.len() < usize::MAX,
    {
        self.sequence.extend(&transfer.io_sequence());
        if transfer.is_write() {
            self.sequence.add_output_sequence(&[false; IDLE_CYCLES]);
        }
        self.expected_responses.push(transfer.direction);
        proof {
            schedule::lemma_line_cycles_push(line, *transfer);
            assert(self.sequence@ =~= schedule::line_cycles(line.push(*transfer)));
            schedule::lemma_line_cycles_len(line.push(*transfer));
            self.sequence.lemma_len_bound();
            assert(self.expected_responses@ =~= line.push(*transfer).map_values(
                |t: SwdTransfer| t.direction,
            ));
        }
    }
}

/// Whether `transfer` could make the debug port lose a write that it has buffered.
fn is_unstalled(transfer: &SwdTransfer) -> (result: bool)
    ensures
        result == schedule::endangers_buffered_write(*transfer),
{
    let abort_write: bool = transfer.port == PortType::DebugPort && transfer.address
        == ABORT_ADDRESS && transfer.direction == TransferDirection::Write;

    let dpidr_read: bool = transfer.port == PortType::DebugPort && transfer.address
        == DPIDR_ADDRESS && transfer.direction == TransferDirection::Read;

    let ctrl_stat_read: bool = transfer.port == PortType::DebugPort && transfer.address
        == CTRL_ADDRESS && transfer.direction == TransferDirection::Read;

    abort_write || dpidr_read || ctrl_stat_read
}

/// Works out what has to go over the line to perform `transfers`.
///
/// - A read from the debug port needs nothing special.
/// - A read from an access port is answered in the next read, so the next transfer
///   has to be such a read too, or a read from RDBUFF is put in between.
/// - A write has its status reported in the next transfer.
/// - A write to an access port can be buffered, so a transfer that would not be
///   stalled by it has to wait for a read from RDBUFF.
pub fn plan_transfers(transfers: &[SwdTransfer]) -> (plan: TransferPlan)
    ensures
        plan.describes(transfers@),
        plan.sequence.wf(),
        plan.sequence@ == schedule::line_cycles(schedule::on_line(transfers@)),
        plan.expected_responses@.len() == schedule::on_line(transfers@).len(),
        forall|i: int|
            0 <= i < plan.expected_responses@.len() ==> #[trigger] plan.expected_responses@[i]
                == schedule::on_line(transfers@)[i].direction,
        plan.result_indices@.len() == transfers@.len(),
        forall|i: int|
            0 <= i < transfers@.len() ==> #[trigger] plan.result_indices@[i]
                == schedule::answer_place(transfers@, i),
{
    let mut plan = TransferPlan {
        sequence: IoSequence::new(),
        expected_responses: Vec::new(),
        result_indices: Vec::new(),
    };

    let mut need_ap_read: bool = false;
    let mut buffered_write: bool = false;
    let mut write_response_pending: bool = false;

    let mut index: usize = 0;
    assert(plan.expected_responses@ =~= schedule::scheduled(transfers@.take(0)).map_values(
        |t: SwdTransfer| t.direction,
    ));
    while index < transfers.len()
        invariant
            index <= transfers@.len(),
            plan.sequence.wf(),
            plan.sequence@ == schedule::line_cycles(schedule::scheduled(transfers@.take(index as int))),
            plan.expected_responses@ == schedule::scheduled(transfers@.take(index as int)).map_values(
                |t: SwdTransfer| t.direction,
            ),
            plan.result_indices@.len() == index,
            forall|i: int|
                0 <= i < index ==> #[trigger] plan.result_indices@[i] == schedule::answer_place(
                    transfers@,
                    i,
                ),
            need_ap_read == (index > 0 && transfers@[index - 1].reads_ap()),
            buffered_write == (index > 0 && transfers@[index - 1].writes_ap()),
            write_response_pending == (index > 0 && transfers@[index - 1].direction is Write),
        decreases transfers@.len() - index,
    {
        let transfer = transfers[index];
        let ghost mut line = schedule::scheduled(transfers@.take(index as int));
        let ghost upto = transfers@.take(index + 1);
        proof {
            assert(upto.drop_last() =~= transfers@.take(index as int));
        }

        if (need_ap_read && !transfer.is_ap_read()) || (buffered_write && is_unstalled(
            &transfer,
        )) {
            plan.append_fetch(Ghost(line));
            proof {
                line = line.push(SwdTransfer::spec_rdbuff_read());
            }
        }
        plan.append(&transfer, Ghost(line));
        proof {
            line = line.push(transfer);
            assert(line =~= schedule::scheduled(upto));
        }

        need_ap_read = transfer.is_ap_read();
        write_response_pending = transfer.is_write();
        buffered_write = matches!(transfer.port, PortType::AccessPort(_)) && transfer.is_write();

        let after: usize = plan.expected_responses.len();
        if need_ap_read || write_response_pending {
            plan.result_indices.push(after);
        } else {
            plan.result_indices.push(after - 1);
        }
        index = index + 1;
    }
    assert(transfers@.take(index as int) =~= transfers@);

    if need_ap_read || write_response_pending {
        plan.append_fetch(Ghost(schedule::scheduled(transfers@)));
    }
    plan
}

/// Reads the outcomes of the transfers of `plan` from the bits that the probe
/// sampled, and hands to each of `transfers` its own.
pub fn settle_transfers(transfers: &mut [SwdTransfer], plan: &TransferPlan, reply: &[bool])
    requires
        plan.describes(old(transfers)@),
        reply@.len() >= plan.sequence@.len(),
    ensures
        final(transfers)@ == schedule::all_settled(old(transfers)@, reply@),
{
    let ghost line = schedule::on_line(transfers@);
    let ghost before = transfers@;
    let mut responses: Vec<Result<u32, DapError>> = Vec::new();
    let mut read_index: usize = 0;
    let mut slot: usize = 0;
    assert(schedule::slot_start(line, 0) == 0) by {
        assert(line.take(0) =~= Seq::<SwdTransfer>::empty());
    }
    while slot < plan.expected_responses.len()
        invariant
            slot <= line.len(),
            line == schedule::on_line(before),
            plan.describes(before),
            plan.expected_responses@.len() == line.len(),
            reply@.len() >= schedule::line_cycles(line).len(),
            responses@.len() == slot,
            read_index == schedule::slot_start(line, slot as int),
            read_index <= reply@.len(),
            forall|i: int|
                0 <= i < slot ==> #[trigger] responses@[i] == schedule::slot_outcome(line, reply@, i),
        decreases line.len() - slot,
    {
        let direction = plan.expected_responses[slot];
        proof {
            schedule::lemma_slot_start(line, slot as int);
            schedule::lemma_slot_len(line[slot as int]);
            assert(reply@.subrange(read_index as int, reply@.len() as int) =~= reply@.skip(
                read_index as int,
            ));
        }
        let rest = vstd::slice::slice_subrange(reply, read_index, reply.len());
        responses.push(parse_swd_response(rest, direction));

        read_index = read_index + response_length(direction);
        if direction == TransferDirection::Write {
            read_index = read_index + IDLE_CYCLES;
        }
        slot = slot + 1;
    }

    let mut index: usize = 0;
    while index < transfers.len()
        invariant
            index <= transfers@.len() == before.len(),
            line == schedule::on_line(before),
            plan.describes(before),
            responses@.len() == line.len(),
            forall|i: int|
                0 <= i < line.len() ==> #[trigger] responses@[i] == schedule::slot_outcome(line, reply@, i),
            forall|i: int|
                0 <= i < index ==> #[trigger] transfers@[i] == schedule::all_settled(before, reply@)[i],
            forall|i: int| index <= i < before.len() ==> #[trigger] transfers@[i] == before[i],
        decreases before.len() - index,
    {
        proof {
            schedule::lemma_place(before, index as int);
            assert(plan.result_indices@[index as int] == schedule::answer_place(before, index as int));
        }
        let mut transfer = transfers[index];
        match responses[plan.result_indices[index]] {
            Ok(value) => {
                if transfer.direction == TransferDirection::Read {
                    transfer.value = value;
                }
                transfer.status = TransferStatus::Success;
            },
            Err(error) => {
                transfer.status = TransferStatus::Failed(error);
            },
        }
        transfers[index] = transfer;
        index = index + 1;
    }
    assert(transfers@ =~= schedule::all_settled(before, reply@));
}

/// Performs a batch of transfers.
///
/// The cycles of all transfers, and of the additional ones that are needed to get
/// their results, are concatenated to a single sequence, which is sent to the probe.
pub fn perform_transfers<P: RawSwdIo>(probe: &mut P, transfers: &mut [SwdTransfer]) -> (result:
    Result<(), DebugProbeError>)
    ensures
        final(probe).history() == old(probe).history().push(final(probe).history().last()),
        match schedule::batch_outcome(old(transfers)@, final(probe).history().last()) {
            Some(Ok(after)) => result is Ok && final(transfers)@ == after,
            Some(Err(error)) => result == Err::<(), DebugProbeError>(error) && final(transfers)@
                == old(transfers)@,
            None => false,
        },
{
    let plan = plan_transfers(transfers);

    match shift(probe, &plan.sequence) {
        Ok(bits) => {
            settle_transfers(transfers, &plan, bits.as_slice());
            Ok(())
        },
        Err(error) => Err(error),
    }
}

} // verus!
