use vstd::prelude::*;

use crate::bits;
use crate::error::{DapError, DebugProbeError};
use crate::probe;
use crate::probe::ProbeEvent;
use crate::registers::{PortType, ABORT_ADDRESS, CTRL_ADDRESS, DPIDR_ADDRESS};
use crate::response;
use crate::sequence;
use crate::sequence::Cycle;
use crate::transfer;
use crate::transfer::{
    SwdTransfer, TransferDirection, TransferStatus, TransferType, IDLE_CYCLES,
};

verus! {

// ---------------------------------------------------------------------------
// Which transfers go over the line
// ---------------------------------------------------------------------------
/// Whether the answer to `transfer` comes with the next transfer only: a read
/// from an access port delivers its word late, and a write its status.
pub open spec fn answers_late(transfer: SwdTransfer) -> bool {
    transfer.reads_ap() || transfer.direction is Write
}

/// Whether `transfer` could make the debug port lose a write that it has buffered:
/// a write to ABORT and a read from DPIDR or CTRL/STAT are never stalled.
pub open spec fn endangers_buffered_write(transfer: SwdTransfer) -> bool {
    transfer.port is DebugPort && match transfer.direction {
        TransferDirection::Write => transfer.address == ABORT_ADDRESS,
        TransferDirection::Read => transfer.address == DPIDR_ADDRESS || transfer.address
            == CTRL_ADDRESS,
    }
}

/// Whether a read from RDBUFF has to come between `previous` and `next`: to fetch
/// the word of a read from an access port, unless the next such read delivers it,
/// or to wait for a buffered write.
pub open spec fn fetch_between(previous: SwdTransfer, next: SwdTransfer) -> bool {
    ||| previous.reads_ap() && !next.reads_ap()
    ||| previous.writes_ap() && endangers_buffered_write(next)
}

/// `transfers` with the reads from RDBUFF that have to come between them.
pub open spec fn scheduled(transfers: Seq<SwdTransfer>) -> Seq<SwdTransfer>
    decreases transfers.len(),
{
    if transfers.len() == 0 {
        Seq::empty()
    } else {
        let fetch = if transfers.len() >= 2 && fetch_between(
            transfers[transfers.len() - 2],
            transfers.last(),
        ) {
            seq![SwdTransfer::spec_rdbuff_read()]
        } else {
            Seq::empty()
        };
        scheduled(transfers.drop_last()) + fetch + seq![transfers.last()]
    }
}

/// All transfers that go over the line for `transfers`: those scheduled, and a
/// last read from RDBUFF if the answer to the last one would come late.
pub open spec fn on_line(transfers: Seq<SwdTransfer>) -> Seq<SwdTransfer> {
    if transfers.len() > 0 && answers_late(transfers.last()) {
        scheduled(transfers).push(SwdTransfer::spec_rdbuff_read())
    } else {
        scheduled(transfers)
    }
}

/// The place of transfer `index` among those on the line.
pub open spec fn place(transfers: Seq<SwdTransfer>, index: int) -> int {
    scheduled(transfers.take(index + 1)).len() - 1
}

/// The place on the line of the transfer that brings the answer to transfer `index`.
pub open spec fn answer_place(transfers: Seq<SwdTransfer>, index: int) -> int {
    if answers_late(transfers[index]) {
        place(transfers, index) + 1
    } else {
        place(transfers, index)
    }
}

// ---------------------------------------------------------------------------
// What goes over the line, and what comes back
// ---------------------------------------------------------------------------
/// The cycles of one transfer, with the idle cycles that follow a write.
pub open spec fn slot_cycles(transfer: SwdTransfer) -> Seq<Cycle> {
    if transfer.direction is Write {
        transfer.cycles() + sequence::idle(IDLE_CYCLES as nat)
    } else {
        transfer.cycles()
    }
}

/// The cycles of all transfers of `line`, one after the other.
pub open spec fn line_cycles(line: Seq<SwdTransfer>) -> Seq<Cycle>
    decreases line.len(),
{
    if line.len() == 0 {
        Seq::empty()
    } else {
        line_cycles(line.drop_last()) + slot_cycles(line.last())
    }
}

/// The cycle at which the transfer at `place` starts.
pub open spec fn slot_start(line: Seq<SwdTransfer>, place: int) -> int {
    line_cycles(line.take(place)).len() as int
}

/// The outcome that `reply` shows for the transfer at `place`.
pub open spec fn slot_outcome(line: Seq<SwdTransfer>, reply: Seq<bool>, place: int) -> Result<
    u32,
    DapError,
> {
    response::outcome(reply.skip(slot_start(line, place)), line[place].direction)
}

/// `transfer` once its outcome is known. Only a read takes over a value.
pub open spec fn settled(transfer: SwdTransfer, outcome: Result<u32, DapError>) -> SwdTransfer {
    match outcome {
        Ok(value) => SwdTransfer {
            value: if transfer.direction is Read {
                value
            } else {
                transfer.value
            },
            status: TransferStatus::Success,
            ..transfer
        },
        Err(error) => SwdTransfer { status: TransferStatus::Failed(error), ..transfer },
    }
}

/// `transfers` once the probe has answered with `reply`.
pub open spec fn all_settled(transfers: Seq<SwdTransfer>, reply: Seq<bool>) -> Seq<SwdTransfer> {
    Seq::new(
        transfers.len(),
        |i: int|
            settled(
                transfers[i],
                slot_outcome(on_line(transfers), reply, answer_place(transfers, i)),
            ),
    )
}

/// What becomes of `transfers` if `event` is the exchange that performs them:
/// the probe's error, or the settled transfers. `None` if `event` is anything else.
pub open spec fn batch_outcome(transfers: Seq<SwdTransfer>, event: ProbeEvent) -> Option<
    Result<Seq<SwdTransfer>, DebugProbeError>,
> {
    match probe::reply_to(line_cycles(on_line(transfers)), event) {
        Some(Ok(bits)) => Some(Ok(all_settled(transfers, bits))),
        Some(Err(error)) => Some(Err(error)),
        None => None,
    }
}

// ---------------------------------------------------------------------------
// Facts about the schedule
// ---------------------------------------------------------------------------
pub proof fn lemma_slot_len(transfer: SwdTransfer)
    ensures
        slot_cycles(transfer).len() == transfer::spec_response_length(transfer.direction) + (
        if transfer.direction is Write {
            IDLE_CYCLES as nat
        } else {
            0
        }),
{
    transfer::law_response_length(transfer);
}

pub proof fn lemma_line_cycles_add(line: Seq<SwdTransfer>, more: Seq<SwdTransfer>)
    ensures
        line_cycles(line + more) == line_cycles(line) + line_cycles(more),
    decreases more.len(),
{
    if more.len() == 0 {
        assert(line + more =~= line);
        assert(line_cycles(line) + line_cycles(more) =~= line_cycles(line));
    } else {
        assert((line + more).drop_last() =~= line + more.drop_last());
        lemma_line_cycles_add(line, more.drop_last());
        assert(line_cycles(line + more) =~= line_cycles(line) + line_cycles(more));
    }
}

pub proof fn lemma_line_cycles_push(line: Seq<SwdTransfer>, last: SwdTransfer)
    ensures
        line_cycles(line.push(last)) == line_cycles(line) + slot_cycles(last),
{
    assert(line.push(last).drop_last() =~= line);
}

pub proof fn lemma_line_cycles_len(line: Seq<SwdTransfer>)
    ensures
        line_cycles(line).len() >= 48 * line.len(),
    decreases line.len(),
{
    if line.len() > 0 {
        lemma_line_cycles_len(line.drop_last());
        lemma_slot_len(line.last());
    }
}

/// The slot at `place` lies within the line, and the next one starts behind it.
pub proof fn lemma_slot_start(line: Seq<SwdTransfer>, place: int)
    requires
        0 <= place < line.len(),
    ensures
        slot_start(line, place + 1) == slot_start(line, place) + slot_cycles(line[place]).len(),
        slot_start(line, place + 1) <= line_cycles(line).len(),
{
    assert(line.take(place + 1).drop_last() =~= line.take(place));
    assert(line.take(place + 1) + line.skip(place + 1) =~= line);
    lemma_line_cycles_add(line.take(place + 1), line.skip(place + 1));
}

/// Scheduling more transfers does not disturb those scheduled before.
pub proof fn lemma_scheduled_prefix(transfers: Seq<SwdTransfer>, count: int)
    requires
        0 <= count <= transfers.len(),
    ensures
        scheduled(transfers.take(count)).len() <= scheduled(transfers).len(),
        scheduled(transfers.take(count)) == scheduled(transfers).take(
            scheduled(transfers.take(count)).len() as int,
        ),
    decreases transfers.len(),
{
    if count == transfers.len() {
        assert(transfers.take(count) =~= transfers);
        assert(scheduled(transfers).take(scheduled(transfers).len() as int) =~= scheduled(
            transfers,
        ));
    } else {
        lemma_scheduled_prefix(transfers.drop_last(), count);
        assert(transfers.drop_last().take(count) =~= transfers.take(count));
        let length = scheduled(transfers.take(count)).len() as int;
        assert(scheduled(transfers).take(length) =~= scheduled(transfers.drop_last()).take(length));
    }
}

/// Transfer `index` is found on the line at its place, and the transfer that brings
/// its answer is there too.
pub proof fn lemma_place(transfers: Seq<SwdTransfer>, index: int)
    requires
        0 <= index < transfers.len(),
    ensures
        0 <= place(transfers, index) < scheduled(transfers).len(),
        scheduled(transfers)[place(transfers, index)] == transfers[index],
        on_line(transfers)[place(transfers, index)] == transfers[index],
        answer_place(transfers, index) < on_line(transfers).len(),
{
    let upto = transfers.take(index + 1);
    lemma_scheduled_prefix(transfers, index + 1);
    assert(upto.last() == transfers[index]);
    assert(scheduled(upto).last() == transfers[index]);
    if index + 1 == transfers.len() {
        assert(upto =~= transfers);
    } else {
        let next = transfers.take(index + 2);
        assert(next.drop_last() =~= upto);
        lemma_scheduled_prefix(transfers, index + 2);
    }
}

// ---------------------------------------------------------------------------
// What holds of every schedule
// ---------------------------------------------------------------------------
/// What stands on the line right behind transfer `index`: the read from RDBUFF that
/// it needs, if any, or else the next transfer.
pub proof fn law_what_follows(transfers: Seq<SwdTransfer>, index: int)
    requires
        0 <= index < transfers.len(),
    ensures
        index + 1 < transfers.len() ==> on_line(transfers)[place(transfers, index) + 1] == (
        if fetch_between(transfers[index], transfers[index + 1]) {
            SwdTransfer::spec_rdbuff_read()
        } else {
            transfers[index + 1]
        }),
        index + 1 == transfers.len() && answers_late(transfers[index]) ==> on_line(
            transfers,
        )[place(transfers, index) + 1] == SwdTransfer::spec_rdbuff_read(),
{
    let upto = transfers.take(index + 1);
    if index + 1 == transfers.len() {
        assert(upto =~= transfers);
    } else {
        let next = transfers.take(index + 2);
        assert(next.drop_last() =~= upto);
        lemma_scheduled_prefix(transfers, index + 2);
        assert(scheduled(next)[place(transfers, index) + 1] == scheduled(transfers)[place(
            transfers,
            index,
        ) + 1]);
    }
}

/// All transfers of a batch go over the line, in their order.
pub proof fn law_order_is_kept(transfers: Seq<SwdTransfer>, index: int, other: int)
    requires
        0 <= index < other < transfers.len(),
    ensures
        on_line(transfers)[place(transfers, index)] == transfers[index],
        on_line(transfers)[place(transfers, other)] == transfers[other],
        place(transfers, index) < place(transfers, other),
{
    lemma_place(transfers, index);
    lemma_place(transfers, other);
    lemma_scheduled_prefix(transfers.take(other), index + 1);
    assert(transfers.take(other).take(index + 1) =~= transfers.take(index + 1));
    assert(transfers.take(other + 1).drop_last() =~= transfers.take(other));
}

/// Nothing goes over the line but the transfers of the batch and reads from RDBUFF.
pub proof fn law_only_fetches_are_added(transfers: Seq<SwdTransfer>, at: int)
    requires
        0 <= at < on_line(transfers).len(),
    ensures
        on_line(transfers)[at] == SwdTransfer::spec_rdbuff_read() || exists|index: int|
            0 <= index < transfers.len() && at == #[trigger] place(transfers, index),
{
    if at < scheduled(transfers).len() {
        lemma_scheduled_holds_no_others(transfers, at);
    }
}

proof fn lemma_scheduled_holds_no_others(transfers: Seq<SwdTransfer>, at: int)
    requires
        0 <= at < scheduled(transfers).len(),
    ensures
        scheduled(transfers)[at] == SwdTransfer::spec_rdbuff_read() || exists|index: int|
            0 <= index < transfers.len() && at == #[trigger] place(transfers, index),
    decreases transfers.len(),
{
    let shorter = transfers.drop_last();
    let last = transfers.len() - 1;
    if at < scheduled(shorter).len() {
        lemma_scheduled_holds_no_others(shorter, at);
        if scheduled(shorter)[at] != SwdTransfer::spec_rdbuff_read() {
            let index = choose|index: int|
                0 <= index < shorter.len() && at == #[trigger] place(shorter, index);
            assert(shorter.take(index + 1) =~= transfers.take(index + 1));
            assert(at == place(transfers, index));
        }
    } else if at == scheduled(transfers).len() - 1 {
        assert(transfers.take(last + 1) =~= transfers);
        assert(at == place(transfers, last));
    }
}

/// No more reads from RDBUFF are added than there are transfers.
pub proof fn law_at_most_one_fetch_each(transfers: Seq<SwdTransfer>)
    ensures
        transfers.len() <= on_line(transfers).len() <= 2 * transfers.len(),
{
    lemma_scheduled_len(transfers);
}

proof fn lemma_scheduled_len(transfers: Seq<SwdTransfer>)
    ensures
        transfers.len() <= scheduled(transfers).len(),
        transfers.len() > 0 ==> scheduled(transfers).len() < 2 * transfers.len(),
        transfers.len() == 0 ==> scheduled(transfers).len() == 0,
    decreases transfers.len(),
{
    if transfers.len() > 0 {
        lemma_scheduled_len(transfers.drop_last());
    }
}

/// The word of a read from an access port is always fetched: the transfer behind it
/// is another such read, or a read from RDBUFF.
pub proof fn law_ap_read_is_fetched(transfers: Seq<SwdTransfer>, index: int)
    requires
        0 <= index < transfers.len(),
        transfers[index].reads_ap(),
    ensures
        answer_place(transfers, index) == place(transfers, index) + 1,
        answer_place(transfers, index) < on_line(transfers).len(),
        ({
            let next = on_line(transfers)[answer_place(transfers, index)];
            next.reads_ap() || next == SwdTransfer::spec_rdbuff_read()
        }),
{
    lemma_place(transfers, index);
    law_what_follows(transfers, index);
}

/// A write is always followed by another transfer, and succeeds or fails as that
/// transfer does.
pub proof fn law_write_is_reported(transfers: Seq<SwdTransfer>, reply: Seq<bool>, index: int)
    requires
        0 <= index < transfers.len(),
        transfers[index].direction is Write,
    ensures
        place(transfers, index) + 1 < on_line(transfers).len(),
        all_settled(transfers, reply)[index].status == (match slot_outcome(
            on_line(transfers),
            reply,
            place(transfers, index) + 1,
        ) {
            Ok(_) => TransferStatus::Success,
            Err(error) => TransferStatus::Failed(error),
        }),
{
    lemma_place(transfers, index);
}

/// No buffered write is lost: what comes right behind a write to an access port is
/// never one of the transfers that are not stalled.
pub proof fn law_buffered_write_is_kept(transfers: Seq<SwdTransfer>, at: int)
    requires
        0 <= at < on_line(transfers).len() - 1,
        on_line(transfers)[at].writes_ap(),
    ensures
        !endangers_buffered_write(on_line(transfers)[at + 1]),
{
    law_only_fetches_are_added(transfers, at);
    let index = choose|index: int|
        0 <= index < transfers.len() && at == #[trigger] place(transfers, index);
    lemma_place(transfers, index);
    law_what_follows(transfers, index);
}

/// Where no read from RDBUFF has to come in between, none does.
pub proof fn law_no_needless_fetch(transfers: Seq<SwdTransfer>)
    requires
        forall|i: int|
            0 < i < transfers.len() ==> !fetch_between(transfers[i - 1], #[trigger] transfers[i]),
    ensures
        scheduled(transfers) == transfers,
    decreases transfers.len(),
{
    if transfers.len() > 0 {
        let shorter = transfers.drop_last();
        assert forall|i: int| 0 < i < shorter.len() implies !fetch_between(
            shorter[i - 1],
            #[trigger] shorter[i],
        ) by {
            assert(shorter[i] == transfers[i]);
        }
        law_no_needless_fetch(shorter);
        assert(!fetch_between(transfers[transfers.len() - 2], transfers[transfers.len() - 1])
            || transfers.len() < 2);
        assert(scheduled(transfers) =~= transfers);
    }
}

/// Reads from the debug port need no additional transfers.
pub proof fn law_dp_reads_need_nothing(transfers: Seq<SwdTransfer>)
    requires
        forall|i: int|
            0 <= i < transfers.len() ==> (#[trigger] transfers[i]).port is DebugPort
                && transfers[i].direction is Read,
    ensures
        on_line(transfers) == transfers,
{
    assert forall|i: int| 0 < i < transfers.len() implies !fetch_between(
        transfers[i - 1],
        #[trigger] transfers[i],
    ) by {
        assert(transfers[i - 1].port is DebugPort);
    }
    law_no_needless_fetch(transfers);
}

/// Any number of reads from an access port need a single additional read, at the end.
pub proof fn law_ap_reads_need_one_fetch(transfers: Seq<SwdTransfer>)
    requires
        transfers.len() > 0,
        forall|i: int| 0 <= i < transfers.len() ==> (#[trigger] transfers[i]).reads_ap(),
    ensures
        on_line(transfers) == transfers.push(SwdTransfer::spec_rdbuff_read()),
{
    assert forall|i: int| 0 < i < transfers.len() implies !fetch_between(
        transfers[i - 1],
        #[trigger] transfers[i],
    ) by {
        assert(transfers[i - 1].reads_ap());
    }
    law_no_needless_fetch(transfers);
}

/// Any number of writes to an access port need a single additional read, at the end.
pub proof fn law_ap_writes_need_one_fetch(transfers: Seq<SwdTransfer>)
    requires
        transfers.len() > 0,
        forall|i: int| 0 <= i < transfers.len() ==> (#[trigger] transfers[i]).writes_ap(),
    ensures
        on_line(transfers) == transfers.push(SwdTransfer::spec_rdbuff_read()),
{
    assert forall|i: int| 0 < i < transfers.len() implies !fetch_between(
        transfers[i - 1],
        #[trigger] transfers[i],
    ) by {
        assert(transfers[i - 1].writes_ap());
    }
    law_no_needless_fetch(transfers);
}

// ---------------------------------------------------------------------------
// What holds of every reply
// ---------------------------------------------------------------------------
/// Once the probe has answered, no transfer is left pending, and each is still the
/// access that it was. A write keeps its value.
pub proof fn law_every_transfer_is_settled(
    transfers: Seq<SwdTransfer>,
    reply: Seq<bool>,
    index: int,
)
    requires
        0 <= index < transfers.len(),
    ensures
        all_settled(transfers, reply).len() == transfers.len(),
        ({
            let after = all_settled(transfers, reply)[index];
            &&& !(after.status is Pending)
            &&& after.port == transfers[index].port
            &&& after.direction == transfers[index].direction
            &&& after.address == transfers[index].address
            &&& transfers[index].direction is Write ==> after.value == transfers[index].value
        }),
{
}

/// A read gets exactly the word that the target shifted out in answer to it: it
/// succeeds with `word` if and only if the transfer that brings its answer was
/// acknowledged with OK and carries the bits of `word` and their parity.
pub proof fn law_read_gets_its_word(
    transfers: Seq<SwdTransfer>,
    reply: Seq<bool>,
    index: int,
    word: u32,
)
    requires
        0 <= index < transfers.len(),
        transfers[index].direction is Read,
        reply.len() >= line_cycles(on_line(transfers)).len(),
    ensures
        ({
            let line = on_line(transfers);
            let answer = reply.skip(slot_start(line, answer_place(transfers, index)));
            let after = all_settled(transfers, reply)[index];
            after.status is Success && after.value == word <==> {
                &&& response::has_ack(answer, true, false, false)
                &&& response::value_bits(answer) == bits::word_bits(word)
                &&& answer[response::PARITY_OFFSET as int] == bits::parity(bits::word_bits(word))
            }
        }),
{
    let line = on_line(transfers);
    let at = answer_place(transfers, index);
    lemma_place(transfers, index);
    if transfers[index].reads_ap() {
        law_ap_read_is_fetched(transfers, index);
    }
    assert(line[at].direction is Read);
    lemma_slot_start(line, at);
    lemma_slot_len(line[at]);
    response::law_read_gives_the_word_sent(reply.skip(slot_start(line, at)), word);
}

/// What the probe samples elsewhere does not matter to a transfer: two replies that
/// agree in the transfer that brings its answer settle it alike.
pub proof fn law_only_the_answer_matters(
    transfers: Seq<SwdTransfer>,
    reply: Seq<bool>,
    other: Seq<bool>,
    index: int,
)
    requires
        0 <= index < transfers.len(),
        reply.len() >= line_cycles(on_line(transfers)).len(),
        other.len() >= line_cycles(on_line(transfers)).len(),
        ({
            let start = slot_start(on_line(transfers), answer_place(transfers, index));
            let end = start + response::PARITY_OFFSET + 1;
            reply.subrange(start, end) == other.subrange(start, end)
        }),
    ensures
        all_settled(transfers, reply)[index] == all_settled(transfers, other)[index],
{
    let line = on_line(transfers);
    let at = answer_place(transfers, index);
    lemma_place(transfers, index);
    lemma_slot_start(line, at);
    lemma_slot_len(line[at]);
    let start = slot_start(line, at);
    let end = start + response::PARITY_OFFSET + 1;
    let part = reply.subrange(start, end);
    assert(reply.skip(start) =~= part + reply.skip(end));
    assert(other.skip(start) =~= part + other.skip(end));
    response::law_outcome_needs_no_more(part, reply.skip(end), line[at].direction);
    response::law_outcome_needs_no_more(part, other.skip(end), line[at].direction);
}

/// Where the answer to a transfer that is performed on its own starts in the reply: that
/// of a read from the debug port comes at once, that of a read from an access port behind
/// the read, and that of a write behind the write and its idle cycles.
pub open spec fn single_answer_start(transfer: SwdTransfer) -> int {
    match transfer.direction {
        TransferDirection::Read => if transfer.reads_ap() {
            48
        } else {
            0
        },
        TransferDirection::Write => 64,
    }
}

/// A transfer that is performed on its own is settled by what the reply shows from the
/// start of its answer on, which is that of a read.
pub proof fn law_single_transfer_answer(transfer: SwdTransfer, reply: Seq<bool>)
    ensures
        all_settled(seq![transfer], reply) == seq![
            settled(
                transfer,
                response::outcome(
                    reply.skip(single_answer_start(transfer)),
                    TransferDirection::Read,
                ),
            ),
        ],
{
    let single = seq![transfer];
    let line = on_line(single);
    let at = answer_place(single, 0);
    reveal_with_fuel(scheduled, 2);
    assert(single.take(1) =~= single);
    assert(single.drop_last() =~= Seq::<SwdTransfer>::empty());
    assert(scheduled(single) =~= single);
    assert(line.take(0) =~= Seq::<SwdTransfer>::empty());
    assert(slot_start(line, 0) == 0);
    lemma_slot_len(transfer);
    if answers_late(transfer) {
        lemma_slot_start(line, 0);
    }
    assert(slot_start(line, at) == single_answer_start(transfer));
    assert(line[at].direction is Read);
    assert(all_settled(single, reply) =~= seq![settled(transfer, slot_outcome(line, reply, at))]);
}

// ---------------------------------------------------------------------------
// The line, slot by slot
// ---------------------------------------------------------------------------
/// Where each transfer stands on the line, and what stands between two of them: one slot
/// further on comes the next transfer, unless a read from RDBUFF has to come first. It has
/// to behind a read from an access port, if the next transfer is not another one, and
/// behind a write to an access port, if the next transfer is a write to register 0 or a
/// read from register 0 or 4 of the debug port. At the end it has to behind a write and
/// behind a read from an access port.
pub proof fn law_line_by_position(transfers: Seq<SwdTransfer>, index: int)
    requires
        0 <= index < transfers.len(),
    ensures
        place(transfers, 0) == 0,
        0 <= place(transfers, index) < on_line(transfers).len(),
        on_line(transfers)[place(transfers, index)] == transfers[index],
        ({
            let line = on_line(transfers);
            let at = place(transfers, index);
            let this = transfers[index];
            let late = this.direction is Write || this.port != PortType::DebugPort;
            let fetch = SwdTransfer {
                port: PortType::DebugPort,
                direction: TransferDirection::Read,
                address: 0xC,
                value: 0,
                status: TransferStatus::Pending,
            };
            &&& answer_place(transfers, index) == if late {
                at + 1
            } else {
                at
            }
            &&& answer_place(transfers, index) < line.len()
            &&& if index + 1 < transfers.len() {
                let next = transfers[index + 1];
                let word_waits = this.port != PortType::DebugPort && this.direction is Read && !(
                next.port != PortType::DebugPort && next.direction is Read);
                let write_waits = this.port != PortType::DebugPort && this.direction is Write
                    && next.port == PortType::DebugPort && (next.address == 0x0 || (next.address
                    == 0x4 && next.direction is Read));
                if word_waits || write_waits {
                    place(transfers, index + 1) == at + 2 && line[at + 1] == fetch
                } else {
                    place(transfers, index + 1) == at + 1
                }
            } else if late {
                line.len() == at + 2 && line[at + 1] == fetch
            } else {
                line.len() == at + 1
            }
        }),
{
    let upto = transfers.take(index + 1);
    reveal_with_fuel(scheduled, 2);
    assert(transfers.take(1).drop_last() =~= Seq::<SwdTransfer>::empty());
    lemma_place(transfers, index);
    law_what_follows(transfers, index);
    if index + 1 < transfers.len() {
        assert(transfers.take(index + 2).drop_last() =~= upto);
        assert(transfers.take(index + 2)[index] == transfers[index]);
    } else {
        assert(upto =~= transfers);
    }
}

/// Nothing goes over the line for an empty batch.
pub proof fn law_empty_batch_is_an_empty_line()
    ensures
        on_line(Seq::empty()).len() == 0,
        line_cycles(Seq::empty()).len() == 0,
{
}

/// What the line carries, slot by slot: the 48 cycles of each transfer as it is, and 16
/// cycles during which it is held low behind each write. The slots follow one another
/// without a gap, and nothing follows the last.
pub proof fn law_slot_by_position(line: Seq<SwdTransfer>, at: int)
    requires
        0 <= at < line.len(),
    ensures
        slot_start(line, 0) == 0,
        slot_start(line, line.len() as int) == line_cycles(line).len(),
        ({
            let cycles = line_cycles(line);
            let start = slot_start(line, at);
            let kind = if line[at].direction is Read {
                TransferType::Read
            } else {
                TransferType::Write(line[at].value)
            };
            &&& 0 <= start
            &&& cycles.subrange(start, start + 48) == transfer::transfer_cycles(
                line[at].port,
                kind,
                line[at].address,
            )
            &&& if line[at].direction is Read {
                slot_start(line, at + 1) == start + 48
            } else {
                &&& slot_start(line, at + 1) == start + 64
                &&& forall|i: int|
                    start + 48 <= i < start + 64 ==> #[trigger] cycles[i] == Cycle::Drive(false)
            }
            &&& slot_start(line, at + 1) <= cycles.len()
        }),
{
    let cycles = line_cycles(line);
    let start = slot_start(line, at);
    assert(line.take(0) =~= Seq::<SwdTransfer>::empty());
    assert(line.take(line.len() as int) =~= line);
    lemma_slot_start(line, at);
    lemma_slot_len(line[at]);
    transfer::law_response_length(line[at]);
    assert(line.take(at + 1).drop_last() =~= line.take(at));
    assert(line.take(at + 1) + line.skip(at + 1) =~= line);
    lemma_line_cycles_add(line.take(at + 1), line.skip(at + 1));
    let upto = line_cycles(line.take(at + 1));
    assert(upto =~= line_cycles(line.take(at)) + slot_cycles(line[at]));
    assert(cycles.subrange(start, start + 48) =~= line[at].cycles());
    if line[at].direction is Write {
        assert forall|i: int| start + 48 <= i < start + 64 implies #[trigger] cycles[i]
            == Cycle::Drive(false) by {
            assert(cycles[i] == slot_cycles(line[at])[i - start]);
        }
    }
}

/// How a reply settles a transfer: by the outcome that it shows in the slot of its answer.
/// A read takes over the word, a write keeps its value, and a transfer that failed keeps
/// everything but its status.
pub proof fn law_transfer_is_settled_by_its_slot(
    transfers: Seq<SwdTransfer>,
    reply: Seq<bool>,
    index: int,
)
    requires
        0 <= index < transfers.len(),
    ensures
        all_settled(transfers, reply).len() == transfers.len(),
        ({
            let line = on_line(transfers);
            let at = answer_place(transfers, index);
            let before = transfers[index];
            let after = all_settled(transfers, reply)[index];
            &&& after.port == before.port
            &&& after.direction == before.direction
            &&& after.address == before.address
            &&& match response::outcome(reply.skip(slot_start(line, at)), line[at].direction) {
                Ok(word) => {
                    &&& after.status == TransferStatus::Success
                    &&& after.value == if before.direction is Read {
                        word
                    } else {
                        before.value
                    }
                },
                Err(error) => {
                    &&& after.status == TransferStatus::Failed(error)
                    &&& after.value == before.value
                },
            }
        }),
{
}

/// A write succeeds if and only if the transfer behind it on the line is acknowledged with
/// OK and, where that is a read, has a parity bit that matches its data. What is sampled
/// while a write drives the line does not matter.
pub proof fn law_write_succeeds_by_the_next_acknowledge(
    transfers: Seq<SwdTransfer>,
    reply: Seq<bool>,
    index: int,
)
    requires
        0 <= index < transfers.len(),
        transfers[index].direction is Write,
        reply.len() >= line_cycles(on_line(transfers)).len(),
    ensures
        ({
            let line = on_line(transfers);
            let next = place(transfers, index) + 1;
            let start = slot_start(line, next);
            let sampled = reply.subrange(start + 13, start + 45);
            &&& next < line.len()
            &&& all_settled(transfers, reply)[index].status is Success <==> {
                &&& reply[start + 10] && !reply[start + 11] && !reply[start + 12]
                &&& line[next].direction is Read ==> reply[start + 45] == (
                sampled.to_multiset().count(true) % 2 == 1)
            }
        }),
{
    let line = on_line(transfers);
    let next = place(transfers, index) + 1;
    lemma_place(transfers, index);
    law_slot_by_position(line, next);
    lemma_answer_by_position(line, reply, next);
}

/// A read succeeds if and only if the transfer that brings its answer, the read itself on
/// the debug port and the transfer behind it on an access port, is acknowledged with OK and
/// has a parity bit that matches its data. It then has the word whose bits were sampled
/// there, from the lowest on.
pub proof fn law_read_succeeds_by_its_answer(
    transfers: Seq<SwdTransfer>,
    reply: Seq<bool>,
    index: int,
)
    requires
        0 <= index < transfers.len(),
        transfers[index].direction is Read,
        reply.len() >= line_cycles(on_line(transfers)).len(),
    ensures
        ({
            let line = on_line(transfers);
            let at = if transfers[index].port == PortType::DebugPort {
                place(transfers, index)
            } else {
                place(transfers, index) + 1
            };
            let start = slot_start(line, at);
            let sampled = reply.subrange(start + 13, start + 45);
            let after = all_settled(transfers, reply)[index];
            &&& at < line.len()
            &&& after.status is Success <==> {
                &&& reply[start + 10] && !reply[start + 11] && !reply[start + 12]
                &&& reply[start + 45] == (sampled.to_multiset().count(true) % 2 == 1)
            }
            &&& after.status is Success ==> forall|i: u32|
                i < 32 ==> ((#[trigger] (after.value >> i)) & 1 == 1) == sampled[i as int]
        }),
{
    let line = on_line(transfers);
    let at = answer_place(transfers, index);
    lemma_place(transfers, index);
    if transfers[index].reads_ap() {
        law_ap_read_is_fetched(transfers, index);
    }
    law_slot_by_position(line, at);
    lemma_answer_by_position(line, reply, at);
}

/// What the reply shows in the slot at `at`, told from the places of the bits.
proof fn lemma_answer_by_position(line: Seq<SwdTransfer>, reply: Seq<bool>, at: int)
    requires
        0 <= at < line.len(),
        reply.len() >= line_cycles(line).len(),
    ensures
        ({
            let start = slot_start(line, at);
            let sampled = reply.subrange(start + 13, start + 45);
            let accepted = reply[start + 10] && !reply[start + 11] && !reply[start + 12];
            let matching = reply[start + 45] == (sampled.to_multiset().count(true) % 2 == 1);
            match slot_outcome(line, reply, at) {
                Ok(word) => {
                    &&& accepted
                    &&& line[at].direction is Read ==> matching && forall|i: u32|
                        i < 32 ==> ((#[trigger] (word >> i)) & 1 == 1) == sampled[i as int]
                },
                Err(_) => accepted ==> line[at].direction is Read && !matching,
            }
        }),
{
    let start = slot_start(line, at);
    law_slot_by_position(line, at);
    let answer = reply.skip(start);
    assert(answer.subrange(13, 45) =~= reply.subrange(start + 13, start + 45));
    response::law_acknowledge_by_position(answer, line[at].direction);
    if answer[10] && !answer[11] && !answer[12] {
        response::law_acknowledged_read_by_position(answer);
        response::law_acknowledged_write_succeeds(answer);
        if let Ok(word) = slot_outcome(line, reply, at) {
            if line[at].direction is Read {
                let sampled = reply.subrange(start + 13, start + 45);
                assert forall|i: u32| i < 32 implies ((#[trigger] (word >> i)) & 1 == 1)
                    == sampled[i as int] by {
                    assert(answer[13 + i] == sampled[i as int]);
                }
            }
        }
    }
}

/// Which exchange performs a batch, and what becomes of the batch then: the exchange has
/// as many cycles as the line, is driven where and as the line says, and the reply of the
/// probe settles the transfers or, if it is an error, is the error.
pub proof fn law_batch_is_one_exchange(transfers: Seq<SwdTransfer>, event: ProbeEvent)
    ensures
        ({
            let cycles = line_cycles(on_line(transfers));
            match event {
                ProbeEvent::Exchange { direction, io, reply } => {
                    &&& batch_outcome(transfers, event) is Some <==> {
                        &&& direction.len() == cycles.len()
                        &&& io.len() == cycles.len()
                        &&& forall|i: int|
                            0 <= i < cycles.len() ==> (#[trigger] direction[i] <==> cycles[i]
                                != Cycle::Listen)
                        &&& forall|i: int|
                            0 <= i < cycles.len() ==> (#[trigger] io[i] <==> cycles[i]
                                == Cycle::Drive(true))
                    }
                    &&& batch_outcome(transfers, event) matches Some(result) ==> match reply {
                        Ok(bits) => result == Ok::<Seq<SwdTransfer>, DebugProbeError>(
                            all_settled(transfers, bits),
                        ),
                        Err(error) => result == Err::<Seq<SwdTransfer>, DebugProbeError>(error),
                    }
                },
                _ => batch_outcome(transfers, event) is None,
            }
        }),
{
    probe::law_reply_belongs_to_its_cycles(line_cycles(on_line(transfers)), event);
}

/// What goes over the line for a transfer on its own. A read from the debug port needs
/// nothing else; behind a read from an access port comes a read from register 0xC of the
/// debug port; behind a write come 16 cycles with the line low, and such a read.
pub proof fn law_single_transfer_line(transfer: SwdTransfer)
    ensures
        ({
            let cycles = line_cycles(on_line(seq![transfer]));
            let fetch = transfer::transfer_cycles(PortType::DebugPort, TransferType::Read, 0xC);
            match transfer.direction {
                TransferDirection::Read => {
                    let read = transfer::transfer_cycles(
                        transfer.port,
                        TransferType::Read,
                        transfer.address,
                    );
                    cycles == if transfer.port == PortType::DebugPort {
                        read
                    } else {
                        read + fetch
                    }
                },
                TransferDirection::Write => cycles == transfer::transfer_cycles(
                    transfer.port,
                    TransferType::Write(transfer.value),
                    transfer.address,
                ) + Seq::new(16, |i: int| Cycle::Drive(false)) + fetch,
            }
        }),
{
    let transfers = seq![transfer];
    let line = on_line(transfers);
    law_line_by_position(transfers, 0);
    law_slot_by_position(line, 0);
    assert(line_cycles(line).subrange(0, 48).len() == 48) by {
        transfer::law_response_length(transfer);
    }
    let own = line_cycles(line).subrange(0, 48);
    if line.len() == 2 {
        law_slot_by_position(line, 1);
        let start = slot_start(line, 1);
        let fetch = line_cycles(line).subrange(start, start + 48);
        if transfer.direction is Write {
            let idle = Seq::new(16, |i: int| Cycle::Drive(false));
            assert(line_cycles(line) =~= own + idle + fetch);
        } else {
            assert(line_cycles(line) =~= own + fetch);
        }
    } else {
        assert(line_cycles(line) =~= own);
    }
}

} // verus!
