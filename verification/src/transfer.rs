use vstd::prelude::*;

use crate::bits;
use crate::error::DapError;
use crate::registers::{PortType, RDBUFF_ADDRESS};
use crate::sequence;
use crate::sequence::{Cycle, IoSequence};

verus! {

/// Whether a transfer reads or writes.
#[derive(Debug, Clone, Copy, PartialEq, Eq, Structural)]
pub enum TransferDirection {
    Read,
    Write,
}

/// Whether a transfer reads, or writes which value.
#[derive(Debug, Clone, Copy, PartialEq, Eq, Structural)]
pub enum TransferType {
    Read,
    Write(u32),
}

/// How far a transfer has got.
#[derive(Debug, Clone, Copy, PartialEq, Eq, Structural)]
pub enum TransferStatus {
    /// Not performed yet.
    Pending,
    /// The target accepted the transfer.
    Success,
    /// The transfer failed.
    Failed(DapError),
}

/// One access to a register of the debug port or of an access port.
#[derive(Debug, Clone, Copy, PartialEq, Eq, Structural)]
pub struct SwdTransfer {
    pub port: PortType,
    pub direction: TransferDirection,
    pub address: u16,
    /// The value to write, or the value that was read.
    pub value: u32,
    pub status: TransferStatus,
}

/// Number of cycles for which the line is held low after a write.
pub const IDLE_CYCLES: usize = 16;

/// The ten bits that open a transfer: two idle bits, the start bit, APnDP, RnW,
/// bits 2 and 3 of the address, the parity over these four, the stop bit and the
/// park bit.
pub open spec fn request_bits(port: PortType, kind: TransferType, address: u16) -> Seq<bool> {
    let selected = seq![
        port is AccessPort,
        kind is Read,
        (address / 4) % 2 == 1,
        (address / 8) % 2 == 1,
    ];
    seq![false, false, true] + selected + seq![bits::parity(selected), false, true]
}

/// The cycles that follow the acknowledge: for a read the target shifts the word
/// and its parity and the line turns around; for a write the line turns around
/// and the probe shifts the word and its parity.
pub open spec fn data_cycles(kind: TransferType) -> Seq<Cycle> {
    match kind {
        TransferType::Read => sequence::listening(34),
        TransferType::Write(word) => seq![Cycle::Listen] + sequence::driven(
            bits::word_bits(word),
        ) + seq![Cycle::Drive(bits::parity(bits::word_bits(word)))],
    }
}

/// The cycles of one transfer: the request, a turnaround and the three bits of
/// the acknowledge, and the data.
pub open spec fn transfer_cycles(port: PortType, kind: TransferType, address: u16) -> Seq<Cycle> {
    sequence::driven(request_bits(port, kind, address)) + sequence::listening(4) + data_cycles(kind)
}

impl SwdTransfer {
    /// The type of this transfer, with the value if it is a write.
    pub open spec fn kind(self) -> TransferType {
        match self.direction {
            TransferDirection::Read => TransferType::Read,
            TransferDirection::Write => TransferType::Write(self.value),
        }
    }

    /// The cycles that perform this transfer.
    pub open spec fn cycles(self) -> Seq<Cycle> {
        transfer_cycles(self.port, self.kind(), self.address)
    }

    /// Whether this reads from an access port.
    pub open spec fn reads_ap(self) -> bool {
        self.port is AccessPort && self.direction is Read
    }

    /// Whether this writes to an access port.
    pub open spec fn writes_ap(self) -> bool {
        self.port is AccessPort && self.direction is Write
    }

    /// A read that was not performed yet.
    pub open spec fn spec_read(port: PortType, address: u16) -> SwdTransfer {
        SwdTransfer {
            port,
            direction: TransferDirection::Read,
            address,
            value: 0,
            status: TransferStatus::Pending,
        }
    }

    /// A write that was not performed yet.
    pub open spec fn spec_write(port: PortType, address: u16, value: u32) -> SwdTransfer {
        SwdTransfer {
            port,
            direction: TransferDirection::Write,
            address,
            value,
            status: TransferStatus::Pending,
        }
    }

    /// The read from RDBUFF, which fetches what an earlier transfer left behind.
    pub open spec fn spec_rdbuff_read() -> SwdTransfer {
        SwdTransfer::spec_read(PortType::DebugPort, RDBUFF_ADDRESS)
    }

    /// A read of the register at `address`.
    pub fn read(port: PortType, address: u16) -> (transfer: SwdTransfer)
        ensures
            transfer == SwdTransfer::spec_read(port, address),
            transfer.port == port,
            transfer.direction is Read,
            transfer.address == address,
            transfer.value == 0,
            transfer.status is Pending,
    {
        SwdTransfer {
            port,
            address,
            direction: TransferDirection::Read,
            value: 0,
            status: TransferStatus::Pending,
        }
    }

    /// A write of `value` to the register at `address`.
    pub fn write(port: PortType, address: u16, value: u32) -> (transfer: SwdTransfer)
        ensures
            transfer == SwdTransfer::spec_write(port, address, value),
            transfer.port == port,
            transfer.direction is Write,
            transfer.address == address,
            transfer.value == value,
            transfer.status is Pending,
    {
        SwdTransfer {
            port,
            address,
            value,
            direction: TransferDirection::Write,
            status: TransferStatus::Pending,
        }
    }

    /// The type of this transfer, with the value if it is a write.
    pub fn transfer_type(&self) -> (kind: TransferType)
        ensures
            kind == self.kind(),
            self.direction is Read ==> kind == TransferType::Read,
            self.direction is Write ==> kind == TransferType::Write(self.value),
    {
        match self.direction {
            TransferDirection::Read => TransferType::Read,
            TransferDirection::Write => TransferType::Write(self.value),
        }
    }

    /// The cycles that perform this transfer.
    pub fn io_sequence(&self) -> (sequence: IoSequence)
        ensures
            sequence.wf(),
            sequence@ == self.cycles(),
            self.direction is Read ==> sequence@ == transfer_cycles(
                self.port,
                TransferType::Read,
                self.address,
            ),
            self.direction is Write ==> sequence@ == transfer_cycles(
                self.port,
                TransferType::Write(self.value),
                self.address,
            ),
    {
        build_swd_transfer(self.port, self.transfer_type(), self.address)
    }

    /// Whether this reads from an access port.
    pub fn is_ap_read(&self) -> (result: bool)
        ensures
            result == self.reads_ap(),
            result == (self.port is AccessPort && self.direction is Read),
    {
        matches!(self.port, PortType::AccessPort(_)) && self.direction == TransferDirection::Read
    }

    /// Whether this is a write.
    pub fn is_write(&self) -> (result: bool)
        ensures
            result == (self.direction is Write),
    {
        self.direction == TransferDirection::Write
    }
}

/// The cycles that read RDBUFF.
pub fn rdbuff_read() -> (sequence: IoSequence)
    ensures
        sequence.wf(),
        sequence@ == SwdTransfer::spec_rdbuff_read().cycles(),
        sequence@ == transfer_cycles(PortType::DebugPort, TransferType::Read, 0xC),
{
    SwdTransfer::read(PortType::DebugPort, RDBUFF_ADDRESS).io_sequence()
}

/// Assembles the cycles of one transfer.
pub fn build_swd_transfer(port: PortType, direction: TransferType, address: u16) -> (sequence:
    IoSequence)
    ensures
        sequence.wf(),
        sequence@ == transfer_cycles(port, direction, address),
{
    // APnDP is set for an access port.
    let apndp: bool = match port {
        PortType::DebugPort => false,
        PortType::AccessPort(_) => true,
    };

    // RnW is set for a read.
    let rnw: bool = direction == TransferType::Read;

    // Registers are 32 bits wide and addressed by byte, so only bits 2 and 3 of
    // the address select one.
    assert((address >> 2) & 0x01 == (address / 4) % 2) by (bit_vector);
    assert((address >> 3) & 0x01 == (address / 8) % 2) by (bit_vector);
    let a2: bool = (address >> 2) & 0x01 == 1;
    let a3: bool = (address >> 3) & 0x01 == 1;

    let mut sequence = IoSequence::new();

    // The line has to be idle for at least two cycles.
    sequence.add_output(false);
    sequence.add_output(false);

    // Start bit.
    sequence.add_output(true);

    sequence.add_output(apndp);
    sequence.add_output(rnw);
    sequence.add_output(a2);
    sequence.add_output(a3);

    // Parity over APnDP, RnW and the address bits.
    sequence.add_output(apndp ^ rnw ^ a2 ^ a3);

    // Stop bit.
    sequence.add_output(false);

    // Park bit.
    sequence.add_output(true);

    proof {
        lemma_parity_of_four(apndp, rnw, a2, a3);
        assert(sequence@ =~= sequence::driven(request_bits(port, direction, address)));
    }

    // Turnaround bit.
    sequence.add_input();

    // Acknowledge bits.
    sequence.add_input_sequence(3);

    let ghost opening = sequence@;
    assert(opening =~= sequence::driven(request_bits(port, direction, address))
        + sequence::listening(4));

    if let TransferType::Write(word) = direction {
        // With the turnaround before the acknowledge this makes two for a write.
        sequence.add_input();

        let mut value: u32 = word;
        let mut parity: bool = false;
        let mut count: u32 = 0;
        let ghost all = bits::word_bits(word);
        let ghost prefix = opening.push(Cycle::Listen);
        assert(sequence@ + sequence::driven(all) =~= prefix + sequence::driven(all));
        while count < 32
            invariant
                count <= 32,
                sequence.wf(),
                all == bits::word_bits(word),
                sequence@ + sequence::driven(bits::low_bits(value as nat, (32 - count) as nat))
                    == prefix + sequence::driven(all),
                parity == (bits::parity(bits::low_bits(value as nat, (32 - count) as nat))
                    != bits::parity(all)),
            decreases 32 - count,
        {
            let ghost left = bits::low_bits(value as nat, (32 - count) as nat);
            let ghost before = sequence@;
            assert(value & 1 == value % 2) by (bit_vector);
            assert(value >> 1 == value / 2) by (bit_vector);
            let bit: bool = value & 1 == 1;
            sequence.add_output(bit);
            parity = parity ^ bit;
            value = value >> 1;
            count = count + 1;
            proof {
                let rest = bits::low_bits(value as nat, (32 - count) as nat);
                assert(left =~= seq![bit] + rest);
                assert(left.drop_first() =~= rest);
                assert(sequence@ + sequence::driven(rest) =~= before + sequence::driven(left));
            }
        }
        assert(sequence@ =~= prefix + sequence::driven(all));

        sequence.add_output(parity);
        assert(sequence@ =~= opening + data_cycles(direction));
    } else {
        // The data bits.
        sequence.add_input_sequence(32);

        // The parity bit.
        sequence.add_input();

        // Turnaround bit.
        sequence.add_input();

        assert(sequence@ =~= opening + data_cycles(direction));
    }

    sequence
}

proof fn lemma_parity_of_four(a: bool, b: bool, c: bool, d: bool)
    ensures
        bits::parity(seq![a, b, c, d]) == (a ^ b ^ c ^ d),
{
    reveal_with_fuel(bits::ones, 5);
    assert(seq![a, b, c, d].drop_first() =~= seq![b, c, d]);
    assert(seq![b, c, d].drop_first() =~= seq![c, d]);
    assert(seq![c, d].drop_first() =~= seq![d]);
}

/// The number of bits that a probe hands back for one transfer: two idle bits,
/// eight request bits, three acknowledge bits, two turnaround bits, the word and
/// its parity.
pub fn response_length(direction: TransferDirection) -> (length: usize)
    ensures
        length == spec_response_length(direction),
        length == 48,
{
    match direction {
        TransferDirection::Read => 2 + 8 + 3 + 32 + 1 + 2,
        TransferDirection::Write => 2 + 8 + 3 + 2 + 32 + 1,
    }
}

/// The number of bits that a probe hands back for one transfer.
pub open spec fn spec_response_length(direction: TransferDirection) -> nat {
    match direction {
        TransferDirection::Read => 48,
        TransferDirection::Write => 48,
    }
}

/// A probe hands back as many bits for a transfer as the transfer has cycles.
pub proof fn law_response_length(transfer: SwdTransfer)
    ensures
        transfer.cycles().len() == spec_response_length(transfer.direction),
{
    bits::lemma_low_bits_len(transfer.value as nat, 32);
}

/// Two transfers look the same on the line if and only if they go to the same kind of
/// port, do the same, and select the same register by bits 2 and 3 of the address.
pub proof fn law_cycles_identify_transfer(
    port: PortType,
    kind: TransferType,
    address: u16,
    other_port: PortType,
    other_kind: TransferType,
    other_address: u16,
)
    ensures
        transfer_cycles(port, kind, address) == transfer_cycles(
            other_port,
            other_kind,
            other_address,
        ) <==> {
            &&& (port is AccessPort) == (other_port is AccessPort)
            &&& kind == other_kind
            &&& (address / 4) % 4 == (other_address / 4) % 4
        },
{
    let cycles = transfer_cycles(port, kind, address);
    let others = transfer_cycles(other_port, other_kind, other_address);
    assert((address / 4) % 4 == (address / 4) % 2 + 2 * ((address / 8) % 2)) by (bit_vector);
    assert((other_address / 4) % 4 == (other_address / 4) % 2 + 2 * ((other_address / 8) % 2))
        by (bit_vector);
    assert(cycles[3] == Cycle::Drive(port is AccessPort));
    assert(cycles[4] == Cycle::Drive(kind is Read));
    assert(cycles[5] == Cycle::Drive((address / 4) % 2 == 1));
    assert(cycles[6] == Cycle::Drive((address / 8) % 2 == 1));
    assert(others[3] == Cycle::Drive(other_port is AccessPort));
    assert(others[4] == Cycle::Drive(other_kind is Read));
    assert(others[5] == Cycle::Drive((other_address / 4) % 2 == 1));
    assert(others[6] == Cycle::Drive((other_address / 8) % 2 == 1));
    if cycles == others {
        if let (TransferType::Write(word), TransferType::Write(other_word)) = (kind, other_kind) {
            bits::lemma_low_bits_len(word as nat, 32);
            bits::lemma_low_bits_len(other_word as nat, 32);
            assert forall|i: int| 0 <= i < 32 implies bits::word_bits(word)[i] == bits::word_bits(
                other_word,
            )[i] by {
                assert(cycles[15 + i] == Cycle::Drive(bits::word_bits(word)[i]));
                assert(others[15 + i] == Cycle::Drive(bits::word_bits(other_word)[i]));
            }
            assert(bits::word_bits(word) =~= bits::word_bits(other_word));
            vstd::arithmetic::power2::lemma2_to64();
            bits::law_value_of_low_bits(word as nat, 32);
            bits::law_value_of_low_bits(other_word as nat, 32);
        }
    }
}

/// The bits that select a register go out with an even number of set bits in all,
/// and so do the bits of a word that is written.
pub proof fn law_parity_makes_even(port: PortType, kind: TransferType, address: u16, word: u32)
    ensures
        !bits::parity(request_bits(port, kind, address).subrange(3, 8)),
        !bits::parity(bits::word_bits(word).push(bits::parity(bits::word_bits(word)))),
{
    let selected = seq![
        port is AccessPort,
        kind is Read,
        (address / 4) % 2 == 1,
        (address / 8) % 2 == 1,
    ];
    assert(request_bits(port, kind, address).subrange(3, 8) =~= selected.push(
        bits::parity(selected),
    ));
    bits::lemma_parity_push(selected, bits::parity(selected));
    bits::lemma_parity_push(bits::word_bits(word), bits::parity(bits::word_bits(word)));
}

/// What every transfer puts on the line, cycle by cycle: two idle cycles, the start bit,
/// APnDP, RnW, bit 2 and then bit 3 of the address, the parity of these four, the stop bit
/// and the park bit, and then four cycles for the turnaround and the acknowledge.
pub proof fn law_request_by_position(port: PortType, kind: TransferType, address: u16)
    ensures
        ({
            let cycles = transfer_cycles(port, kind, address);
            let apndp = port != PortType::DebugPort;
            let rnw = kind == TransferType::Read;
            let a2 = address & 0x4 != 0;
            let a3 = address & 0x8 != 0;
            &&& cycles.len() == 48
            &&& cycles[0] == Cycle::Drive(false)
            &&& cycles[1] == Cycle::Drive(false)
            &&& cycles[2] == Cycle::Drive(true)
            &&& cycles[3] == Cycle::Drive(apndp)
            &&& cycles[4] == Cycle::Drive(rnw)
            &&& cycles[5] == Cycle::Drive(a2)
            &&& cycles[6] == Cycle::Drive(a3)
            &&& cycles[7] == Cycle::Drive(apndp ^ rnw ^ a2 ^ a3)
            &&& cycles[8] == Cycle::Drive(false)
            &&& cycles[9] == Cycle::Drive(true)
            &&& cycles[10] == Cycle::Listen
            &&& cycles[11] == Cycle::Listen
            &&& cycles[12] == Cycle::Listen
            &&& cycles[13] == Cycle::Listen
        }),
{
    if let TransferType::Write(word) = kind {
        bits::lemma_low_bits_len(word as nat, 32);
    }
    assert(((address / 4) % 2 == 1) == (address & 0x4 != 0)) by (bit_vector);
    assert(((address / 8) % 2 == 1) == (address & 0x8 != 0)) by (bit_vector);
    lemma_parity_of_four(
        port is AccessPort,
        kind is Read,
        (address / 4) % 2 == 1,
        (address / 8) % 2 == 1,
    );
}

/// What a read puts on the line behind the acknowledge: the probe never drives the line.
pub proof fn law_read_data_by_position(port: PortType, address: u16)
    ensures
        forall|i: int|
            14 <= i < 48 ==> #[trigger] transfer_cycles(port, TransferType::Read, address)[i]
                == Cycle::Listen,
{
}

/// What a write puts on the line behind the acknowledge: a turnaround, the 32 bits of the
/// word from the lowest on, and a parity bit that is set if and only if an odd number of
/// them is.
pub proof fn law_write_data_by_position(port: PortType, word: u32, address: u16)
    ensures
        ({
            let cycles = transfer_cycles(port, TransferType::Write(word), address);
            let sent = Seq::new(32, |i: int| (word >> (i as u32)) & 1 == 1);
            &&& cycles[14] == Cycle::Listen
            &&& forall|i: int| 0 <= i < 32 ==> #[trigger] cycles[15 + i] == Cycle::Drive(sent[i])
            &&& cycles[47] == Cycle::Drive(sent.to_multiset().count(true) % 2 == 1)
        }),
{
    let cycles = transfer_cycles(port, TransferType::Write(word), address);
    let sent = Seq::new(32, |i: int| (word >> (i as u32)) & 1 == 1);
    bits::law_word_bits_by_position(word);
    assert forall|i: int| 0 <= i < 32 implies bits::word_bits(word)[i] == sent[i] by {
        assert(bits::word_bits(word)[(i as u32) as int] == ((word >> (i as u32)) & 1 == 1));
    }
    assert(bits::word_bits(word) =~= sent);
    bits::law_parity_counts_set_bits(sent);
    assert forall|i: int| 0 <= i < 32 implies #[trigger] cycles[15 + i] == Cycle::Drive(
        sent[i],
    ) by {
        assert(cycles[15 + i] == Cycle::Drive(bits::word_bits(word)[i]));
    }
}

/// A transfer is sent as what it is: a read as a read, and a write with its own value,
/// both to its own port and address.
pub proof fn law_transfer_is_sent_as_it_is(transfer: SwdTransfer)
    ensures
        transfer.direction is Read ==> transfer.cycles() == transfer_cycles(
            transfer.port,
            TransferType::Read,
            transfer.address,
        ),
        transfer.direction is Write ==> transfer.cycles() == transfer_cycles(
            transfer.port,
            TransferType::Write(transfer.value),
            transfer.address,
        ),
        transfer.reads_ap() == (transfer.port is AccessPort && transfer.direction is Read),
        transfer.writes_ap() == (transfer.port is AccessPort && transfer.direction is Write),
{
}

/// A new read or write has the port, the address and the value that it was made with, and
/// the read from RDBUFF is a read from the register of the debug port at 0xC.
pub proof fn law_new_transfers(port: PortType, address: u16, value: u32)
    ensures
        ({
            let read = SwdTransfer::spec_read(port, address);
            &&& read.port == port && read.address == address && read.direction is Read
            &&& read.value == 0 && read.status is Pending
        }),
        ({
            let write = SwdTransfer::spec_write(port, address, value);
            &&& write.port == port && write.address == address && write.direction is Write
            &&& write.value == value && write.status is Pending
        }),
        ({
            let fetch = SwdTransfer::spec_rdbuff_read();
            &&& fetch.port == PortType::DebugPort && fetch.address == 0xC
            &&& fetch.direction is Read && fetch.value == 0 && fetch.status is Pending
        }),
        IDLE_CYCLES == 16,
        spec_response_length(TransferDirection::Read) == 48,
        spec_response_length(TransferDirection::Write) == 48,
{
}

} // verus!
