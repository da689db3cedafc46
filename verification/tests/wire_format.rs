//! The bits of single transfers, and what is read from the bits sampled during them.

use jlink_swd::bits::{bits_to_byte, parity_bit};
use jlink_swd::registers::{Abort, Ctrl};
use jlink_swd::{
    build_swd_transfer, parse_swd_response, plan_transfers, rdbuff_read, response_length,
    settle_transfers, DapError, DebugProbeError, IoSequence, PortType, SwdTransfer,
    TransferDirection, TransferStatus, TransferType,
};

fn bits(text: &str) -> Vec<bool> {
    text.chars()
        .filter(|c| *c != ' ')
        .map(|c| c == '1')
        .collect()
}

fn response(ack: &str, word: u32) -> Vec<bool> {
    let mut sampled = vec![false; 10];
    sampled.extend(bits(ack));
    sampled.extend((0..32).map(|i| (word >> i) & 1 == 1));
    sampled.push(word.count_ones() % 2 == 1);
    sampled.extend([false, false]);
    sampled
}

#[test]
fn read_of_dpidr_on_the_line() {
    let sequence = build_swd_transfer(PortType::DebugPort, TransferType::Read, 0);
    let mut expected = bits("00 10100101");
    expected.extend(vec![false; 38]);
    assert_eq!(sequence.io_bits(), &expected[..]);
    let mut direction = vec![true; 10];
    direction.extend(vec![false; 38]);
    assert_eq!(sequence.direction_bits(), &direction[..]);
}

#[test]
fn write_of_targetsel_on_the_line() {
    let sequence = build_swd_transfer(
        PortType::DebugPort,
        TransferType::Write(0x0100_2927),
        0xC,
    );
    let expected = bits("00 10011001 00000 11100100 10010100 00000000 10000000 0");
    assert_eq!(sequence.io_bits(), &expected[..]);
    let direction = bits("11 11111111 00000 11111111 11111111 11111111 11111111 1");
    assert_eq!(sequence.direction_bits(), &direction[..]);
}

#[test]
fn header_bits_of_access_port_requests() {
    let read = build_swd_transfer(PortType::AccessPort(3), TransferType::Read, 0x4);
    assert_eq!(read.io_bits()[..10], bits("00 11110101")[..]);
    let write = build_swd_transfer(PortType::AccessPort(3), TransferType::Write(1), 0x8);
    assert_eq!(write.io_bits()[..10], bits("00 11001001")[..]);
    // One bit of the word is set, so the parity bit is too.
    assert!(write.io_bits()[15]);
    assert!(write.io_bits()[47]);
}

#[test]
fn only_two_address_bits_matter() {
    let a = build_swd_transfer(PortType::AccessPort(0), TransferType::Write(7), 0x4);
    let b = build_swd_transfer(PortType::AccessPort(9), TransferType::Write(7), 0xF7);
    assert_eq!(a.io_bits(), b.io_bits());
    let c = build_swd_transfer(PortType::AccessPort(0), TransferType::Write(7), 0xC);
    assert_ne!(a.io_bits(), c.io_bits());
}

#[test]
fn rdbuff_is_read_at_its_address() {
    let fetch = rdbuff_read();
    let read = build_swd_transfer(PortType::DebugPort, TransferType::Read, 0xC);
    assert_eq!(fetch.io_bits(), read.io_bits());
    assert_eq!(fetch.direction_bits(), read.direction_bits());
    assert_eq!(fetch.io_bits()[..10], bits("00 10111101")[..]);
}

#[test]
fn response_is_as_long_as_the_transfer() {
    assert_eq!(response_length(TransferDirection::Read), 48);
    assert_eq!(response_length(TransferDirection::Write), 48);
    let read = SwdTransfer::read(PortType::DebugPort, 0).io_sequence();
    let write = SwdTransfer::write(PortType::DebugPort, 0, 5).io_sequence();
    assert_eq!(read.io_bits().len(), 48);
    assert_eq!(write.direction_bits().len(), 48);
}

#[test]
fn sequence_keeps_levels_and_directions() {
    let mut sequence = IoSequence::new();
    assert!(sequence.io_bits().is_empty());
    sequence.add_output(true);
    sequence.add_input();
    sequence.add_output_sequence(&[false, true]);
    sequence.add_input_sequence(2);
    assert_eq!(sequence.io_bits(), &bits("100100")[..]);
    assert_eq!(sequence.direction_bits(), &bits("101100")[..]);
    let mut other = IoSequence::new();
    other.add_output(false);
    other.extend(&sequence);
    assert_eq!(other.io_bits(), &bits("0100100")[..]);
    assert_eq!(other.direction_bits(), &bits("1101100")[..]);
    assert_eq!(IoSequence::INPUT, false);
    assert_eq!(IoSequence::OUTPUT, true);
}

#[test]
fn words_are_shifted_low_bit_first() {
    assert_eq!(bits_to_byte(&[]), 0);
    assert_eq!(bits_to_byte(&bits("1101")), 11);
    assert_eq!(bits_to_byte(&vec![true; 32]), u32::MAX);
    assert_eq!(
        bits_to_byte(&bits("11100100 10010100 00000000 10000000")),
        0x0100_2927
    );
    assert!(!parity_bit(&[]));
    assert!(parity_bit(&bits("1101")));
    assert!(!parity_bit(&bits("1100")));
}

#[test]
fn transfer_types_and_kinds() {
    let read = SwdTransfer::read(PortType::AccessPort(1), 4);
    let write = SwdTransfer::write(PortType::AccessPort(1), 4, 99);
    let dp_read = SwdTransfer::read(PortType::DebugPort, 4);
    assert_eq!(read.transfer_type(), TransferType::Read);
    assert_eq!(write.transfer_type(), TransferType::Write(99));
    assert!(read.is_ap_read());
    assert!(!write.is_ap_read());
    assert!(!dp_read.is_ap_read());
    assert!(write.is_write());
    assert!(!read.is_write());
    assert_eq!(read.status, TransferStatus::Pending);
    assert_eq!(read.value, 0);
}

#[test]
fn read_gives_the_word() {
    for word in [0, 1, 0x1234_5678, u32::MAX, 0x8000_0000] {
        let sampled = response("100", word);
        assert_eq!(parse_swd_response(&sampled, TransferDirection::Read), Ok(word));
        assert_eq!(parse_swd_response(&sampled, TransferDirection::Write), Ok(0));
    }
}

#[test]
fn acknowledge_decides() {
    for direction in [TransferDirection::Read, TransferDirection::Write] {
        let outcome = |ack: &str| parse_swd_response(&response(ack, 5), direction);
        assert_eq!(outcome("111"), Err(DapError::NoAcknowledge));
        assert_eq!(outcome("010"), Err(DapError::WaitResponse));
        assert_eq!(outcome("110"), Err(DapError::WaitResponse));
        assert_eq!(outcome("011"), Err(DapError::WaitResponse));
        assert_eq!(outcome("001"), Err(DapError::FaultResponse));
        assert_eq!(outcome("101"), Err(DapError::FaultResponse));
        assert_eq!(outcome("000"), Err(DapError::SwdProtocol));
    }
}

#[test]
fn one_inverted_bit_is_noticed() {
    let sampled = response("100", 0x0F0F_1234);
    for at in 13..46 {
        let mut inverted = sampled.clone();
        inverted[at] = !inverted[at];
        assert_eq!(
            parse_swd_response(&inverted, TransferDirection::Read),
            Err(DapError::IncorrectParity)
        );
    }
}

#[test]
fn bits_behind_the_parity_bit_are_ignored() {
    let mut sampled = response("100", 77);
    sampled.truncate(46);
    assert_eq!(parse_swd_response(&sampled, TransferDirection::Read), Ok(77));
    sampled.extend(vec![true; 100]);
    assert_eq!(parse_swd_response(&sampled, TransferDirection::Read), Ok(77));
}

#[test]
fn flags_of_the_debug_port() {
    let clear = |orunerrclr, stkerrclr| Abort { orunerrclr, stkerrclr }.value();
    assert_eq!(clear(true, false), 0x10);
    assert_eq!(clear(false, true), 0x4);
    assert_eq!(clear(true, true), 0x14);
    assert_eq!(clear(false, false), 0);
    assert_eq!(
        Ctrl::from_word(0x2),
        Ctrl { sticky_orun: true, sticky_err: false }
    );
    assert_eq!(
        Ctrl::from_word(0xF000_0020),
        Ctrl { sticky_orun: false, sticky_err: true }
    );
    assert_eq!(
        Ctrl::from_word(!0x22),
        Ctrl { sticky_orun: false, sticky_err: false }
    );
}

#[test]
fn wire_errors_become_probe_errors() {
    assert_eq!(
        DebugProbeError::from(DapError::SwdProtocol),
        DebugProbeError::ArchitectureSpecific(DapError::SwdProtocol)
    );
}

#[test]
fn plan_of_a_mixed_batch() {
    let (r, w) = (TransferDirection::Read, TransferDirection::Write);
    let ap = PortType::AccessPort(0);
    let dp = PortType::DebugPort;
    let transfers = [
        SwdTransfer::read(ap, 4),      // line 0, answered at 1
        SwdTransfer::read(ap, 8),      // line 1, fetched at 2
        SwdTransfer::write(ap, 4, 1),  // line 3, fetched at 4
        SwdTransfer::read(dp, 4),      // line 5
        SwdTransfer::write(dp, 8, 2),  // line 6, reported at 7
        SwdTransfer::write(ap, 4, 3),  // line 7, reported at 8
        SwdTransfer::read(dp, 0xC),    // line 8
    ];
    let plan = plan_transfers(&transfers);
    assert_eq!(
        plan.expected_responses,
        vec![r, r, r, w, r, r, w, w, r]
    );
    assert_eq!(plan.result_indices, vec![1, 2, 4, 5, 7, 8, 8]);
    assert_eq!(plan.sequence.io_bits().len(), 9 * 48 + 3 * 16);
}

#[test]
fn buffered_writes_are_waited_for() {
    let ap_write = SwdTransfer::write(PortType::AccessPort(0), 0, 1);
    let line_length = |next: SwdTransfer| {
        let plan = plan_transfers(&[ap_write, next]);
        plan.expected_responses.len()
    };
    // A write to ABORT, and a read from DPIDR or CTRL/STAT.
    assert_eq!(line_length(SwdTransfer::write(PortType::DebugPort, 0, 1)), 4);
    assert_eq!(line_length(SwdTransfer::read(PortType::DebugPort, 0)), 3);
    assert_eq!(line_length(SwdTransfer::read(PortType::DebugPort, 4)), 3);
    // These are stalled while a write is buffered.
    assert_eq!(line_length(SwdTransfer::write(PortType::DebugPort, 4, 1)), 3);
    assert_eq!(line_length(SwdTransfer::read(PortType::DebugPort, 8)), 2);
    assert_eq!(line_length(SwdTransfer::read(PortType::AccessPort(0), 0)), 3);
}

#[test]
fn empty_batch_needs_nothing() {
    let plan = plan_transfers(&[]);
    assert!(plan.expected_responses.is_empty());
    assert!(plan.result_indices.is_empty());
    assert!(plan.sequence.io_bits().is_empty());
}

#[test]
fn each_transfer_gets_its_own_answer() {
    let mut transfers = [
        SwdTransfer::write(PortType::AccessPort(0), 4, 0xAAAA),
        SwdTransfer::read(PortType::AccessPort(0), 8),
        SwdTransfer::read(PortType::DebugPort, 8),
    ];
    let plan = plan_transfers(&transfers);
    // The write, the read, the fetch, the read.
    let mut reply = response("100", 0);
    reply.extend(vec![false; 16]);
    reply.extend(response("001", 0));
    reply.extend(response("100", 0xBEEF));
    let mut garbled = response("100", 1);
    garbled[13] = false;
    reply.extend(garbled);
    assert_eq!(reply.len(), plan.sequence.io_bits().len());
    settle_transfers(&mut transfers, &plan, &reply);
    assert_eq!(
        transfers[0].status,
        TransferStatus::Failed(DapError::FaultResponse)
    );
    assert_eq!(transfers[0].value, 0xAAAA);
    assert_eq!(transfers[1].status, TransferStatus::Success);
    assert_eq!(transfers[1].value, 0xBEEF);
    assert_eq!(
        transfers[2].status,
        TransferStatus::Failed(DapError::IncorrectParity)
    );
    assert_eq!(transfers[2].value, 0);
}
