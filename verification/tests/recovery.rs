//! What register accesses do when the target does not accept a request at once.

use std::collections::VecDeque;

use jlink_swd::access::{access_register, check_block, take_values};
use jlink_swd::{
    build_swd_transfer, perform_transfers, rdbuff_read, swd_line_reset, DAPAccess, DapError,
    DebugProbeError, IoSequence, PortType, RawSwdIo, SwdTransfer, TransferStatus, TransferType,
};

/// Answers with prepared replies and keeps what it was sent.
struct ScriptedProbe {
    replies: VecDeque<Result<Vec<bool>, DebugProbeError>>,
    resets: VecDeque<Result<(), DebugProbeError>>,
    sent: Vec<(Vec<bool>, Vec<bool>)>,
    resets_done: usize,
    calls: String,
}

impl ScriptedProbe {
    fn new() -> Self {
        ScriptedProbe {
            replies: VecDeque::new(),
            resets: VecDeque::new(),
            sent: Vec::new(),
            resets_done: 0,
            calls: String::new(),
        }
    }

    fn reply(mut self, parts: &[Vec<bool>]) -> Self {
        self.replies.push_back(Ok(parts.concat()));
        self
    }

    fn fail(mut self, message: &str) -> Self {
        self.replies.push_back(Err(broken(message)));
        self
    }
}

impl RawSwdIo for ScriptedProbe {
    fn swd_io(&mut self, dir: Vec<bool>, swdio: Vec<bool>) -> Result<Vec<bool>, DebugProbeError> {
        assert_eq!(dir.len(), swdio.len());
        self.calls.push('x');
        let length = dir.len();
        self.sent.push((dir, swdio));
        let reply = self.replies.pop_front().expect("no reply left");
        if let Ok(sampled) = &reply {
            assert_eq!(sampled.len(), length);
        }
        reply
    }

    fn swd_line_reset(&mut self) -> Result<(), DebugProbeError> {
        self.calls.push('r');
        self.resets_done += 1;
        self.resets.pop_front().unwrap_or(Ok(()))
    }
}

fn broken(message: &str) -> DebugProbeError {
    DebugProbeError::ProbeSpecific(message.to_string())
}

fn wire(error: DapError) -> DebugProbeError {
    DebugProbeError::ArchitectureSpecific(error)
}

fn read_slot(ack: [bool; 3], word: u32) -> Vec<bool> {
    let mut sampled = vec![false; 10];
    sampled.extend(ack);
    sampled.extend((0..32).map(|i| (word >> i) & 1 == 1));
    sampled.push(word.count_ones() % 2 == 1);
    sampled.extend([false, false]);
    sampled
}

fn write_slot() -> Vec<bool> {
    let mut sampled = read_slot(ACCEPT, 0);
    sampled.extend([false; 16]);
    sampled
}

const ACCEPT: [bool; 3] = [true, false, false];
const WAIT: [bool; 3] = [false, true, false];
const FAULT: [bool; 3] = [false, false, true];
const SILENT: [bool; 3] = [true, true, true];
const GARBAGE: [bool; 3] = [false, false, false];

const DP: PortType = PortType::DebugPort;
const AP: PortType = PortType::AccessPort(0);

/// The bits of a write to ABORT with the fetch behind it.
fn abort_bits(value: u32) -> (Vec<bool>, Vec<bool>) {
    let mut sequence = build_swd_transfer(DP, TransferType::Write(value), 0);
    sequence.add_output_sequence(&[false; 16]);
    sequence.extend(&rdbuff_read());
    both(&sequence)
}

fn both(sequence: &IoSequence) -> (Vec<bool>, Vec<bool>) {
    (
        sequence.direction_bits().to_vec(),
        sequence.io_bits().to_vec(),
    )
}

#[test]
fn accepted_read_takes_one_exchange() {
    let mut probe = ScriptedProbe::new().reply(&[read_slot(ACCEPT, 0xCAFE)]);
    assert_eq!(probe.read_register(DP, 4), Ok(0xCAFE));
    assert_eq!(
        probe.sent,
        vec![both(&build_swd_transfer(DP, TransferType::Read, 4))]
    );
    assert_eq!(probe.resets_done, 0);
}

#[test]
fn probe_error_is_returned_at_once() {
    let mut probe = ScriptedProbe::new().fail("unplugged");
    assert_eq!(probe.read_register(AP, 4), Err(broken("unplugged")));
    let mut probe = ScriptedProbe::new().fail("unplugged");
    assert_eq!(probe.write_register(AP, 4, 1), Err(broken("unplugged")));
    assert_eq!(probe.sent.len(), 1);

    let mut probe = ScriptedProbe::new().fail("unplugged");
    let mut transfers = [SwdTransfer::read(DP, 0)];
    assert_eq!(
        perform_transfers(&mut probe, &mut transfers),
        Err(broken("unplugged"))
    );
    assert_eq!(transfers[0].status, TransferStatus::Pending);
}

#[test]
fn wait_clears_the_overrun_and_retries() {
    let mut probe = ScriptedProbe::new()
        .reply(&[read_slot(WAIT, 0)])
        .reply(&[write_slot(), read_slot(ACCEPT, 0)])
        .reply(&[read_slot(ACCEPT, 3)]);
    assert_eq!(probe.read_register(DP, 8), Ok(3));
    let request = both(&build_swd_transfer(DP, TransferType::Read, 8));
    assert_eq!(probe.sent[0], request);
    assert_eq!(probe.sent[1], abort_bits(0x10));
    assert_eq!(probe.sent[2], request);
}

#[test]
fn wait_while_clearing_is_recovered_from_too() {
    let mut probe = ScriptedProbe::new()
        .reply(&[read_slot(WAIT, 0)])
        .reply(&[write_slot(), read_slot(WAIT, 0)])
        .reply(&[write_slot(), read_slot(ACCEPT, 0)])
        .reply(&[write_slot(), read_slot(ACCEPT, 0)])
        .reply(&[read_slot(ACCEPT, 3)]);
    assert_eq!(probe.read_register(DP, 8), Ok(3));
    assert_eq!(probe.sent.len(), 5);
    assert_eq!(probe.sent[2], abort_bits(0x10));
}

#[test]
fn endless_wait_times_out() {
    let mut probe = ScriptedProbe::new();
    for _ in 0..20 {
        probe = probe
            .reply(&[read_slot(WAIT, 0)])
            .reply(&[write_slot(), read_slot(ACCEPT, 0)]);
    }
    assert_eq!(probe.read_register(DP, 8), Err(DebugProbeError::Timeout));
    assert_eq!(probe.sent.len(), 40);
}

#[test]
fn error_while_clearing_is_returned() {
    let mut probe = ScriptedProbe::new()
        .reply(&[read_slot(WAIT, 0)])
        .fail("unplugged");
    assert_eq!(probe.read_register(DP, 8), Err(broken("unplugged")));
}

#[test]
fn fault_is_reported_and_its_flags_cleared() {
    for (word, cleared) in [(0x2, Some(0x10)), (0x20, Some(0x4)), (0x22, Some(0x14)), (0x1, None)] {
        let mut probe = ScriptedProbe::new()
            .reply(&[write_slot(), read_slot(FAULT, 0)])
            .reply(&[read_slot(ACCEPT, word)])
            .reply(&[write_slot(), read_slot(ACCEPT, 0)]);
        assert_eq!(
            probe.write_register(AP, 0, 7),
            Err(wire(DapError::FaultResponse))
        );
        assert_eq!(
            probe.sent[1],
            both(&build_swd_transfer(DP, TransferType::Read, 4))
        );
        match cleared {
            Some(value) => {
                assert_eq!(probe.sent.len(), 3);
                assert_eq!(probe.sent[2], abort_bits(value));
            }
            None => assert_eq!(probe.sent.len(), 2),
        }
    }
}

#[test]
fn error_while_reading_flags_is_returned() {
    let mut probe = ScriptedProbe::new()
        .reply(&[read_slot(FAULT, 0)])
        .fail("unplugged");
    assert_eq!(probe.read_register(DP, 8), Err(broken("unplugged")));
}

#[test]
fn silence_resets_the_line_and_retries() {
    for ack in [SILENT, GARBAGE] {
        let mut probe = ScriptedProbe::new()
            .reply(&[read_slot(ack, 0)])
            .reply(&[read_slot(ACCEPT, 9)]);
        assert_eq!(probe.read_register(DP, 8), Ok(9));
        assert_eq!(probe.resets_done, 1);
    }
}

#[test]
fn wrong_parity_resets_the_line_and_retries() {
    let mut garbled = read_slot(ACCEPT, 1);
    garbled[20] = true;
    let mut probe = ScriptedProbe::new()
        .reply(&[garbled])
        .reply(&[read_slot(ACCEPT, 1)]);
    assert_eq!(probe.read_register(DP, 8), Ok(1));
    assert_eq!(probe.resets_done, 1);
}

#[test]
fn endless_silence_times_out() {
    let mut probe = ScriptedProbe::new();
    for _ in 0..20 {
        probe = probe.reply(&[write_slot(), read_slot(SILENT, 0)]);
    }
    assert_eq!(
        probe.write_register(DP, 8, 1),
        Err(DebugProbeError::Timeout)
    );
    assert_eq!(probe.sent.len(), 20);
    assert_eq!(probe.resets_done, 20);
}

#[test]
fn nothing_comes_between_a_protocol_error_and_the_reset() {
    let mut garbled = read_slot(ACCEPT, 1);
    garbled[20] = true;
    let mut probe = ScriptedProbe::new()
        .reply(&[read_slot(SILENT, 0)])
        .reply(&[garbled])
        .reply(&[read_slot(GARBAGE, 0)])
        .reply(&[read_slot(ACCEPT, 6)]);
    assert_eq!(probe.read_register(DP, 8), Ok(6));
    assert_eq!(probe.calls, "xrxrxrx");
    assert!(probe.sent.iter().all(|sent| *sent == probe.sent[0]));
}

#[test]
fn probe_error_after_a_reset_ends_the_access() {
    let mut probe = ScriptedProbe::new()
        .reply(&[write_slot(), read_slot(SILENT, 0)])
        .fail("unplugged");
    assert_eq!(probe.write_register(AP, 0, 7), Err(broken("unplugged")));
    assert_eq!(probe.calls, "xrx");
}

#[test]
fn no_attempt_follows_an_accepted_or_faulty_one() {
    let mut probe = ScriptedProbe::new()
        .reply(&[write_slot(), read_slot(SILENT, 0)])
        .reply(&[write_slot(), read_slot(ACCEPT, 0)])
        .reply(&[write_slot(), read_slot(ACCEPT, 0)]);
    assert_eq!(probe.write_register(AP, 0, 7), Ok(()));
    assert_eq!(probe.calls, "xrx");

    let mut probe = ScriptedProbe::new()
        .reply(&[write_slot(), read_slot(SILENT, 0)])
        .reply(&[write_slot(), read_slot(FAULT, 0)])
        .reply(&[read_slot(ACCEPT, 0)]);
    assert_eq!(
        probe.write_register(AP, 0, 7),
        Err(wire(DapError::FaultResponse))
    );
    assert_eq!(probe.calls, "xrxx");
}

#[test]
fn the_last_attempt_may_succeed() {
    let mut probe = ScriptedProbe::new();
    for _ in 0..19 {
        probe = probe.reply(&[read_slot(SILENT, 0)]);
    }
    let mut probe = probe.reply(&[read_slot(ACCEPT, 4)]);
    assert_eq!(probe.read_register(DP, 8), Ok(4));
    assert_eq!(probe.resets_done, 19);
}

/// Resets the line with exchanges of its own.
struct ResettingProbe {
    inner: ScriptedProbe,
}

impl RawSwdIo for ResettingProbe {
    fn swd_io(&mut self, dir: Vec<bool>, swdio: Vec<bool>) -> Result<Vec<bool>, DebugProbeError> {
        self.inner.swd_io(dir, swdio)
    }

    fn swd_line_reset(&mut self) -> Result<(), DebugProbeError> {
        self.inner.calls.push('r');
        swd_line_reset(self)
    }
}

#[test]
fn endless_silence_times_out_with_exchanges_in_each_reset() {
    let mut inner = ScriptedProbe::new();
    for _ in 0..20 {
        inner = reset_attempt(inner.reply(&[read_slot(SILENT, 0)]), ACCEPT);
    }
    let mut probe = ResettingProbe { inner };
    assert_eq!(probe.read_register(DP, 8), Err(DebugProbeError::Timeout));
    assert_eq!(probe.inner.calls, "xrxxx".repeat(20));
}

#[test]
fn failed_reset_with_exchanges_ends_the_access() {
    let inner = ScriptedProbe::new().reply(&[read_slot(SILENT, 0)]);
    let inner = reset_attempt(reset_attempt(inner, GARBAGE), SILENT);
    let mut probe = ResettingProbe { inner };
    assert_eq!(
        probe.read_register(DP, 8),
        Err(wire(DapError::NoAcknowledge))
    );
    assert_eq!(probe.inner.calls, "xrxxxxxx");
}

#[test]
fn failed_line_reset_is_returned() {
    let mut probe = ScriptedProbe::new().reply(&[read_slot(SILENT, 0)]);
    probe.resets.push_back(Err(wire(DapError::NoAcknowledge)));
    assert_eq!(
        probe.read_register(DP, 8),
        Err(wire(DapError::NoAcknowledge))
    );
    assert_eq!(probe.sent.len(), 1);
}

#[test]
fn recovery_depth_is_bounded() {
    let request = SwdTransfer::read(DP, 8);
    for ack in [WAIT, FAULT] {
        let mut probe = ScriptedProbe::new().reply(&[read_slot(ack, 0)]);
        assert_eq!(
            access_register(&mut probe, request, 0),
            Err(DebugProbeError::RecoveryDepth)
        );
    }
    let mut probe = ScriptedProbe::new()
        .reply(&[read_slot(WAIT, 0)])
        .reply(&[write_slot(), read_slot(ACCEPT, 0)])
        .reply(&[read_slot(ACCEPT, 5)]);
    assert_eq!(access_register(&mut probe, request, 1), Ok(5));
}

#[test]
fn block_read_takes_all_values() {
    let mut probe = ScriptedProbe::new().reply(&[
        read_slot(ACCEPT, 0),
        read_slot(ACCEPT, 10),
        read_slot(ACCEPT, 11),
        read_slot(ACCEPT, 12),
    ]);
    let mut values = [0; 3];
    assert_eq!(probe.read_block(AP, 0xC, &mut values), Ok(()));
    assert_eq!(values, [10, 11, 12]);
}

#[test]
fn block_read_stops_at_the_first_failure() {
    let mut probe = ScriptedProbe::new().reply(&[
        read_slot(ACCEPT, 10),
        read_slot(FAULT, 11),
        read_slot(WAIT, 12),
    ]);
    let mut values = [1, 2, 3];
    assert_eq!(
        probe.read_block(DP, 0, &mut values),
        Err(wire(DapError::FaultResponse))
    );
    assert_eq!(values, [10, 2, 3]);

    let mut probe = ScriptedProbe::new().fail("unplugged");
    assert_eq!(
        probe.read_block(DP, 0, &mut values),
        Err(broken("unplugged"))
    );
    assert_eq!(values, [10, 2, 3]);
}

#[test]
fn block_write_reports_the_first_failure() {
    let mut probe = ScriptedProbe::new().reply(&[
        write_slot(),
        write_slot(),
        read_slot(ACCEPT, 0),
    ]);
    assert_eq!(probe.write_block(AP, 0, &[5, 6]), Ok(()));
    let mut expected = IoSequence::new();
    for value in [5, 6] {
        expected.extend(&build_swd_transfer(AP, TransferType::Write(value), 0));
        expected.add_output_sequence(&[false; 16]);
    }
    expected.extend(&rdbuff_read());
    assert_eq!(probe.sent, vec![both(&expected)]);

    let mut probe = ScriptedProbe::new().reply(&[
        write_slot(),
        write_slot(),
        read_slot(GARBAGE, 0),
    ]);
    assert_eq!(
        probe.write_block(AP, 0, &[5, 6]),
        Err(wire(DapError::SwdProtocol))
    );

    let mut probe = ScriptedProbe::new().fail("unplugged");
    assert_eq!(probe.write_block(AP, 0, &[5]), Err(broken("unplugged")));
}

#[test]
fn empty_blocks_exchange_nothing() {
    let mut probe = ScriptedProbe::new().reply(&[]).reply(&[]);
    assert_eq!(probe.read_block(AP, 0, &mut []), Ok(()));
    assert_eq!(probe.write_block(AP, 0, &[]), Ok(()));
    assert_eq!(probe.sent, vec![(vec![], vec![]), (vec![], vec![])]);
}

#[test]
fn settled_blocks_are_read_out() {
    let mut first = SwdTransfer::read(DP, 0);
    first.status = TransferStatus::Success;
    first.value = 8;
    let mut second = SwdTransfer::read(DP, 0);
    second.status = TransferStatus::Failed(DapError::WaitResponse);
    let mut values = [0, 0];
    assert_eq!(take_values(&mut values[..1], &[first]), Ok(()));
    assert_eq!(
        take_values(&mut values, &[second, first]),
        Err(wire(DapError::WaitResponse))
    );
    assert_eq!(values, [8, 0]);
    assert_eq!(check_block(&[first, first]), Ok(()));
    assert_eq!(
        check_block(&[first, second]),
        Err(wire(DapError::WaitResponse))
    );
}

// ---------------------------------------------------------------------------
// Line reset
// ---------------------------------------------------------------------------

fn reset_attempt(probe: ScriptedProbe, ack: [bool; 3]) -> ScriptedProbe {
    probe
        .reply(&[vec![false; 28 * 8]])
        .reply(&[vec![false; 50 + 48]])
        .reply(&[read_slot(ack, 0x2BA0_1477)])
}

#[test]
fn line_reset_wakes_selects_and_identifies() {
    let mut probe = reset_attempt(ScriptedProbe::new(), ACCEPT);
    assert_eq!(swd_line_reset(&mut probe), Ok(()));
    assert_eq!(probe.sent.len(), 3);

    let woken: String = probe.sent[0]
        .1
        .iter()
        .map(|bit| if *bit { '1' } else { '0' })
        .collect();
    let expected = "11111111010010011100111110010000\
                    01000110101010011011010010100001\
                    01100001100101111111010110111011\
                    11000111010001010111000000111101\
                    100110000000010110001111";
    assert_eq!(&woken[..expected.len()], expected);
    assert_eq!(&woken[expected.len()..], format!("{}{}", "1".repeat(64), "0".repeat(8)));
    assert_eq!(probe.sent[0].0, vec![true; 28 * 8]);

    let mut select = IoSequence::new();
    select.add_output_sequence(&[true; 50]);
    select.extend(&build_swd_transfer(DP, TransferType::Write(0x0100_2927), 0xC));
    assert_eq!(probe.sent[1], both(&select));
    assert_eq!(
        probe.sent[2],
        both(&build_swd_transfer(DP, TransferType::Read, 0))
    );
}

#[test]
fn line_reset_is_tried_twice() {
    let probe = reset_attempt(ScriptedProbe::new(), SILENT);
    let mut probe = reset_attempt(probe, ACCEPT);
    assert_eq!(swd_line_reset(&mut probe), Ok(()));
    assert_eq!(probe.sent.len(), 6);

    let probe = reset_attempt(ScriptedProbe::new(), SILENT);
    let mut probe = reset_attempt(probe, FAULT);
    assert_eq!(
        swd_line_reset(&mut probe),
        Err(wire(DapError::FaultResponse))
    );
    assert_eq!(probe.sent.len(), 6);
}

#[test]
fn line_reset_returns_probe_errors() {
    let mut probe = ScriptedProbe::new().fail("first");
    assert_eq!(swd_line_reset(&mut probe), Err(broken("first")));

    let mut probe = ScriptedProbe::new()
        .reply(&[vec![false; 28 * 8]])
        .fail("second");
    assert_eq!(swd_line_reset(&mut probe), Err(broken("second")));

    let mut probe = ScriptedProbe::new()
        .reply(&[vec![false; 28 * 8]])
        .reply(&[vec![false; 50 + 48]])
        .fail("third");
    assert_eq!(swd_line_reset(&mut probe), Err(broken("third")));

    let mut probe = reset_attempt(ScriptedProbe::new(), SILENT).fail("fourth");
    assert_eq!(swd_line_reset(&mut probe), Err(broken("fourth")));
}
