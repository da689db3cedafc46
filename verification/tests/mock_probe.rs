//! Register accesses and batches of transfers against a probe with prepared answers.

use bitvec::field::BitField;
use bitvec::order::Lsb0;
use bitvec::vec::BitVec;

use jlink_swd::{
    perform_transfers, DAPAccess, DebugProbeError, PortType, RawSwdIo, SwdTransfer, TransferStatus,
};

#[allow(dead_code)]
enum DapAcknowledge {
    Accept,
    Wait,
    Fault,
    NoAck,
}

struct MockJaylink {
    direction_input: Option<Vec<bool>>,
    io_input: Option<Vec<bool>>,
    transfer_responses: Vec<Vec<bool>>,

    expected_transfer_count: usize,
    performed_transfer_count: usize,
}

impl MockJaylink {
    fn new() -> Self {
        Self {
            direction_input: None,
            io_input: None,
            transfer_responses: vec![vec![]],

            expected_transfer_count: 1,
            performed_transfer_count: 0,
        }
    }

    fn add_write_response(&mut self, acknowledge: DapAcknowledge, idle_cycles: usize) {
        let last_transfer = self.transfer_responses.last_mut().unwrap();

        // The write consists of the following parts:
        //
        // - 2 idle bits
        // - 8 request bits
        // - 1 turnaround bit
        // - 3 acknowledge bits
        // - 2 turnaround bits
        // - x idle cycles
        let write_length = 2 + 8 + 1 + 3 + 2 + 32 + idle_cycles;

        let mut response = BitVec::<usize, Lsb0>::repeat(false, write_length);

        match acknowledge {
            DapAcknowledge::Accept => {
                // Set acknowledege to OK
                response.set(10, true);
            }
            DapAcknowledge::Wait => {
                // Set acknowledege to WAIT
                response.set(11, true);
            }
            DapAcknowledge::Fault => {
                // Set acknowledege to FAULT
                response.set(12, true);
            }
            DapAcknowledge::NoAck => {
                // No acknowledge means that all acknowledge bits
                // are set to false.
            }
        }

        last_transfer.extend(response);
    }

    fn add_read_response(&mut self, acknowledge: DapAcknowledge, value: u32) {
        let last_transfer = self.transfer_responses.last_mut().unwrap();

        // The read consists of the following parts:
        //
        // - 2 idle bits
        // - 8 request bits
        // - 1 turnaround bit
        // - 3 acknowledge bits
        // - 2 turnaround bits
        let write_length = 2 + 8 + 1 + 3 + 32 + 2;

        let mut response = BitVec::<usize, Lsb0>::repeat(false, write_length);

        match acknowledge {
            DapAcknowledge::Accept => {
                // Set acknowledege to OK
                response.set(10, true);
            }
            DapAcknowledge::Wait => {
                // Set acknowledege to WAIT
                response.set(11, true);
            }
            DapAcknowledge::Fault => {
                // Set acknowledege to FAULT
                response.set(12, true);
            }
            DapAcknowledge::NoAck => {
                // No acknowledge means that all acknowledge bits
                // are set to false.
            }
        }

        // Set the read value
        response.get_mut(13..13 + 32).unwrap().store_le(value);

        // calculate the parity bit
        let parity_bit = value.count_ones() % 2 == 1;
        response.set(13 + 32, parity_bit);

        last_transfer.extend(response);
    }

    fn add_transfer(&mut self) {
        self.transfer_responses.push(Vec::new());
        self.expected_transfer_count += 1;
    }
}

impl RawSwdIo for MockJaylink {
    fn swd_io(&mut self, dir: Vec<bool>, swdio: Vec<bool>) -> Result<Vec<bool>, DebugProbeError> {
        self.direction_input = Some(dir);
        self.io_input = Some(swdio);

        assert_eq!(
            self.direction_input.as_ref().unwrap().len(),
            self.io_input.as_ref().unwrap().len()
        );

        let transfer_response = self.transfer_responses.remove(0);

        assert_eq!(
            transfer_response.len(),
            self.io_input.as_ref().map(|v| v.len()).unwrap(),
            "Length mismatch for transfer {}/{}",
            self.performed_transfer_count + 1,
            self.expected_transfer_count
        );

        self.performed_transfer_count += 1;

        Ok(transfer_response)
    }

    fn swd_line_reset(&mut self) -> Result<(), DebugProbeError> {
        Ok(())
    }
}

#[test]
fn read_register() {
    let read_value = 12;
    let mut mock = MockJaylink::new();

    mock.add_read_response(DapAcknowledge::Accept, 0);
    mock.add_read_response(DapAcknowledge::Accept, read_value);

    let result = mock.read_register(PortType::AccessPort(0), 4).unwrap();

    assert_eq!(result, read_value);
}

#[test]
fn read_register_with_wait_response() {
    let read_value = 47;
    let mut mock = MockJaylink::new();

    mock.add_read_response(DapAcknowledge::Accept, 0);
    mock.add_read_response(DapAcknowledge::Wait, 0);

    //  When a wait response is received, the sticky overrun bit has to be cleared

    mock.add_transfer();
    mock.add_write_response(DapAcknowledge::Accept, 16);
    mock.add_read_response(DapAcknowledge::Accept, 0);

    mock.add_transfer();
    mock.add_read_response(DapAcknowledge::Accept, 0);
    mock.add_read_response(DapAcknowledge::Accept, read_value);

    let result = mock.read_register(PortType::AccessPort(0), 4).unwrap();

    assert_eq!(result, read_value);
}

#[test]
fn write_register() {
    let mut mock = MockJaylink::new();

    mock.add_write_response(DapAcknowledge::Accept, 16);
    mock.add_read_response(DapAcknowledge::Accept, 0);

    mock.write_register(PortType::AccessPort(0), 4, 0x123)
        .expect("Failed to write register");
}

#[test]
fn write_register_with_wait_response() {
    let mut mock = MockJaylink::new();

    mock.add_write_response(DapAcknowledge::Accept, 16);
    mock.add_read_response(DapAcknowledge::Wait, 0);

    mock.add_transfer();
    mock.add_write_response(DapAcknowledge::Accept, 16);
    mock.add_read_response(DapAcknowledge::Accept, 0);

    mock.add_transfer();
    mock.add_write_response(DapAcknowledge::Accept, 16);
    mock.add_read_response(DapAcknowledge::Accept, 0);

    mock.write_register(PortType::AccessPort(0), 4, 0x123)
        .expect("Failed to write register");
}

// The correct handling of several transfers, with the appropriate extra reads added as
// necessary.

#[test]
fn single_dp_register_read() {
    let register_value = 32354;

    let mut transfers = vec![SwdTransfer::read(PortType::DebugPort, 0)];

    let mut mock = MockJaylink::new();

    mock.add_read_response(DapAcknowledge::Accept, register_value);

    perform_transfers(&mut mock, &mut transfers).expect("Failed to perform transfer");

    let transfer_result = &transfers[0];

    assert_eq!(transfer_result.status, TransferStatus::Success);
    assert_eq!(transfer_result.value, register_value);
}

#[test]
fn single_ap_register_read() {
    let register_value = 0x11_22_33_44u32;

    let mut transfers = vec![SwdTransfer::read(PortType::AccessPort(0), 0)];

    let mut mock = MockJaylink::new();

    mock.add_read_response(DapAcknowledge::Accept, 0);
    mock.add_read_response(DapAcknowledge::Accept, register_value);

    perform_transfers(&mut mock, &mut transfers).expect("Failed to perform transfer");

    let transfer_result = &transfers[0];

    assert_eq!(transfer_result.status, TransferStatus::Success);
    assert_eq!(transfer_result.value, register_value);
}

#[test]
fn ap_then_dp_register_read() {
    // When reading from the AP first, and then from the DP,
    // we need to insert an additional read from the RDBUFF register to
    // get the result for the AP read.

    let ap_read_value = 0x123223;
    let dp_read_value = 0xFFAABB;

    let mut transfers = vec![
        SwdTransfer::read(PortType::AccessPort(0), 4),
        SwdTransfer::read(PortType::DebugPort, 3),
    ];

    let mut mock = MockJaylink::new();

    mock.add_read_response(DapAcknowledge::Accept, 0);
    mock.add_read_response(DapAcknowledge::Accept, ap_read_value);
    mock.add_read_response(DapAcknowledge::Accept, dp_read_value);

    perform_transfers(&mut mock, &mut transfers).expect("Failed to perform transfer");

    assert_eq!(transfers[0].status, TransferStatus::Success);
    assert_eq!(transfers[0].value, ap_read_value);

    assert_eq!(transfers[1].status, TransferStatus::Success);
    assert_eq!(transfers[1].value, dp_read_value);
}

#[test]
fn dp_then_ap_register_read() {
    // When reading from the DP first, and then from the AP,
    // we need to insert an additional read from the RDBUFF register at the end
    // to get the result for the AP read.

    let ap_read_value = 0x123223;
    let dp_read_value = 0xFFAABB;

    let mut transfers = vec![
        SwdTransfer::read(PortType::DebugPort, 3),
        SwdTransfer::read(PortType::AccessPort(0), 4),
    ];

    let mut mock = MockJaylink::new();

    mock.add_read_response(DapAcknowledge::Accept, dp_read_value);
    mock.add_read_response(DapAcknowledge::Accept, 0);
    mock.add_read_response(DapAcknowledge::Accept, ap_read_value);

    perform_transfers(&mut mock, &mut transfers).expect("Failed to perform transfer");

    assert_eq!(transfers[0].status, TransferStatus::Success);
    assert_eq!(transfers[0].value, dp_read_value);

    assert_eq!(transfers[1].status, TransferStatus::Success);
    assert_eq!(transfers[1].value, ap_read_value);
}

#[test]
fn multiple_ap_read() {
    // When reading from the AP twice, only a single additional read from the
    // RDBUFF register is necessary.

    let ap_read_values = [1, 2];

    let mut transfers = vec![
        SwdTransfer::read(PortType::AccessPort(0), 4),
        SwdTransfer::read(PortType::AccessPort(0), 4),
    ];

    let mut mock = MockJaylink::new();

    mock.add_read_response(DapAcknowledge::Accept, 0);
    mock.add_read_response(DapAcknowledge::Accept, ap_read_values[0]);
    mock.add_read_response(DapAcknowledge::Accept, ap_read_values[1]);

    perform_transfers(&mut mock, &mut transfers).expect("Failed to perform transfer");

    assert_eq!(transfers[0].status, TransferStatus::Success);
    assert_eq!(transfers[0].value, ap_read_values[0]);

    assert_eq!(transfers[1].status, TransferStatus::Success);
    assert_eq!(transfers[1].value, ap_read_values[1]);
}

#[test]
fn multiple_dp_read() {
    // When reading from the DP twice, no additional reads have to be inserted.

    let dp_read_values = [1, 2];

    let mut transfers = vec![
        SwdTransfer::read(PortType::DebugPort, 4),
        SwdTransfer::read(PortType::DebugPort, 4),
    ];

    let mut mock = MockJaylink::new();

    mock.add_read_response(DapAcknowledge::Accept, dp_read_values[0]);
    mock.add_read_response(DapAcknowledge::Accept, dp_read_values[1]);

    perform_transfers(&mut mock, &mut transfers).expect("Failed to perform transfer");

    assert_eq!(transfers[0].status, TransferStatus::Success);
    assert_eq!(transfers[0].value, dp_read_values[0]);

    assert_eq!(transfers[1].status, TransferStatus::Success);
    assert_eq!(transfers[1].value, dp_read_values[1]);
}

#[test]
fn single_dp_register_write() {
    let mut transfers = vec![SwdTransfer::write(PortType::DebugPort, 0, 0x1234_5678)];

    let mut mock = MockJaylink::new();
    mock.add_write_response(DapAcknowledge::Accept, 16);
    mock.add_read_response(DapAcknowledge::Accept, 0);

    perform_transfers(&mut mock, &mut transfers).expect("Failed to perform transfer");

    let transfer_result = &transfers[0];

    assert_eq!(transfer_result.status, TransferStatus::Success);
}

#[test]
fn single_ap_register_write() {
    let mut transfers = vec![SwdTransfer::write(PortType::AccessPort(0), 0, 0x1234_5678)];

    let mut mock = MockJaylink::new();
    mock.add_write_response(DapAcknowledge::Accept, 16);
    mock.add_read_response(DapAcknowledge::Accept, 0);

    perform_transfers(&mut mock, &mut transfers).expect("Failed to perform transfer");

    let transfer_result = &transfers[0];

    assert_eq!(transfer_result.status, TransferStatus::Success);
}

#[test]
fn multiple_ap_register_write() {
    let mut transfers = vec![
        SwdTransfer::write(PortType::AccessPort(0), 0, 0x1234_5678),
        SwdTransfer::write(PortType::AccessPort(0), 0, 0xABABABAB),
    ];

    let mut mock = MockJaylink::new();
    mock.add_write_response(DapAcknowledge::Accept, 16);
    mock.add_write_response(DapAcknowledge::Accept, 16);
    mock.add_read_response(DapAcknowledge::Accept, 0);

    perform_transfers(&mut mock, &mut transfers).expect("Failed to perform transfer");

    assert_eq!(transfers[0].status, TransferStatus::Success);
    assert_eq!(transfers[1].status, TransferStatus::Success);
}
