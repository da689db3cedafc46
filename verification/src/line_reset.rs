use vstd::prelude::*;

use crate::bits;
use crate::error::{DapError, DebugProbeError};
use crate::probe;
use crate::probe::{shift, ProbeEvent, RawSwdIo};
use crate::registers::{PortType, DPIDR_ADDRESS, TARGETSEL_ADDRESS};
use crate::response;
use crate::response::parse_swd_response;
use crate::sequence;
use crate::sequence::{Cycle, IoSequence};
use crate::transfer;
use crate::transfer::{build_swd_transfer, TransferDirection, TransferType};

verus! {

/// The sequence that takes a target from the dormant state to SWD, each byte
/// with its least significant bit first.
pub const DORMANT_TO_SWD: [u8; 28] = [
    // At least 8 cycles with the line high.
    0xff,
    // The selection alert sequence.
    0x92,
    0xf3,
    0x09,
    0x62,
    0x95,
    0x2d,
    0x85,
    0x86,
    0xe9,
    0xaf,
    0xdd,
    0xe3,
    0xa2,
    0x0e,
    0xbc,
    0x19,
    // 4 cycles with the line low, the activation code 0x1a for SWD, and at least 8
    // cycles with the line high.
    0xa0,
    0xf1,
    0xff,
    // At least 50 cycles with the line high.
    0xff,
    0xff,
    0xff,
    0xff,
    0xff,
    0xff,
    0xff,
    // At least 2 idle cycles.
    0x00,
];

/// Number of cycles with the line high that reset it.
pub const NUM_RESET_BITS: usize = 50;

/// The word that selects the target.
pub const TARGET_ID: u32 = 0x01002927;

/// The bits of `bytes`, each byte with its least significant bit first.
pub open spec fn bytes_bits(bytes: Seq<u8>) -> Seq<bool>
    decreases bytes.len(),
{
    if bytes.len() == 0 {
        Seq::empty()
    } else {
        bytes_bits(bytes.drop_last()) + bits::low_bits(bytes.last() as nat, 8)
    }
}

/// The cycles that wake the target up.
pub open spec fn wake_up_cycles() -> Seq<Cycle> {
    sequence::driven(bytes_bits(DORMANT_TO_SWD@))
}

/// The cycles that reset the line and select the target.
pub open spec fn select_cycles() -> Seq<Cycle> {
    sequence::driven(Seq::new(NUM_RESET_BITS as nat, |i: int| true)) + transfer::transfer_cycles(
        PortType::DebugPort,
        TransferType::Write(TARGET_ID),
        TARGETSEL_ADDRESS,
    )
}

/// The cycles that read the DPIDR register.
pub open spec fn identify_cycles() -> Seq<Cycle> {
    transfer::transfer_cycles(PortType::DebugPort, TransferType::Read, DPIDR_ADDRESS)
}

/// How an attempt at a line reset came out whose exchanges start at `at`, and where
/// they end: an error of the probe, or the outcome of the read of DPIDR. `None` if
/// the exchanges there are not those of an attempt.
pub open spec fn attempt_outcome(history: Seq<ProbeEvent>, at: int) -> Option<
    (Result<Result<u32, DapError>, DebugProbeError>, int),
> {
    if at + 1 > history.len() {
        None
    } else {
        match probe::reply_to(wake_up_cycles(), history[at]) {
            None => None,
            Some(Err(error)) => Some((Err(error), at + 1)),
            Some(Ok(_)) => if at + 2 > history.len() {
                None
            } else {
                match probe::reply_to(select_cycles(), history[at + 1]) {
                    None => None,
                    Some(Err(error)) => Some((Err(error), at + 2)),
                    Some(Ok(_)) => if at + 3 > history.len() {
                        None
                    } else {
                        match probe::reply_to(identify_cycles(), history[at + 2]) {
                            None => None,
                            Some(Err(error)) => Some((Err(error), at + 3)),
                            Some(Ok(reply)) => Some(
                                (Ok(response::outcome(reply, TransferDirection::Read)), at + 3),
                            ),
                        }
                    },
                }
            },
        }
    }
}

/// How a line reset came out whose exchanges start at `at`, and where they end. If
/// the target does not answer after the first attempt, there is a second one.
pub open spec fn reset_outcome(history: Seq<ProbeEvent>, at: int) -> Option<
    (Result<(), DebugProbeError>, int),
> {
    match attempt_outcome(history, at) {
        None => None,
        Some((Err(error), end)) => Some((Err(error), end)),
        Some((Ok(Ok(_)), end)) => Some((Ok(()), end)),
        Some((Ok(Err(_)), middle)) => match attempt_outcome(history, middle) {
            None => None,
            Some((Err(error), end)) => Some((Err(error), end)),
            Some((Ok(Ok(_)), end)) => Some((Ok(()), end)),
            Some((Ok(Err(error)), end)) => Some(
                (Err(DebugProbeError::ArchitectureSpecific(error)), end),
            ),
        },
    }
}

proof fn lemma_attempt_extends(before: Seq<ProbeEvent>, after: Seq<ProbeEvent>, at: int)
    requires
        probe::extends(before, after),
        0 <= at,
        attempt_outcome(before, at) is Some,
    ensures
        attempt_outcome(after, at) == attempt_outcome(before, at),
{
}

/// Appends the bits of `byte`, least significant bit first.
fn add_byte(sequence: &mut IoSequence, byte: u8)
    requires
        old(sequence).wf(),
    ensures
        final(sequence).wf(),
        final(sequence)@ == old(sequence)@ + sequence::driven(bits::low_bits(byte as nat, 8)),
{
    let mut value: u8 = byte;
    let mut count: u32 = 0;
    let ghost all = bits::low_bits(byte as nat, 8);
    let ghost start = sequence@;
    while count < 8
        invariant
            count <= 8,
            sequence.wf(),
            sequence@ + sequence::driven(bits::low_bits(value as nat, (8 - count) as nat)) == start
                + sequence::driven(all),
        decreases 8 - count,
    {
        let ghost left = bits::low_bits(value as nat, (8 - count) as nat);
        let ghost before = sequence@;
        assert(value & 1 == value % 2) by (bit_vector);
        assert(value >> 1 == value / 2) by (bit_vector);
        let bit: bool = value & 1 != 0;
        sequence.add_output(bit);
        value = value >> 1;
        count = count + 1;
        proof {
            let rest = bits::low_bits(value as nat, (8 - count) as nat);
            assert(left =~= seq![bit] + rest);
            assert(sequence@ + sequence::driven(rest) =~= before + sequence::driven(left));
        }
    }
    assert(sequence@ =~= start + sequence::driven(all));
}

/// The cycles that wake the target up.
fn wake_up_sequence() -> (sequence: IoSequence)
    ensures
        sequence.wf(),
        sequence@ == wake_up_cycles(),
{
    let mut sequence = IoSequence::new();
    let bytes: [u8; 28] = DORMANT_TO_SWD;
    let mut index: usize = 0;
    assert(sequence@ =~= sequence::driven(bytes_bits(bytes@.take(0))));
    while index < 28
        invariant
            index <= 28,
            bytes@.len() == 28,
            sequence.wf(),
            sequence@ == sequence::driven(bytes_bits(bytes@.take(index as int))),
        decreases 28 - index,
    {
        add_byte(&mut sequence, bytes[index]);
        index = index + 1;
        proof {
            let done = bytes@.take(index as int);
            assert(done.drop_last() =~= bytes@.take(index - 1));
            assert(sequence@ =~= sequence::driven(bytes_bits(done)));
        }
    }
    assert(bytes@.take(28) =~= bytes@);
    sequence
}

/// The cycles that reset the line and select the target.
fn select_sequence() -> (sequence: IoSequence)
    ensures
        sequence.wf(),
        sequence@ == select_cycles(),
{
    let mut sequence = IoSequence::new();
    let high: [bool; NUM_RESET_BITS] = [true; NUM_RESET_BITS];
    sequence.add_output_sequence(&high);
    assert(high@ =~= Seq::new(NUM_RESET_BITS as nat, |i: int| true));
    sequence.extend(
        &build_swd_transfer(
            PortType::DebugPort,
            TransferType::Write(TARGET_ID),
            TARGETSEL_ADDRESS,
        ),
    );
    assert(sequence@ =~= select_cycles());
    sequence
}

/// Wakes the target up, resets the line, selects the target and reads DPIDR.
fn attempt_line_reset<P: RawSwdIo>(probe: &mut P) -> (result: Result<
    Result<u32, DapError>,
    DebugProbeError,
>)
    ensures
        probe::extends(old(probe).history(), final(probe).history()),
        attempt_outcome(final(probe).history(), old(probe).history().len() as int) == Some(
            (result, final(probe).history().len() as int),
        ),
{
    if let Err(error) = shift(probe, &wake_up_sequence()) {
        return Err(error);
    }
    if let Err(error) = shift(probe, &select_sequence()) {
        return Err(error);
    }
    let identify = build_swd_transfer(PortType::DebugPort, TransferType::Read, DPIDR_ADDRESS);
    match shift(probe, &identify) {
        Err(error) => Err(error),
        Ok(reply) => Ok(parse_swd_response(reply.as_slice(), TransferDirection::Read)),
    }
}

/// Performs a line reset, followed by a read of the DPIDR register.
///
/// If the target does not answer, the whole is tried once again, as the target
/// might have been in the middle of a transfer the first time. An error of the probe
/// is returned at once.
pub fn swd_line_reset<P: RawSwdIo>(probe: &mut P) -> (result: Result<(), DebugProbeError>)
    ensures
        probe::extends(old(probe).history(), final(probe).history()),
        reset_outcome(final(probe).history(), old(probe).history().len() as int) == Some(
            (result, final(probe).history().len() as int),
        ),
{
    match attempt_line_reset(probe) {
        Err(error) => {
            return Err(error);
        },
        Ok(Ok(_)) => {
            return Ok(());
        },
        Ok(Err(_)) => {},
    }
    let ghost middle = probe.history();
    let second = attempt_line_reset(probe);
    proof {
        lemma_attempt_extends(middle, probe.history(), old(probe).history().len() as int);
    }
    match second {
        Err(error) => Err(error),
        Ok(Ok(_)) => Ok(()),
        Ok(Err(error)) => Err(DebugProbeError::from(error)),
    }
}

/// A line reset takes exchanges only, and no more than six of them.
pub proof fn law_reset_takes_few_exchanges(history: Seq<ProbeEvent>, at: int)
    requires
        0 <= at,
        reset_outcome(history, at) is Some,
    ensures
        ({
            let (_, end) = reset_outcome(history, at).unwrap();
            &&& at < end <= at + 6
            &&& end <= history.len()
            &&& forall|i: int| at <= i < end ==> (#[trigger] history[i]) is Exchange
        }),
{
}

/// A line reset succeeds only if the target was heard: the last exchange was a read of
/// DPIDR that succeeded.
pub proof fn law_reset_success_means_identified(history: Seq<ProbeEvent>, at: int)
    requires
        0 <= at,
        reset_outcome(history, at) is Some,
        reset_outcome(history, at).unwrap().0 is Ok,
    ensures
        ({
            let (_, end) = reset_outcome(history, at).unwrap();
            probe::reply_to(identify_cycles(), history[end - 1]) matches Some(Ok(reply))
                && response::outcome(reply, TransferDirection::Read) is Ok
        }),
{
}

/// A line reset fails in two ways only: the last exchange failed with the error that is
/// returned, or the last exchange was the second read of DPIDR, and failed so.
pub proof fn law_reset_failure_has_a_cause(history: Seq<ProbeEvent>, at: int)
    requires
        0 <= at,
        reset_outcome(history, at) is Some,
        reset_outcome(history, at).unwrap().0 is Err,
    ensures
        ({
            let (result, end) = reset_outcome(history, at).unwrap();
            match history[end - 1] {
                ProbeEvent::Exchange { reply: Err(error), .. } => result == Err::<
                    (),
                    DebugProbeError,
                >(error),
                ProbeEvent::Exchange { reply: Ok(reply), .. } => {
                    &&& end == at + 6
                    &&& probe::reply_to(identify_cycles(), history[end - 1]) is Some
                    &&& response::outcome(reply, TransferDirection::Read) matches Err(error)
                        && result == Err::<(), DebugProbeError>(
                        DebugProbeError::ArchitectureSpecific(error),
                    )
                },
                ProbeEvent::LineResetStart | ProbeEvent::LineReset { .. } => false,
            }
        }),
{
}

// ---------------------------------------------------------------------------
// A line reset, cycle by cycle
// ---------------------------------------------------------------------------
/// Bytes are shifted one after the other, each from its lowest bit on.
pub proof fn law_bytes_bits_by_position(bytes: Seq<u8>)
    ensures
        bytes_bits(bytes).len() == 8 * bytes.len(),
        forall|b: int, j: u32|
            0 <= b < bytes.len() && j < 8 ==> #[trigger] bytes_bits(bytes)[8 * b + j] == (((
            bytes[b] as u32) >> j) & 1 == 1),
    decreases bytes.len(),
{
    if bytes.len() > 0 {
        let before = bytes.drop_last();
        law_bytes_bits_by_position(before);
        bits::lemma_low_bits_len(bytes.last() as nat, 8);
        assert forall|b: int, j: u32| 0 <= b < bytes.len() && j < 8 implies #[trigger] bytes_bits(
            bytes,
        )[8 * b + j] == (((bytes[b] as u32) >> j) & 1 == 1) by {
            if b < before.len() {
                assert(bytes_bits(bytes)[8 * b + j] == bytes_bits(before)[8 * b + j]);
            } else {
                bits::lemma_low_bit(bytes[b] as u32, 8, j);
            }
        }
    }
}

/// A bit of a word is a bit of one of its four bytes.
proof fn lemma_bit_of_bytes(word: u32, b0: u32, b1: u32, b2: u32, b3: u32, j: u32)
    by (bit_vector)
    requires
        b0 < 0x100,
        b1 < 0x100,
        b2 < 0x100,
        b3 < 0x100,
        word == b0 + 0x100 * b1 + 0x1_0000 * b2 + 0x100_0000 * b3,
        j < 32,
    ensures
        (word >> j) & 1 == ((if j < 8 {
            b0
        } else if j < 16 {
            b1
        } else if j < 24 {
            b2
        } else {
            b3
        }) >> (j % 8)) & 1,
{
}

/// The four bytes from `from` on wake the target up with the bits of `word`.
proof fn lemma_wake_up_word(from: int, word: u32)
    requires
        0 <= from <= 24,
        word == DORMANT_TO_SWD@[from] + 0x100 * DORMANT_TO_SWD@[from + 1] + 0x1_0000
            * DORMANT_TO_SWD@[from + 2] + 0x100_0000 * DORMANT_TO_SWD@[from + 3],
    ensures
        wake_up_cycles().len() == 224,
        forall|j: u32|
            j < 32 ==> #[trigger] wake_up_cycles()[8 * from + j] == Cycle::Drive(
                (word >> j) & 1 == 1,
            ),
{
    let bytes = DORMANT_TO_SWD@;
    law_bytes_bits_by_position(bytes);
    sequence::law_driven_by_position(bytes_bits(bytes));
    assert forall|j: u32| j < 32 implies #[trigger] wake_up_cycles()[8 * from + j] == Cycle::Drive(
        (word >> j) & 1 == 1,
    ) by {
        let b = from + j / 8;
        let k = j % 8;
        lemma_bit_of_bytes(
            word,
            bytes[from] as u32,
            bytes[from + 1] as u32,
            bytes[from + 2] as u32,
            bytes[from + 3] as u32,
            j,
        );
        assert(8 * b + k == 8 * from + j);
        assert(bytes_bits(bytes)[8 * b + k] == (((bytes[b] as u32) >> k) & 1 == 1));
    }
}

/// How the target is woken up: 8 cycles with the line high, the selection alert sequence of
/// 128 bits, 4 cycles with the line low, the activation code 0x1a, 68 cycles with the line
/// high, which reset it, and 8 idle cycles. Numbers go from their lowest bit on.
pub proof fn law_wake_up_by_position()
    ensures
        wake_up_cycles().len() == 224,
        forall|j: u32| j < 8 ==> #[trigger] wake_up_cycles()[j as int] == Cycle::Drive(true),
        forall|j: u32|
            j < 32 ==> #[trigger] wake_up_cycles()[8 + j] == Cycle::Drive(
                (0x6209f392u32 >> j) & 1 == 1,
            ),
        forall|j: u32|
            j < 32 ==> #[trigger] wake_up_cycles()[40 + j] == Cycle::Drive(
                (0x86852d95u32 >> j) & 1 == 1,
            ),
        forall|j: u32|
            j < 32 ==> #[trigger] wake_up_cycles()[72 + j] == Cycle::Drive(
                (0xe3ddafe9u32 >> j) & 1 == 1,
            ),
        forall|j: u32|
            j < 32 ==> #[trigger] wake_up_cycles()[104 + j] == Cycle::Drive(
                (0x19bc0ea2u32 >> j) & 1 == 1,
            ),
        forall|j: u32| j < 4 ==> #[trigger] wake_up_cycles()[136 + j] == Cycle::Drive(false),
        forall|j: u32|
            j < 8 ==> #[trigger] wake_up_cycles()[140 + j] == Cycle::Drive(
                (0x1au32 >> j) & 1 == 1,
            ),
        forall|j: u32| j < 68 ==> #[trigger] wake_up_cycles()[148 + j] == Cycle::Drive(true),
        forall|j: u32| j < 8 ==> #[trigger] wake_up_cycles()[216 + j] == Cycle::Drive(false),
{
    lemma_wake_up_word(0, 0x09f392ff);
    lemma_wake_up_word(1, 0x6209f392);
    lemma_wake_up_word(5, 0x86852d95);
    lemma_wake_up_word(9, 0xe3ddafe9);
    lemma_wake_up_word(13, 0x19bc0ea2);
    lemma_wake_up_word(17, 0xfffff1a0);
    lemma_wake_up_word(20, 0xffffffff);
    lemma_wake_up_word(24, 0x00ffffff);
    assert forall|j: u32| j < 8 implies #[trigger] wake_up_cycles()[j as int] == Cycle::Drive(
        true,
    ) by {
        assert(j < 8 ==> (0x09f392ffu32 >> j) & 1 == 1) by (bit_vector);
        assert(wake_up_cycles()[8 * 0 + j] == Cycle::Drive((0x09f392ffu32 >> j) & 1 == 1));
    }
    let behind = 0xfffff1a0u32;
    assert forall|j: u32| j < 4 implies #[trigger] wake_up_cycles()[136 + j] == Cycle::Drive(
        false,
    ) by {
        assert(j < 4 ==> (0xfffff1a0u32 >> j) & 1 == 0) by (bit_vector);
        assert(wake_up_cycles()[8 * 17 + j] == Cycle::Drive((behind >> j) & 1 == 1));
    }
    assert forall|j: u32| j < 8 implies #[trigger] wake_up_cycles()[140 + j] == Cycle::Drive(
        (0x1au32 >> j) & 1 == 1,
    ) by {
        let k = (j + 4) as u32;
        assert((0xfffff1a0u32 >> k) & 1 == (0x1au32 >> j) & 1) by (bit_vector)
            requires
                j < 8,
                k == j + 4,
        ;
        assert(wake_up_cycles()[8 * 17 + k] == Cycle::Drive((behind >> k) & 1 == 1));
    }
    assert forall|j: u32| j < 68 implies #[trigger] wake_up_cycles()[148 + j] == Cycle::Drive(
        true,
    ) by {
        if j < 20 {
            let k = (j + 12) as u32;
            assert(12 <= k < 32 ==> (0xfffff1a0u32 >> k) & 1 == 1) by (bit_vector);
            assert(wake_up_cycles()[8 * 17 + k] == Cycle::Drive((behind >> k) & 1 == 1));
        } else if j < 44 {
            let k = (j - 12) as u32;
            assert(k < 32 ==> (0xffffffffu32 >> k) & 1 == 1) by (bit_vector);
            assert(wake_up_cycles()[8 * 20 + k] == Cycle::Drive((0xffffffffu32 >> k) & 1 == 1));
        } else {
            let k = (j - 44) as u32;
            assert(k < 24 ==> (0x00ffffffu32 >> k) & 1 == 1) by (bit_vector);
            assert(wake_up_cycles()[8 * 24 + k] == Cycle::Drive((0x00ffffffu32 >> k) & 1 == 1));
        }
    }
    assert forall|j: u32| j < 8 implies #[trigger] wake_up_cycles()[216 + j] == Cycle::Drive(
        false,
    ) by {
        let k = (j + 24) as u32;
        assert(24 <= k < 32 ==> (0x00ffffffu32 >> k) & 1 == 0) by (bit_vector);
        assert(wake_up_cycles()[8 * 24 + k] == Cycle::Drive((0x00ffffffu32 >> k) & 1 == 1));
    }
}

/// How the line is reset and the target selected and identified: 50 cycles with the line
/// high and a write of 0x01002927 to register 0xC of the debug port; then a read of its
/// register 0.
pub proof fn law_select_and_identify_by_position()
    ensures
        select_cycles().len() == 98,
        forall|i: int| 0 <= i < 50 ==> #[trigger] select_cycles()[i] == Cycle::Drive(true),
        select_cycles().subrange(50, 98) == transfer::transfer_cycles(
            PortType::DebugPort,
            TransferType::Write(0x01002927),
            0xC,
        ),
        identify_cycles() == transfer::transfer_cycles(
            PortType::DebugPort,
            TransferType::Read,
            0x0,
        ),
{
    let high = Seq::new(NUM_RESET_BITS as nat, |i: int| true);
    sequence::law_driven_by_position(high);
    transfer::law_request_by_position(
        PortType::DebugPort,
        TransferType::Write(TARGET_ID),
        TARGETSEL_ADDRESS,
    );
    assert(select_cycles().subrange(50, 98) =~= transfer::transfer_cycles(
        PortType::DebugPort,
        TransferType::Write(TARGET_ID),
        TARGETSEL_ADDRESS,
    ));
}

/// A line reset goes round by round: the target is woken up, selected and identified, and
/// all that a second time if and only if it could not be identified the first time. No
/// exchange follows one that the probe failed. The result is the error of the probe, or how
/// the last identification came out.
pub proof fn law_reset_goes_round_by_round(history: Seq<ProbeEvent>, at: int)
    requires
        0 <= at,
        reset_outcome(history, at) is Some,
    ensures
        ({
            let (result, end) = reset_outcome(history, at).unwrap();
            &&& at < end <= at + 6
            &&& end <= history.len()
            &&& forall|i: int|
                #![trigger history[i]]
                at <= i < end ==> probe::reply_to(
                    if (i - at) % 3 == 0 {
                        wake_up_cycles()
                    } else if (i - at) % 3 == 1 {
                        select_cycles()
                    } else {
                        identify_cycles()
                    },
                    history[i],
                ) is Some
            &&& forall|i: int|
                at <= i < end - 1 ==> (#[trigger] history[i] matches ProbeEvent::Exchange {
                    reply,
                    ..
                } && reply is Ok)
            &&& end > at + 3 ==> (history[at + 2] matches ProbeEvent::Exchange { reply, .. }
                && response::outcome(reply.unwrap(), TransferDirection::Read) is Err)
            &&& history[end - 1] matches ProbeEvent::Exchange { reply, .. } && match reply {
                Err(error) => result == Err::<(), DebugProbeError>(error),
                Ok(bits) => {
                    &&& end == at + 3 || end == at + 6
                    &&& match response::outcome(bits, TransferDirection::Read) {
                        Ok(_) => result is Ok,
                        Err(error) => end == at + 6 && result == Err::<(), DebugProbeError>(
                            DebugProbeError::ArchitectureSpecific(error),
                        ),
                    }
                },
            }
        }),
{
}

} // verus!
