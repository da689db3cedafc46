use vstd::prelude::*;

use crate::bits;
use crate::bits::{bits_to_byte, parity_bit};
use crate::error::DapError;
use crate::sequence;
use crate::transfer;
use crate::transfer::{TransferDirection, TransferType};
use crate::registers::PortType;

verus! {

/// Where the acknowledge stands in the bits sampled during a transfer: behind two
/// idle bits and eight request bits. The probe samples one cycle early, so the
/// first acknowledge bit is found in the place of the turnaround.
pub const ACK_OFFSET: usize = 10;

/// Where the word stands in the bits sampled during a read.
pub const VALUE_OFFSET: usize = 13;

/// Where the parity bit stands in the bits sampled during a read.
pub const PARITY_OFFSET: usize = 45;

/// The 32 sampled bits in which a read finds its word.
pub open spec fn value_bits(response: Seq<bool>) -> Seq<bool> {
    response.subrange(VALUE_OFFSET as int, PARITY_OFFSET as int)
}

/// Whether the acknowledge in `response` is the one given.
pub open spec fn has_ack(response: Seq<bool>, first: bool, second: bool, third: bool) -> bool {
    &&& response[ACK_OFFSET as int] == first
    &&& response[ACK_OFFSET + 1] == second
    &&& response[ACK_OFFSET + 2] == third
}

/// The outcome of a transfer during which `response` was sampled.
///
/// An acknowledge with all bits set means that nobody drove the line. Otherwise the
/// second bit means WAIT, the third FAULT and the first OK. Only a read that was
/// acknowledged with OK looks at the data.
pub open spec fn outcome(response: Seq<bool>, direction: TransferDirection) -> Result<
    u32,
    DapError,
> {
    if has_ack(response, true, true, true) {
        Err(DapError::NoAcknowledge)
    } else if response[ACK_OFFSET + 1] {
        Err(DapError::WaitResponse)
    } else if response[ACK_OFFSET + 2] {
        Err(DapError::FaultResponse)
    } else if !response[ACK_OFFSET as int] {
        Err(DapError::SwdProtocol)
    } else if direction is Write {
        Ok(0)
    } else if bits::parity(value_bits(response)) == response[PARITY_OFFSET as int] {
        Ok(bits::bits_value(value_bits(response)) as u32)
    } else {
        Err(DapError::IncorrectParity)
    }
}

/// Reads the outcome of a transfer from the bits sampled during it.
///
/// Bits behind the parity bit are not looked at.
pub fn parse_swd_response(response: &[bool], direction: TransferDirection) -> (result: Result<
    u32,
    DapError,
>)
    requires
        response@.len() > PARITY_OFFSET,
    ensures
        result == outcome(response@, direction),
        direction is Write && response@[10] && !response@[11] && !response@[12] ==> result == Ok::<
            u32,
            DapError,
        >(0),
        direction is Read && result is Ok ==> forall|i: u32|
            i < 32 ==> ((#[trigger] (result.unwrap() >> i)) & 1 == 1) == response@[13 + i],
{
    proof {
        law_acknowledge_by_position(response@, direction);
        if response@[10] && !response@[11] && !response@[12] {
            law_acknowledged_write_succeeds(response@);
            law_acknowledged_read_by_position(response@);
        }
    }
    let ack0: bool = response[ACK_OFFSET];
    let ack1: bool = response[ACK_OFFSET + 1];
    let ack2: bool = response[ACK_OFFSET + 2];

    // When all bits are high, nobody answered.
    if ack0 && ack1 && ack2 {
        return Err(DapError::NoAcknowledge);
    }
    if ack1 {
        return Err(DapError::WaitResponse);
    }
    if ack2 {
        return Err(DapError::FaultResponse);
    }
    if ack0 {
        if direction == TransferDirection::Read {
            let register_bits = vstd::slice::slice_subrange(response, VALUE_OFFSET, PARITY_OFFSET);
            let value: u32 = bits_to_byte(register_bits);
            if parity_bit(register_bits) == response[PARITY_OFFSET] {
                Ok(value)
            } else {
                Err(DapError::IncorrectParity)
            }
        } else {
            // A write has no data to look at.
            Ok(0)
        }
    } else {
        Err(DapError::SwdProtocol)
    }
}

/// A read gives exactly the word that the target shifted out: it gives `word` if
/// and only if the acknowledge is OK, the data bits are those of `word` and the
/// parity bit is that of `word`.
pub proof fn law_read_gives_the_word_sent(response: Seq<bool>, word: u32)
    requires
        response.len() > PARITY_OFFSET,
    ensures
        outcome(response, TransferDirection::Read) == Ok::<u32, DapError>(word) <==> {
            &&& has_ack(response, true, false, false)
            &&& value_bits(response) == bits::word_bits(word)
            &&& response[PARITY_OFFSET as int] == bits::parity(bits::word_bits(word))
        },
{
    let sampled = value_bits(response);
    bits::lemma_bits_value_bound(sampled);
    bits::law_low_bits_of_value(sampled);
    vstd::arithmetic::power2::lemma2_to64();
    bits::law_value_of_low_bits(word as nat, 32);
}

/// A single bit that is inverted on its way from the target, in the data or in
/// the parity bit, does not go unnoticed: a read that would have succeeded is
/// reported as one with an incorrect parity.
pub proof fn law_read_notices_one_inverted_bit(response: Seq<bool>, at: int)
    requires
        response.len() > PARITY_OFFSET,
        VALUE_OFFSET <= at <= PARITY_OFFSET,
        outcome(response, TransferDirection::Read) is Ok,
    ensures
        outcome(response.update(at, !response[at]), TransferDirection::Read) == Err::<
            u32,
            DapError,
        >(DapError::IncorrectParity),
{
    let inverted = response.update(at, !response[at]);
    let sampled = value_bits(response);
    if at == PARITY_OFFSET {
        assert(value_bits(inverted) =~= sampled);
    } else {
        bits::law_parity_of_one_flip(sampled, at - VALUE_OFFSET);
        assert(value_bits(inverted) =~= sampled.update(
            at - VALUE_OFFSET,
            !sampled[at - VALUE_OFFSET],
        ));
    }
}

/// Reads and writes are acknowledged alike: unless the acknowledge is OK, the
/// outcome does not depend on the direction nor on the data.
pub proof fn law_failed_acknowledge_ignores_data(
    response: Seq<bool>,
    other: Seq<bool>,
    direction: TransferDirection,
    other_direction: TransferDirection,
)
    requires
        response.len() > PARITY_OFFSET,
        other.len() > PARITY_OFFSET,
        !has_ack(response, true, false, false),
        has_ack(
            other,
            response[ACK_OFFSET as int],
            response[ACK_OFFSET + 1],
            response[ACK_OFFSET + 2],
        ),
    ensures
        outcome(response, direction) is Err,
        outcome(other, other_direction) == outcome(response, direction),
{
}

/// What follows the parity bit, such as the bits of the next transfer, has no
/// bearing on the outcome.
pub proof fn law_outcome_needs_no_more(
    response: Seq<bool>,
    more: Seq<bool>,
    direction: TransferDirection,
)
    requires
        response.len() > PARITY_OFFSET,
    ensures
        outcome(response + more, direction) == outcome(response, direction),
{
    assert(value_bits(response + more) =~= value_bits(response));
}

/// What a write drives onto the line, from the sixteenth cycle on, are the 32 bits
/// of the word, from which the word can be put together again, and their parity.
pub proof fn law_write_sends_the_word(port: PortType, word: u32, address: u16)
    ensures
        ({
            let cycles = transfer::transfer_cycles(port, TransferType::Write(word), address);
            &&& forall|i: int| 15 <= i < 48 ==> (#[trigger] cycles[i]).is_driven()
            &&& sequence::levels(cycles).subrange(15, 47) == bits::word_bits(word)
            &&& bits::bits_value(sequence::levels(cycles).subrange(15, 47)) == word
            &&& cycles[47].level() == bits::parity(bits::word_bits(word))
        }),
{
    bits::lemma_low_bits_len(word as nat, 32);
    vstd::arithmetic::power2::lemma2_to64();
    bits::law_value_of_low_bits(word as nat, 32);
    let cycles = transfer::transfer_cycles(port, TransferType::Write(word), address);
    assert(sequence::levels(cycles).subrange(15, 47) =~= bits::word_bits(word));
}

/// The acknowledge alone decides whether a transfer failed on the wire: all three bits
/// high mean that nobody answered, else the second bit means WAIT, else the third FAULT,
/// and none of them is no answer that SWD knows.
pub proof fn law_acknowledge_by_position(response: Seq<bool>, direction: TransferDirection)
    requires
        response.len() >= 46,
    ensures
        response[10] && response[11] && response[12] ==> outcome(response, direction) == Err::<
            u32,
            DapError,
        >(DapError::NoAcknowledge),
        response[11] && !(response[10] && response[12]) ==> outcome(response, direction) == Err::<
            u32,
            DapError,
        >(DapError::WaitResponse),
        !response[11] && response[12] ==> outcome(response, direction) == Err::<u32, DapError>(
            DapError::FaultResponse,
        ),
        !response[10] && !response[11] && !response[12] ==> outcome(response, direction) == Err::<
            u32,
            DapError,
        >(DapError::SwdProtocol),
{
}

/// A write that is acknowledged with OK succeeds, whatever is sampled behind the
/// acknowledge: the probe drives the line there itself.
pub proof fn law_acknowledged_write_succeeds(response: Seq<bool>)
    requires
        response.len() >= 46,
        response[10] && !response[11] && !response[12],
    ensures
        outcome(response, TransferDirection::Write) == Ok::<u32, DapError>(0),
{
}

/// A read that is acknowledged with OK gives the word whose bits were sampled, bit `i` at
/// place 13 + `i`, if the bit at place 45 is set exactly when an odd number of them is,
/// and fails otherwise.
pub proof fn law_acknowledged_read_by_position(response: Seq<bool>)
    requires
        response.len() >= 46,
        response[10] && !response[11] && !response[12],
    ensures
        ({
            let sampled = response.subrange(13, 45);
            let matching = response[45] == (sampled.to_multiset().count(true) % 2 == 1);
            match outcome(response, TransferDirection::Read) {
                Ok(word) => matching && forall|i: u32|
                    i < 32 ==> ((#[trigger] (word >> i)) & 1 == 1) == response[13 + i],
                Err(error) => !matching && error == DapError::IncorrectParity,
            }
        }),
{
    let sampled = response.subrange(13, 45);
    bits::law_parity_counts_set_bits(sampled);
    bits::law_bits_value_by_position(sampled);
    assert(value_bits(response) == sampled);
    let word = bits::bits_value(sampled) as u32;
    assert forall|i: u32| i < 32 implies ((#[trigger] (word >> i)) & 1 == 1) == response[13
        + i] by {
        assert(sampled[i as int] == response[13 + i]);
    }
}

} // verus!
