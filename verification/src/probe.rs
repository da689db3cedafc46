use vstd::prelude::*;

use crate::error::DebugProbeError;
use crate::sequence;
use crate::sequence::{Cycle, IoSequence};

verus! {

/// Something that was done with a probe, and how it came out.
pub enum ProbeEvent {
    /// Bits were shifted over the line.
    Exchange {
        /// Where the probe was to drive the line.
        direction: Seq<bool>,
        /// The levels that it was to drive.
        io: Seq<bool>,
        /// The bits that it sampled, or its error.
        reply: Result<Seq<bool>, DebugProbeError>,
    },
    /// A line reset was started.
    LineResetStart,
    /// A line reset ended.
    LineReset {
        /// Whether the target answered afterwards.
        outcome: Result<(), DebugProbeError>,
    },
}

/// Whether `after` is `before` with events added at the end.
pub open spec fn extends(before: Seq<ProbeEvent>, after: Seq<ProbeEvent>) -> bool {
    &&& before.len() <= after.len()
    &&& forall|i: int|
        #![trigger before[i]]
        #![trigger after[i]]
        0 <= i < before.len() ==> before[i] == after[i]
}

/// The reply to the exchange that clocked `cycles`, if `event` is one.
pub open spec fn reply_to(cycles: Seq<Cycle>, event: ProbeEvent) -> Option<
    Result<Seq<bool>, DebugProbeError>,
> {
    match event {
        ProbeEvent::Exchange { direction, io, reply } => if direction == sequence::directions(
            cycles,
        ) && io == sequence::levels(cycles) {
            Some(reply)
        } else {
            None
        },
        ProbeEvent::LineResetStart | ProbeEvent::LineReset { .. } => None,
    }
}

/// What a reply says, with the bits taken as a sequence.
pub open spec fn reply_view(reply: Result<Vec<bool>, DebugProbeError>) -> Result<
    Seq<bool>,
    DebugProbeError,
> {
    match reply {
        Ok(bits) => Ok(bits@),
        Err(error) => Err(error),
    }
}

/// Whether all of `events` are exchanges.
pub open spec fn only_exchanges(events: Seq<ProbeEvent>) -> bool {
    forall|i: int| 0 <= i < events.len() ==> (#[trigger] events[i]) is Exchange
}

/// Whether `after` is `before` with a line reset added: its start, the exchanges that
/// it took, and its outcome.
pub open spec fn line_reset_added(
    before: Seq<ProbeEvent>,
    after: Seq<ProbeEvent>,
    outcome: Result<(), DebugProbeError>,
) -> bool {
    exists|exchanges: Seq<ProbeEvent>| #[trigger]
        only_exchanges(exchanges) && after == before.push(ProbeEvent::LineResetStart)
            + exchanges.push(ProbeEvent::LineReset { outcome })
}

/// A probe that shifts raw bits over the SWDIO line.
///
/// What a probe or its target answers is open: nothing here promises that an
/// operation succeeds, nor what the sampled bits are. What is relied on without proof
/// is that an operation is performed once when it is called, and that the reply to an
/// exchange is not shorter than what was sent.
pub trait RawSwdIo {
    /// Everything that was done with this probe so far, in order. It is there for
    /// contracts to speak of and takes no part in execution, so only an implementation
    /// that is verified itself has to say what it is.
    closed spec fn history(&self) -> Seq<ProbeEvent> {
        vstd::pervasive::arbitrary()
    }

    /// Shifts bits over the line, one for each clock cycle.
    ///
    /// Where a bit of `dir` is set, the probe drives the line to the level in
    /// `swdio`; elsewhere it samples the line. The reply holds at least a bit for each
    /// cycle.
    fn swd_io(&mut self, dir: Vec<bool>, swdio: Vec<bool>) -> (reply: Result<
        Vec<bool>,
        DebugProbeError,
    >)
        requires
            dir@.len() == swdio@.len(),
        ensures
            reply matches Ok(bits) ==> bits@.len() >= swdio@.len(),
            final(self).history() == old(self).history().push(
                ProbeEvent::Exchange { direction: dir@, io: swdio@, reply: reply_view(reply) },
            ),
    ;

    /// Tries to perform a SWD line reset, followed by a read of the DPIDR register.
    ///
    /// Returns `Ok` if the read of the DPIDR register was successful, and `Err`
    /// otherwise. In case of errors of the probe, the actual error is returned.
    ///
    /// If the first line reset fails, it is tried once again, as the target might be
    /// in the middle of a transfer the first time.
    ///
    /// See section B4.3.3 in the ADIv5 Specification.
    fn swd_line_reset(&mut self) -> (outcome: Result<(), DebugProbeError>)
        ensures
            line_reset_added(old(self).history(), final(self).history(), outcome),
    ;
}

/// A history extends another exactly if it begins with it.
pub proof fn law_extends_means_begins_with(before: Seq<ProbeEvent>, after: Seq<ProbeEvent>)
    ensures
        extends(before, after) <==> before.is_prefix_of(after),
{
    if extends(before, after) {
        assert(before =~= after.take(before.len() as int));
    }
}

/// An exchange answers to cycles if it has as many of them and was driven where and as
/// they say. Its reply is then the reply to them. Nothing else answers to any cycles.
pub proof fn law_reply_belongs_to_its_cycles(cycles: Seq<Cycle>, event: ProbeEvent)
    ensures
        match event {
            ProbeEvent::Exchange { direction, io, reply } => {
                let driven_so = direction.len() == cycles.len() && io.len() == cycles.len() && (
                forall|i: int|
                    0 <= i < cycles.len() ==> (#[trigger] direction[i] <==> cycles[i]
                        != Cycle::Listen)) && (forall|i: int|
                    0 <= i < cycles.len() ==> (#[trigger] io[i] <==> cycles[i] == Cycle::Drive(
                        true,
                    )));
                reply_to(cycles, event) == if driven_so {
                    Some(reply)
                } else {
                    None
                }
            },
            _ => reply_to(cycles, event) is None,
        },
{
    sequence::law_levels_and_directions_by_position(cycles);
    if let ProbeEvent::Exchange { direction, io, reply } = event {
        let drive = sequence::directions(cycles);
        let level = sequence::levels(cycles);
        if direction.len() == cycles.len() && (forall|i: int|
            0 <= i < cycles.len() ==> (#[trigger] direction[i] <==> cycles[i] != Cycle::Listen)) {
            assert forall|i: int| 0 <= i < cycles.len() implies direction[i] == drive[i] by {
                assert(drive[i] <==> cycles[i] != Cycle::Listen);
            }
            assert(direction =~= drive);
        }
        if io.len() == cycles.len() && (forall|i: int|
            0 <= i < cycles.len() ==> (#[trigger] io[i] <==> cycles[i] == Cycle::Drive(true))) {
            assert forall|i: int| 0 <= i < cycles.len() implies io[i] == level[i] by {
                assert(level[i] <==> cycles[i] == Cycle::Drive(true));
            }
            assert(io =~= level);
        }
    }
}

/// Clocks `sequence` over the line.
pub fn shift<P: RawSwdIo>(probe: &mut P, sequence: &IoSequence) -> (reply: Result<
    Vec<bool>,
    DebugProbeError,
>)
    requires
        sequence.wf(),
    ensures
        reply matches Ok(bits) ==> bits@.len() >= sequence@.len(),
        final(probe).history() == old(probe).history().push(final(probe).history().last()),
        reply_to(sequence@, final(probe).history().last()) == Some(reply_view(reply)),
        final(probe).history().last() matches ProbeEvent::Exchange { direction, io, reply: sampled }
            && direction.len() == sequence@.len() && io.len() == sequence@.len() && (forall|i: int|
            0 <= i < sequence@.len() ==> (#[trigger] direction[i] <==> sequence@[i]
                != Cycle::Listen)) && (forall|i: int|
            0 <= i < sequence@.len() ==> (#[trigger] io[i] <==> sequence@[i] == Cycle::Drive(
                true,
            ))) && match reply {
            Ok(bits) => sampled == Ok::<Seq<bool>, DebugProbeError>(bits@),
            Err(error) => sampled == Err::<Seq<bool>, DebugProbeError>(error),
        },
{
    let direction = vstd::slice::slice_to_vec(sequence.direction_bits());
    let io = vstd::slice::slice_to_vec(sequence.io_bits());
    probe.swd_io(direction, io)
}

} // verus!
