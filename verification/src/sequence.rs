use vstd::prelude::*;

verus! {

/// What happens on the SWDIO line during one clock cycle.
pub enum Cycle {
    /// The probe drives the line to this level.
    Drive(bool),
    /// The probe releases the line, so that the target can drive it.
    Listen,
}

impl Cycle {
    /// Whether the probe drives the line.
    pub open spec fn is_driven(self) -> bool {
        self is Drive
    }

    /// The level that the probe puts out; a released line counts as low.
    pub open spec fn level(self) -> bool {
        match self {
            Cycle::Drive(bit) => bit,
            Cycle::Listen => false,
        }
    }
}

/// The levels that go with `cycles`, one bit for each.
pub open spec fn levels(cycles: Seq<Cycle>) -> Seq<bool> {
    cycles.map_values(|cycle: Cycle| cycle.level())
}

/// The directions that go with `cycles`, one bit for each: set where the probe
/// drives the line.
pub open spec fn directions(cycles: Seq<Cycle>) -> Seq<bool> {
    cycles.map_values(|cycle: Cycle| cycle.is_driven())
}

/// One driven cycle for each of `bits`.
pub open spec fn driven(bits: Seq<bool>) -> Seq<Cycle> {
    bits.map_values(|bit: bool| Cycle::Drive(bit))
}

/// `count` cycles during which the line is released.
pub open spec fn listening(count: nat) -> Seq<Cycle> {
    Seq::new(count, |i: int| Cycle::Listen)
}

/// `count` cycles during which the line is held low.
pub open spec fn idle(count: nat) -> Seq<Cycle> {
    Seq::new(count, |i: int| Cycle::Drive(false))
}

/// The probe is handed a level and a direction for each cycle, in order. The direction is
/// set where the line is driven, and the level where it is driven high.
pub proof fn law_levels_and_directions_by_position(cycles: Seq<Cycle>)
    ensures
        levels(cycles).len() == cycles.len(),
        directions(cycles).len() == cycles.len(),
        forall|i: int|
            #![trigger cycles[i]]
            #![trigger levels(cycles)[i]]
            #![trigger directions(cycles)[i]]
            0 <= i < cycles.len() ==> {
                &&& levels(cycles)[i] <==> cycles[i] == Cycle::Drive(true)
                &&& directions(cycles)[i] <==> cycles[i] != Cycle::Listen
            },
{
}

/// Bits are driven one after the other, in their order.
pub proof fn law_driven_by_position(bits: Seq<bool>)
    ensures
        driven(bits).len() == bits.len(),
        forall|i: int|
            #![trigger driven(bits)[i]]
            #![trigger bits[i]]
            0 <= i < bits.len() ==> driven(bits)[i] == Cycle::Drive(bits[i]),
{
}

/// While listening the line is released in every cycle, and while idle it is held low in
/// every cycle.
pub proof fn law_listening_and_idle(count: nat)
    ensures
        listening(count).len() == count,
        idle(count).len() == count,
        forall|i: int| 0 <= i < count ==> #[trigger] listening(count)[i] == Cycle::Listen,
        forall|i: int| 0 <= i < count ==> #[trigger] idle(count)[i] == Cycle::Drive(false),
{
}

/// What is handed to a probe says exactly what it is to do: the levels and the
/// directions belong to one sequence of cycles only.
pub proof fn law_bits_determine_cycles(cycles: Seq<Cycle>, others: Seq<Cycle>)
    requires
        levels(cycles) == levels(others),
        directions(cycles) == directions(others),
    ensures
        cycles == others,
{
    assert(levels(cycles).len() == cycles.len() && levels(others).len() == others.len());
    assert forall|i: int| 0 <= i < cycles.len() implies cycles[i] == others[i] by {
        assert(levels(cycles)[i] == cycles[i].level() && levels(others)[i] == others[i].level());
        assert(directions(cycles)[i] == cycles[i].is_driven());
        assert(directions(others)[i] == others[i].is_driven());
    }
    assert(cycles =~= others);
}

/// A sequence of clock cycles, kept as the two bit sequences that a probe
/// takes: the level and the direction of the line for each cycle.
pub struct IoSequence {
    io: Vec<bool>,
    direction: Vec<bool>,
}

impl View for IoSequence {
    type V = Seq<Cycle>;

    closed spec fn view(&self) -> Seq<Cycle> {
        Seq::new(
            self.direction@.len(),
            |i: int|
                if self.direction@[i] {
                    Cycle::Drive(self.io@[i])
                } else {
                    Cycle::Listen
                },
        )
    }
}

impl IoSequence {
    /// Direction of a cycle during which the target drives the line.
    pub const INPUT: bool = false;

    /// Direction of a cycle during which the probe drives the line.
    pub const OUTPUT: bool = true;

    /// There is a level for each direction, and it is low wherever the line is
    /// released.
    pub closed spec fn wf(&self) -> bool {
        &&& self.io@.len() == self.direction@.len()
        &&& forall|i: int|
            0 <= i < self.direction@.len() && !self.direction@[i] ==> !#[trigger] self.io@[i]
    }

    /// A sequence has no more cycles than memory can hold.
    pub proof fn lemma_len_bound(&self)
        ensures
            self@.len() <= usize::MAX,
    {
        assert(self.direction.len() == self.direction@.len());
    }

    /// The empty sequence.
    pub fn new() -> (sequence: Self)
        ensures
            sequence.wf(),
            sequence@ == Seq::<Cycle>::empty(),
    {
        let sequence = IoSequence { io: Vec::new(), direction: Vec::new() };
        assert(sequence@ =~= Seq::<Cycle>::empty());
        sequence
    }

    /// Appends a cycle during which the probe drives `bit`.
    pub fn add_output(&mut self, bit: bool)
        requires
            old(self).wf(),
        ensures
            final(self).wf(),
            final(self)@ == old(self)@.push(Cycle::Drive(bit)),
    {
        self.io.push(bit);
        self.direction.push(Self::OUTPUT);
        assert(self@ =~= old(self)@.push(Cycle::Drive(bit)));
    }

    /// Appends one driven cycle for each of `bits`.
    pub fn add_output_sequence(&mut self, bits: &[bool])
        requires
            old(self).wf(),
        ensures
            final(self).wf(),
            final(self)@ == old(self)@ + driven(bits@),
    {
        let mut index: usize = 0;
        assert(self@ =~= old(self)@ + driven(bits@.take(0)));
        while index < bits.len()
            invariant
                index <= bits@.len(),
                self.wf(),
                self@ == old(self)@ + driven(bits@.take(index as int)),
            decreases bits@.len() - index,
        {
            self.add_output(bits[index]);
            index = index + 1;
            assert(self@ =~= old(self)@ + driven(bits@.take(index as int)));
        }
        assert(bits@.take(index as int) =~= bits@);
    }

    /// Appends a cycle during which the line is released.
    pub fn add_input(&mut self)
        requires
            old(self).wf(),
        ensures
            final(self).wf(),
            final(self)@ == old(self)@.push(Cycle::Listen),
    {
        self.io.push(false);
        self.direction.push(Self::INPUT);
        assert(self@ =~= old(self)@.push(Cycle::Listen));
    }

    /// Appends `length` cycles during which the line is released.
    pub fn add_input_sequence(&mut self, length: usize)
        requires
            old(self).wf(),
        ensures
            final(self).wf(),
            final(self)@ == old(self)@ + listening(length as nat),
    {
        let mut added: usize = 0;
        assert(self@ =~= old(self)@ + listening(0));
        while added < length
            invariant
                added <= length,
                self.wf(),
                self@ == old(self)@ + listening(added as nat),
            decreases length - added,
        {
            self.add_input();
            added = added + 1;
            assert(self@ =~= old(self)@ + listening(added as nat));
        }
    }

    /// The levels of the line, one bit for each cycle.
    pub fn io_bits(&self) -> (bits: &[bool])
        requires
            self.wf(),
        ensures
            bits@ == levels(self@),
            bits@.len() == self@.len(),
            forall|i: int|
                0 <= i < self@.len() ==> (#[trigger] bits@[i] <==> self@[i] == Cycle::Drive(true)),
    {
        assert(self.io@ =~= levels(self@));
        self.io.as_slice()
    }

    /// The directions of the line, one bit for each cycle.
    pub fn direction_bits(&self) -> (bits: &[bool])
        requires
            self.wf(),
        ensures
            bits@ == directions(self@),
            bits@.len() == self@.len(),
            forall|i: int|
                0 <= i < self@.len() ==> (#[trigger] bits@[i] <==> self@[i] != Cycle::Listen),
    {
        assert(self.direction@ =~= directions(self@));
        self.direction.as_slice()
    }

    /// Appends all cycles of `other`.
    pub fn extend(&mut self, other: &IoSequence)
        requires
            old(self).wf(),
            other.wf(),
        ensures
            final(self).wf(),
            final(self)@ == old(self)@ + other@,
    {
        self.io.extend_from_slice(other.io.as_slice());
        self.direction.extend_from_slice(other.direction.as_slice());
        assert(self@ =~= old(self)@ + other@);
    }
}

} // verus!
