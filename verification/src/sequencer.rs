//! The sequence numbers of an RTP stream.

use crate::ambient::random_u32;
use vstd::prelude::*;

verus! {

/// Hands out the sequence numbers of a stream: each is one more than the
/// last, modulo 2^16, and each return to zero is counted.
#[derive(Copy, Clone, Debug)]
pub struct Sequencer {
    sequence_number: u16,
    roll_over_count: u64,
}

impl Sequencer {
    /// The number that was handed out last, or that the sequencer was
    /// started after.
    pub closed spec fn last_number(&self) -> u16 {
        self.sequence_number
    }

    /// How often the numbers have come back to zero.
    pub closed spec fn roll_overs(&self) -> u64 {
        self.roll_over_count
    }

    /// The number handed out last after `n` more calls.
    pub open spec fn number_after(&self, n: nat) -> u16 {
        ((self.last_number() + n) % 0x1_0000) as u16
    }

    /// The count of returns to zero after `n` more calls.
    pub open spec fn roll_overs_after(&self, n: nat) -> u64 {
        ((self.roll_overs() + (self.last_number() + n) / 0x1_0000) % 0x1_0000_0000_0000_0000) as u64
    }

    /// A sequencer that starts after a random number.
    pub fn new() -> (sequencer: Sequencer)
        ensures
            sequencer.roll_overs() == 0,
    {
        Sequencer::starting_after((random_u32() % 0x1_0000) as u16)
    }

    /// A sequencer that starts after `sequence_number`: the first number it
    /// hands out is the next one.
    pub fn starting_after(sequence_number: u16) -> (sequencer: Sequencer)
        ensures
            sequencer.last_number() == sequence_number,
            sequencer.roll_overs() == 0,
    {
        Sequencer { sequence_number, roll_over_count: 0 }
    }

    /// Hands out the next sequence number.
    pub fn next_sequence_number(&mut self) -> (number: u16)
        ensures
            number == old(self).number_after(1),
            final(self).last_number() == number,
            final(self).roll_overs() == old(self).roll_overs_after(1),
    {
        self.sequence_number = self.sequence_number.wrapping_add(1);
        if self.sequence_number == 0 {
            self.roll_over_count = self.roll_over_count.wrapping_add(1);
        }
        self.sequence_number
    }

    /// How often the numbers have come back to zero.
    pub fn roll_over_count(&self) -> (count: u64)
        ensures
            count == self.roll_overs(),
    {
        self.roll_over_count
    }
}

impl Default for Sequencer {
    fn default() -> (sequencer: Sequencer)
        ensures
            sequencer.roll_overs() == 0,
    {
        Sequencer::new()
    }
}

/// `n` calls and then one more are `n + 1` calls: the numbers handed out
/// are consecutive modulo 2^16, and the count of returns to zero grows by
/// one exactly when the number comes back to zero.
pub proof fn lemma_sequencer_steps(before: Sequencer, middle: Sequencer, n: nat)
    requires
        middle.last_number() == before.number_after(n),
        middle.roll_overs() == before.roll_overs_after(n),
    ensures
        middle.number_after(1) == before.number_after(n + 1),
        middle.roll_overs_after(1) == before.roll_overs_after(n + 1),
        before.number_after(n + 1) == (before.number_after(n) + 1) % 0x1_0000,
        before.number_after(0) == before.last_number(),
        before.roll_overs_after(0) == before.roll_overs(),
{
    let start = before.last_number() as int;
    let total = start + n;
    let wraps = total / 0x1_0000;
    let carry = (total % 0x1_0000 + 1) / 0x1_0000;
    assert((total + 1) / 0x1_0000 == wraps + carry && (total + 1) % 0x1_0000 == (total % 0x1_0000
        + 1) % 0x1_0000);
    let count = before.roll_overs() as int;
    assert(((count + wraps) % 0x1_0000_0000_0000_0000 + carry) % 0x1_0000_0000_0000_0000 == (count
        + wraps + carry) % 0x1_0000_0000_0000_0000);
}

} // verus!
