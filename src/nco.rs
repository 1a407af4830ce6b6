use vstd::prelude::*;
use crate::ctrl::{Ctrl, ENABLE_BIT, with_flag, lemma_encode_decode, lemma_set_idempotent};
use crate::freq::{Frequency, is_valid_frequency, phase_step, phase_step_of};
use crate::reg::RegWrite;

verus! {

/// Base address of the oscillator's register block.
pub const NCO_BASE: usize = 0xf000_0000;

/// Offset of the control word within the register block.
pub const NCO_CTRL_OFFSET: usize = 0;

/// Offset of the phase-step word within the register block.
pub const NCO_PHASE_STEP_OFFSET: usize = 4;

/// Handle on the numerically-controlled oscillator at its fixed address.
///
/// The handle computes what the registers are to hold; the accesses
/// themselves are made by whoever owns the memory mapping.
#[derive(Debug)]
pub struct Nco {
    base: usize,
}

impl Nco {
    /// The base address of the register block that the handle addresses.
    pub closed spec fn view(&self) -> usize {
        self.base
    }

    #[verifier::type_invariant]
    spec fn at_fixed_address(&self) -> bool {
        self.base == NCO_BASE
    }

    /// The handle on the oscillator's register block.
    pub fn new() -> (r: Nco)
        ensures
            r@ == NCO_BASE,
    {
        Nco { base: NCO_BASE }
    }

    /// Address of the control word.
    pub fn ctrl_addr(&self) -> (r: usize)
        ensures
            r == NCO_BASE + NCO_CTRL_OFFSET,
    {
        proof {
            use_type_invariant(self);
        }
        self.base + NCO_CTRL_OFFSET
    }

    /// Address of the phase-step word.
    pub fn phase_step_addr(&self) -> (r: usize)
        ensures
            r == NCO_BASE + NCO_PHASE_STEP_OFFSET,
    {
        proof {
            use_type_invariant(self);
        }
        self.base + NCO_PHASE_STEP_OFFSET
    }

    /// The write that turns the oscillator on or off, given the control word
    /// `current` just read: the enable bit becomes `en`, every other bit is
    /// written back as it was read.
    pub fn enable(&self, current: u32, en: bool) -> (w: RegWrite)
        ensures
            w.addr == NCO_BASE + NCO_CTRL_OFFSET,
            w.value == with_flag(current, ENABLE_BIT, en),
    {
        let mut flags = Ctrl::from_bits_retain(current);
        flags.set(Ctrl::enable_flag(), en);
        proof {
            lemma_encode_decode(current);
            lemma_encode_decode(ENABLE_BIT);
            lemma_encode_decode(with_flag(current, ENABLE_BIT, en));
        }
        RegWrite { addr: self.ctrl_addr(), value: flags.bits() }
    }

    /// The write that sets the output frequency to `freq` hertz: the whole
    /// phase-step word is overwritten with `round(2^32 * freq / NCO_CLOCK_HZ)`
    /// wrapped into 32 bits.
    pub fn set_frequency(&self, freq: Frequency) -> (w: RegWrite)
        requires
            is_valid_frequency(freq@),
        ensures
            w.addr == NCO_BASE + NCO_PHASE_STEP_OFFSET,
            w.value as nat == phase_step_of(freq@),
    {
        RegWrite { addr: self.phase_step_addr(), value: phase_step(freq) }
    }
}

/// Enabling twice in a row, the second time on the word that the first
/// wrote, leaves the control word as enabling once: bit 0 set, every other
/// bit as before the first call.
pub proof fn lemma_enable_twice(current: u32)
    ensures
        with_flag(with_flag(current, ENABLE_BIT, true), ENABLE_BIT, true) == with_flag(
            current,
            ENABLE_BIT,
            true,
        ),
{
    lemma_set_idempotent(current, ENABLE_BIT, true);
}

} // verus!
