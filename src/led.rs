use vstd::prelude::*;
use crate::ctrl::{Ctrl, ENABLE_BIT, lemma_encode_decode};
use crate::reg::RegWrite;

verus! {

/// Address of the LED's control word.
pub const LED_ADDR: usize = 0xcafe_bab0;

/// Handle on the LED at its fixed address.
///
/// The driver owns every bit of the control word, so each change is a
/// single full overwrite.
#[derive(Debug)]
pub struct Led {
    addr: usize,
}

impl Led {
    /// The address of the control word that the handle addresses.
    pub closed spec fn view(&self) -> usize {
        self.addr
    }

    #[verifier::type_invariant]
    spec fn at_fixed_address(&self) -> bool {
        self.addr == LED_ADDR
    }

    /// The handle on the LED.
    pub fn new() -> (r: Led)
        ensures
            r@ == LED_ADDR,
    {
        Led { addr: LED_ADDR }
    }

    /// The write that turns the LED on or off: the whole control word
    /// becomes the enable bit alone, or zero.
    pub fn enable(&self, en: bool) -> (w: RegWrite)
        ensures
            w == (RegWrite { addr: LED_ADDR, value: if en { ENABLE_BIT } else { 0 } }),
    {
        proof {
            use_type_invariant(self);
            lemma_encode_decode(ENABLE_BIT);
            lemma_encode_decode(0);
        }
        let flags = if en {
            Ctrl::enable_flag()
        } else {
            Ctrl::empty()
        };
        RegWrite { addr: self.addr, value: flags.bits() }
    }
}

} // verus!
