use vstd::prelude::*;

verus! {

/// Bit 0 of a control word: the peripheral's enable flag.
pub const ENABLE_BIT: u32 = 1;

/// The value of bit `i` of `word`.
pub open spec fn bit(word: u32, i: u32) -> bool {
    (word >> i) & 1 == 1
}

/// `word` with the bits of `flag` set when `value` holds and cleared when it
/// does not; every other bit as it was.
pub open spec fn with_flag(word: u32, flag: u32, value: bool) -> u32 {
    if value {
        word | flag
    } else {
        word & !flag
    }
}

/// A control word viewed as a set of named flags.
///
/// Every bit is kept, named or not, so that bits reserved by the hardware
/// survive a read-modify-write unchanged.
#[derive(Clone, Copy, Debug, PartialEq, Eq, Structural)]
pub struct Ctrl {
    bits: u32,
}

/// The flag set that a raw control word decodes to.
pub closed spec fn decoded(raw: u32) -> Ctrl {
    Ctrl { bits: raw }
}

impl Ctrl {
    /// The raw word that this flag set encodes to.
    pub closed spec fn view(&self) -> u32 {
        self.bits
    }

    /// The flag set with no bit set.
    pub fn empty() -> (r: Ctrl)
        ensures
            r == decoded(0),
    {
        Ctrl { bits: 0 }
    }

    /// The flag set that holds the enable flag alone.
    pub fn enable_flag() -> (r: Ctrl)
        ensures
            r == decoded(ENABLE_BIT),
    {
        Ctrl { bits: ENABLE_BIT }
    }

    /// Decodes a raw control word, keeping every bit, known or not.
    pub fn from_bits_retain(raw: u32) -> (r: Ctrl)
        ensures
            r == decoded(raw),
    {
        Ctrl { bits: raw }
    }

    /// Encodes the flag set as a raw control word.
    pub fn bits(&self) -> (r: u32)
        ensures
            r == self@,
    {
        self.bits
    }

    /// Whether every bit of `flag` is set here.
    pub fn contains(&self, flag: Ctrl) -> (r: bool)
        ensures
            r == (self@ & flag@ == flag@),
    {
        self.bits & flag.bits == flag.bits
    }

    /// Sets the bits of `flag` when `value` holds, clears them when it does
    /// not, and leaves every other bit alone.
    pub fn set(&mut self, flag: Ctrl, value: bool)
        ensures
            *final(self) == decoded(with_flag(old(self)@, flag@, value)),
    {
        if value {
            self.bits = self.bits | flag.bits;
        } else {
            self.bits = self.bits & !flag.bits;
        }
    }
}

/// Encoding a decoded word gives the word back, bit for bit.
pub proof fn lemma_encode_decode(x: u32)
    ensures
        decoded(x)@ == x,
{
}

/// Decoding an encoded flag set gives the flag set back.
pub proof fn lemma_decode_encode(c: Ctrl)
    ensures
        decoded(c@) == c,
{
}

/// Setting the enable flag of a decoded word to `v` and encoding it again
/// gives a word whose bit 0 is `v` and whose other bits are those of `x`.
pub proof fn lemma_set_enable_keeps_other_bits(x: u32, v: bool)
    ensures
        bit(decoded(with_flag(decoded(x)@, decoded(ENABLE_BIT)@, v))@, 0) == v,
        forall|i: u32|
            0 < i < 32 ==> #[trigger] bit(
                decoded(with_flag(decoded(x)@, decoded(ENABLE_BIT)@, v))@,
                i,
            ) == bit(x, i),
{
    let w = with_flag(x, ENABLE_BIT, v);
    assert(bit(w, 0) == v) by (bit_vector)
        requires
            w == with_flag(x, ENABLE_BIT, v),
    ;
    assert forall|i: u32| 0 < i < 32 implies #[trigger] bit(w, i) == bit(x, i) by {
        assert(bit(w, i) == bit(x, i)) by (bit_vector)
            requires
                w == with_flag(x, ENABLE_BIT, v),
                0 < i < 32,
        ;
    }
}

/// Setting a flag to the same value twice leaves the word as setting it once.
pub proof fn lemma_set_idempotent(x: u32, flag: u32, v: bool)
    ensures
        with_flag(with_flag(x, flag, v), flag, v) == with_flag(x, flag, v),
{
    assert(with_flag(with_flag(x, flag, v), flag, v) == with_flag(x, flag, v)) by (bit_vector);
}

} // verus!
