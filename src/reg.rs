use vstd::prelude::*;

verus! {

/// One write of a 32-bit word to a memory-mapped register.
#[derive(Clone, Copy, Debug, PartialEq, Eq, Structural)]
pub struct RegWrite {
    /// Address of the register.
    pub addr: usize,
    /// Word to store there.
    pub value: u32,
}

} // verus!
