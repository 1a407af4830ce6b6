//! Peripheral control for a soft-core firmware image: a numerically
//! controlled oscillator and an LED, each at a fixed physical address.
//!
//! The library decides what every register access writes: the control
//! bitfield keeps reserved bits across a read-modify-write, and the
//! oscillator's phase step is quantized exactly from the requested
//! frequency. The accesses themselves belong to whoever maps the registers.
use vstd::prelude::*;

pub mod ctrl;
pub mod freq;
pub mod led;
pub mod nco;
pub mod reg;

verus! {

} // verus!
