//! The logic of a Wi-Fi LED controller that runs WebAssembly guests.
//!
//! One core fetches an image over the network (`uri`, `target`, `ota`) into flash (`flash`);
//! the other runs it (`worker`) and shows what the guest draws on an LED strip (`ws2812`,
//! `strip_table`, `fifo`, `color`) at the pace that the guest sets (`delay`). `animation`
//! holds the pictures themselves, and `compiler` makes guests ready for the controller.

pub mod animation;
pub mod bytes;
pub mod color;
pub mod compiler;
pub mod delay;
pub mod fifo;
pub mod flash;
pub mod ota;
pub mod strip_table;
pub mod target;
pub mod text;
pub mod uri;
pub mod worker;
pub mod ws2812;

use vstd::prelude::*;

verus! {

/// Number of LEDs on the strip.
pub const NUM_LEDS: usize = 100;

} // verus!
