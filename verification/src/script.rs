//! The scripting hook surface: a trait game code implements to be driven by
//! the engine loop.

use vstd::prelude::*;

verus! {

/// A script attached to the engine: registered once, initialized once, then
/// stepped every frame with the elapsed time.
pub trait Script {
    /// Announce the script to the host registry.
    fn register_script(&self);

    /// Step the script by `dt` elapsed ticks.
    fn update(&self, dt: usize);

    /// One-time setup before the first update.
    fn init(&self);
}

/// The placeholder script: attached by default, does nothing.
pub struct P {}

impl Script for P {
    fn register_script(&self) {
    }

    fn update(&self, dt: usize) {
        let _ = dt;
    }

    fn init(&self) {
    }
}

} // verus!
