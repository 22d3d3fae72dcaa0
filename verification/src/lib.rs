//! Session daemon core: state synchronization and event fan-in.
//!
//! The library holds the verified heart of a desktop session daemon:
//! per-subsystem domain caches and the monitor step that emits exactly one
//! change event per observed transition, the bounded alert history, the
//! registration relay that funnels many concurrent announcers into one
//! ordered emitter, the client-side event multiplexer, and the parsers for
//! the textual output of the external subsystem tools.

use vstd::prelude::*;

pub mod audio;
pub mod bluetooth;
pub mod brightness;
pub mod cache;
pub mod media;
pub mod monitor;
pub mod mux;
pub mod network;
pub mod notifications;
pub mod relay;
pub mod system;
pub mod text;
pub mod types;

verus! {

/// A percentage clamped into the 0..=100 range that every cached
/// percentage state keeps.
pub open spec fn clamped(p: u32) -> u32 {
    if p <= 100 {
        p
    } else {
        100u32
    }
}

/// Clamps a requested percentage to the 0..=100 range the caches keep and
/// the external volume and brightness tools expect.
pub fn clamp_percent(p: u32) -> (r: u32)
    ensures
        r == clamped(p),
{
    if p <= 100 {
        p
    } else {
        100
    }
}

} // verus!
