//! Loop region of the playback clock: disabled, or looping over an
//! optional `[start, end)` tick range. Looping only takes effect once
//! both bounds are set; with a bound missing the loop is armed but
//! inactive.

use vstd::prelude::*;

verus! {

/// Whether the clock cycles through the loop region.
#[derive(Debug, Clone, Copy, PartialEq, Eq, Structural)]
pub enum LoopMode {
    Disabled,
    Looping,
}

/// The loop region and its mode. An unset bound leaves looping armed
/// but without effect.
#[derive(Debug, Clone, Copy)]
pub struct LoopState {
    pub mode: LoopMode,
    pub start_time_b32: Option<u64>,
    pub end_time_b32: Option<u64>,
}

impl LoopState {
    /// Looping disabled, with no bounds set.
    pub fn new() -> (r: LoopState)
        ensures
            r.mode == LoopMode::Disabled,
            r.start_time_b32 is None,
            r.end_time_b32 is None,
    {
        LoopState { mode: LoopMode::Disabled, start_time_b32: None, end_time_b32: None }
    }

    /// Whether loop mode is switched on (its bounds may still be unset).
    pub fn is_looping(&self) -> (r: bool)
        ensures
            r == (self.mode == LoopMode::Looping),
    {
        match self.mode {
            LoopMode::Looping => true,
            LoopMode::Disabled => false,
        }
    }
}

} // verus!
