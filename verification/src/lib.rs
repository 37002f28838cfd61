//! Sequencing core of a terminal music tracker: a quantized, pitched note
//! timeline with overlap-merge editing, and a tempo-driven playback clock
//! that turns the timeline into a stream of sample commands.

use vstd::prelude::*;

pub mod components;
pub mod daw;
pub mod drawing;
pub mod grid;
pub mod loop_state;
pub mod pitch;
pub mod player;
pub mod score;

verus! {

} // verus!
