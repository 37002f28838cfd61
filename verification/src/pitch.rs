//! Musical pitch: one of twelve semitone names plus an octave number,
//! ordered totally by semitone distance from C0.

use vstd::prelude::*;

verus! {

/// One of the twelve semitone names of the chromatic scale.
#[derive(Debug, Clone, Copy, PartialEq, Eq, Structural)]
pub enum Tone {
    C,
    Cs,
    D,
    Ds,
    E,
    F,
    Fs,
    G,
    Gs,
    A,
    As,
    B,
}

/// Position of a tone within the chromatic scale, C first.
pub open spec fn spec_tone_index(t: Tone) -> int {
    match t {
        Tone::C => 0,
        Tone::Cs => 1,
        Tone::D => 2,
        Tone::Ds => 3,
        Tone::E => 4,
        Tone::F => 5,
        Tone::Fs => 6,
        Tone::G => 7,
        Tone::Gs => 8,
        Tone::A => 9,
        Tone::As => 10,
        Tone::B => 11,
    }
}

impl Tone {
    /// The tone sitting at the given chromatic-scale position.
    pub fn from_index(index: u16) -> (r: Tone)
        requires
            index < 12,
        ensures
            spec_tone_index(r) == index as int,
    {
        match index {
            0 => Tone::C,
            1 => Tone::Cs,
            2 => Tone::D,
            3 => Tone::Ds,
            4 => Tone::E,
            5 => Tone::F,
            6 => Tone::Fs,
            7 => Tone::G,
            8 => Tone::Gs,
            9 => Tone::A,
            10 => Tone::As,
            _ => Tone::B,
        }
    }

    /// Chromatic-scale position of this tone.
    pub fn index(&self) -> (r: u16)
        ensures
            r as int == spec_tone_index(*self),
            r < 12,
    {
        match self {
            Tone::C => 0,
            Tone::Cs => 1,
            Tone::D => 2,
            Tone::Ds => 3,
            Tone::E => 4,
            Tone::F => 5,
            Tone::Fs => 6,
            Tone::G => 7,
            Tone::Gs => 8,
            Tone::A => 9,
            Tone::As => 10,
            Tone::B => 11,
        }
    }
}

/// A musical pitch: a tone name in a given octave.
#[derive(Debug, Clone, Copy, PartialEq, Eq, Structural)]
pub struct Pitch {
    pub tone: Tone,
    pub octave: u8,
}

/// Total order on pitches: semitone distance from C0.
pub open spec fn spec_semitone(p: Pitch) -> int {
    p.octave * 12 + spec_tone_index(p.tone)
}

impl Pitch {
    pub fn new(tone: Tone, octave: u8) -> (r: Pitch)
        ensures
            r.tone == tone,
            r.octave == octave,
    {
        Pitch { tone, octave }
    }

    /// Semitone distance of this pitch from C0; the key of the total
    /// pitch order used by range queries.
    pub fn semitone(&self) -> (r: u16)
        ensures
            r as int == spec_semitone(*self),
    {
        (self.octave as u16) * 12 + self.tone.index()
    }
}

} // verus!
