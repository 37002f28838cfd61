//! Plain data of the persisted song form: song metadata, mixdown
//! parameters, and pitched note events keyed by a time string. Reading
//! and writing the song file itself is the persistence gateway's job
//! and stays outside this crate's core.

use vstd::prelude::*;

verus! {

use crate::pitch::Pitch;

/// Parameters the render sink writes audio with.
#[derive(Debug, Clone, Copy, PartialEq, Eq, Structural)]
pub struct MixdownSettings {
    pub sample_rate: u32,
    pub bit_depth: u16,
}

/// A pitched note of the persisted form; the duration counts 32nd
/// notes.
#[derive(Debug, Clone, Copy, PartialEq, Eq, Structural)]
pub struct Note {
    pub pitch: Pitch,
    pub duration: u32,
}

impl Note {
    pub fn new(pitch: Pitch, duration: u32) -> (r: Note)
        ensures
            r.pitch == pitch,
            r.duration == duration,
    {
        Note { pitch, duration }
    }
}

/// The notes one instrument starts at one time point, the time written
/// as a `bar.32nd` string.
#[derive(Debug)]
pub struct Event {
    pub time: String,
    pub instrument: String,
    pub notes: Vec<Note>,
}

impl Clone for Event {
    /// A copy with the same time, instrument and notes.
    fn clone(&self) -> (r: Event)
        ensures
            r.time == self.time,
            r.instrument == self.instrument,
            r.notes@ == self.notes@,
    {
        let mut notes: Vec<Note> = Vec::new();
        let n = self.notes.len();
        for i in 0..n
            invariant
                n == self.notes@.len(),
                notes@ == self.notes@.take(i as int),
        {
            notes.push(self.notes[i]);
            assert(self.notes@.take(i + 1) =~= self.notes@.take(i as int).push(
                self.notes@[i as int],
            ));
        }
        proof {
            assert(self.notes@.take(n as int) =~= self.notes@);
        }
        Event { time: self.time.clone(), instrument: self.instrument.clone(), notes }
    }
}

/// Song metadata: title, RFC 3339 creation and modification dates, and
/// a revision counter stepped on every save.
#[derive(Debug)]
pub struct Metadata {
    pub title: String,
    pub creation_date: String,
    pub modification_date: String,
    pub revision: u32,
}

impl Clone for Metadata {
    /// A copy with the same title, dates and revision.
    fn clone(&self) -> (r: Metadata)
        ensures
            r.title == self.title,
            r.creation_date == self.creation_date,
            r.modification_date == self.modification_date,
            r.revision == self.revision,
    {
        Metadata {
            title: self.title.clone(),
            creation_date: self.creation_date.clone(),
            modification_date: self.modification_date.clone(),
            revision: self.revision,
        }
    }
}

/// Relies on chrono's `Utc::now`, rendered with `DateTime::to_rfc3339`:
/// the wall clock's current time as an RFC 3339 string. The result
/// depends on the clock, so nothing is promised of it.
#[verifier::external_body]
fn current_time_rfc3339() -> String {
    chrono::Utc::now().to_rfc3339()
}

impl Metadata {
    /// Fresh metadata: revision 0, created and modified now.
    pub fn new(title: String) -> (r: Metadata)
        ensures
            r.title == title,
            r.revision == 0,
            r.creation_date == r.modification_date,
    {
        let now = current_time_rfc3339();
        let creation = now.clone();
        Metadata { title, creation_date: creation, modification_date: now, revision: 0 }
    }

    /// Retitle and mark the song as modified now.
    pub fn set_title(&mut self, title: String)
        ensures
            final(self).title == title,
            final(self).creation_date == old(self).creation_date,
            final(self).revision == old(self).revision,
    {
        self.title = title;
        self.update_modification_date();
    }

    /// Mark the song as modified now.
    pub fn update_modification_date(&mut self)
        ensures
            final(self).title == old(self).title,
            final(self).creation_date == old(self).creation_date,
            final(self).revision == old(self).revision,
    {
        self.modification_date = current_time_rfc3339();
    }

    /// Step the revision counter.
    pub fn increment_revision(&mut self)
        requires
            old(self).revision < u32::MAX,
        ensures
            final(self).revision == old(self).revision + 1,
            final(self).title == old(self).title,
            final(self).creation_date == old(self).creation_date,
            final(self).modification_date == old(self).modification_date,
    {
        self.revision = self.revision + 1;
    }
}

} // verus!
