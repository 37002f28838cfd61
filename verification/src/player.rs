//! The playback clock: a pull-based generator that converts elapsed
//! samples into timeline ticks and yields, per pulled sample, the set
//! of notes to sound. Mixing those notes into an amplitude is left to
//! the caller; an empty set means a silent sample.

use vstd::prelude::*;

verus! {

use crate::loop_state::{LoopMode, LoopState};
use crate::pitch::Pitch;
use crate::score::{
    lemma_filter_sub, note_end, sounding_after_pred, starts_at_pred, wf_note, Note, Score,
};

/// Play state of the clock.
#[derive(Debug, Clone, Copy, PartialEq, Eq, Structural)]
pub enum PlayState {
    Stopped,
    Playing,
    Paused,
    Preview,
}

/// Wall-clock lifetime of an auditioned note, in milliseconds.
pub const PREVIEW_DURATION_MS: u64 = 250;

/// Tick length of the transient note a preview sounds.
pub const PREVIEW_NOTE_B32: u64 = 16;

/// Every note in the sounding set is a valid note.
pub open spec fn wf_active(s: Seq<Note>) -> bool {
    forall|i: int| 0 <= i < s.len() ==> wf_note(#[trigger] s[i])
}

/// Samples per timeline tick at the given rate and tempo: an
/// integer-truncating approximation of `sample_rate * 60 / bpm / 32`.
pub open spec fn spec_ticks_ratio(sample_rate: u64, bpm: u16) -> int {
    (sample_rate as int) * 60 / (bpm as int) / 32
}

/// The preview timer has run out: a preview started at `start` has
/// outlived its wall-clock lifetime at time `now_ms`.
pub open spec fn preview_expired(start: Option<u64>, now_ms: u64) -> bool {
    match start {
        Some(s) => now_ms > s + PREVIEW_DURATION_MS,
        None => false,
    }
}

/// Where the clock jumps when the logical tick `t1` leaves an active
/// loop region: `Some(start)` to jump, `None` to run on. The region
/// only acts when looping is on and both bounds are set.
pub open spec fn loop_target(ls: LoopState, t1: int) -> Option<u64> {
    match (ls.mode, ls.start_time_b32, ls.end_time_b32) {
        (LoopMode::Looping, Some(st), Some(en)) => if t1 >= en || t1 < st {
            Some(st)
        } else {
            None
        },
        _ => None,
    }
}

/// The playback clock. It owns no timeline: each pull is handed the
/// timeline to query, and each time reading comes in as a plain
/// millisecond value, so the caller chooses the clock source.
#[derive(Debug)]
pub struct Player {
    sample_rate: u64,
    state: PlayState,
    tick: u64,
    time_b32: u64,
    active_notes: Vec<Note>,
    ticks_per_b32: u64,
    loop_state: LoopState,
    preview_start_ms: Option<u64>,
}

/// The two players agree on every observable field.
pub open spec fn same_player(a: Player, b: Player) -> bool {
    &&& a.spec_state() == b.spec_state()
    &&& a.spec_tick() == b.spec_tick()
    &&& a.spec_time_b32() == b.spec_time_b32()
    &&& a.spec_active() == b.spec_active()
    &&& a.spec_preview_start() == b.spec_preview_start()
    &&& a.spec_loop_state() == b.spec_loop_state()
    &&& a.spec_ticks_per_b32() == b.spec_ticks_per_b32()
    &&& a.spec_sample_rate() == b.spec_sample_rate()
}

/// Copy of a note vector.
fn copy_notes(v: &Vec<Note>) -> (r: Vec<Note>)
    ensures
        r@ == v@,
{
    let mut r: Vec<Note> = Vec::new();
    let n = v.len();
    for i in 0..n
        invariant
            n == v@.len(),
            r@ == v@.take(i as int),
    {
        r.push(v[i]);
        assert(v@.take(i + 1) =~= v@.take(i as int).push(v@[i as int]));
    }
    proof {
        assert(v@.take(n as int) =~= v@);
    }
    r
}

impl Player {
    pub closed spec fn spec_state(&self) -> PlayState {
        self.state
    }

    pub closed spec fn spec_tick(&self) -> u64 {
        self.tick
    }

    pub closed spec fn spec_time_b32(&self) -> u64 {
        self.time_b32
    }

    pub closed spec fn spec_active(&self) -> Seq<Note> {
        self.active_notes@
    }

    pub closed spec fn spec_ticks_per_b32(&self) -> u64 {
        self.ticks_per_b32
    }

    pub closed spec fn spec_loop_state(&self) -> LoopState {
        self.loop_state
    }

    pub closed spec fn spec_preview_start(&self) -> Option<u64> {
        self.preview_start_ms
    }

    pub closed spec fn spec_sample_rate(&self) -> u64 {
        self.sample_rate
    }

    /// At least one sample per tick, and only valid notes sounding.
    pub open spec fn wf(&self) -> bool {
        &&& self.spec_ticks_per_b32() >= 1
        &&& wf_active(self.spec_active())
    }

    /// A stopped clock for the given sample rate and tempo. The
    /// sample-per-tick ratio truncates twice, exactly as documented:
    /// at tempos where the division is inexact the audible tick
    /// boundary drifts slightly from true musical time.
    pub fn create(sample_rate: u64, bpm: u16) -> (r: Player)
        requires
            bpm >= 1,
            sample_rate as int * 60 <= u64::MAX,
            spec_ticks_ratio(sample_rate, bpm) >= 1,
        ensures
            r.wf(),
            r.spec_state() == PlayState::Stopped,
            r.spec_tick() == 0,
            r.spec_time_b32() == 0,
            r.spec_active() =~= Seq::<Note>::empty(),
            r.spec_ticks_per_b32() == spec_ticks_ratio(sample_rate, bpm),
            r.spec_loop_state().mode == LoopMode::Disabled,
            r.spec_preview_start() is None,
            r.spec_sample_rate() == sample_rate,
    {
        let ticks_per_b32 = (sample_rate * 60 / (bpm as u64)) / 32;
        Player {
            sample_rate,
            state: PlayState::Stopped,
            tick: 0,
            time_b32: 0,
            active_notes: Vec::new(),
            ticks_per_b32,
            loop_state: LoopState::new(),
            preview_start_ms: None,
        }
    }

    pub fn play(&mut self)
        requires
            old(self).wf(),
        ensures
            final(self).wf(),
            final(self).spec_state() == PlayState::Playing,
            final(self).spec_tick() == old(self).spec_tick(),
            final(self).spec_time_b32() == old(self).spec_time_b32(),
            final(self).spec_active() == old(self).spec_active(),
            final(self).spec_preview_start() == old(self).spec_preview_start(),
            final(self).spec_loop_state() == old(self).spec_loop_state(),
            final(self).spec_ticks_per_b32() == old(self).spec_ticks_per_b32(),
            final(self).spec_sample_rate() == old(self).spec_sample_rate(),
    {
        self.state = PlayState::Playing;
    }

    pub fn pause(&mut self)
        requires
            old(self).wf(),
        ensures
            final(self).wf(),
            final(self).spec_state() == PlayState::Paused,
            final(self).spec_tick() == old(self).spec_tick(),
            final(self).spec_time_b32() == old(self).spec_time_b32(),
            final(self).spec_active() == old(self).spec_active(),
            final(self).spec_preview_start() == old(self).spec_preview_start(),
            final(self).spec_loop_state() == old(self).spec_loop_state(),
            final(self).spec_ticks_per_b32() == old(self).spec_ticks_per_b32(),
            final(self).spec_sample_rate() == old(self).spec_sample_rate(),
    {
        self.state = PlayState::Paused;
    }

    /// Stop playback: reset the logical tick and sample counter and
    /// silence every active note.
    pub fn stop(&mut self)
        requires
            old(self).wf(),
        ensures
            final(self).wf(),
            final(self).spec_state() == PlayState::Stopped,
            final(self).spec_tick() == 0,
            final(self).spec_time_b32() == 0,
            final(self).spec_active() =~= Seq::<Note>::empty(),
            final(self).spec_preview_start() == old(self).spec_preview_start(),
            final(self).spec_loop_state() == old(self).spec_loop_state(),
            final(self).spec_ticks_per_b32() == old(self).spec_ticks_per_b32(),
            final(self).spec_sample_rate() == old(self).spec_sample_rate(),
    {
        self.state = PlayState::Stopped;
        self.time_b32 = 0;
        self.tick = 0;
        self.active_notes.clear();
    }

    /// Playing pauses; paused or stopped plays; a preview pauses.
    pub fn toggle_playback(&mut self)
        requires
            old(self).wf(),
        ensures
            final(self).wf(),
            final(self).spec_state() == (match old(self).spec_state() {
                PlayState::Playing => PlayState::Paused,
                PlayState::Paused => PlayState::Playing,
                PlayState::Stopped => PlayState::Playing,
                PlayState::Preview => PlayState::Paused,
            }),
            final(self).spec_tick() == old(self).spec_tick(),
            final(self).spec_time_b32() == old(self).spec_time_b32(),
            final(self).spec_active() == old(self).spec_active(),
            final(self).spec_preview_start() == old(self).spec_preview_start(),
            final(self).spec_loop_state() == old(self).spec_loop_state(),
            final(self).spec_ticks_per_b32() == old(self).spec_ticks_per_b32(),
            final(self).spec_sample_rate() == old(self).spec_sample_rate(),
    {
        self.state = match self.state {
            PlayState::Playing => PlayState::Paused,
            PlayState::Paused | PlayState::Stopped => PlayState::Playing,
            PlayState::Preview => PlayState::Paused,
        }
    }

    pub fn is_playing(&self) -> (r: bool)
        ensures
            r == (self.spec_state() == PlayState::Playing || self.spec_state()
                == PlayState::Preview),
    {
        match self.state {
            PlayState::Playing | PlayState::Preview => true,
            _ => false,
        }
    }

    pub fn current_time_b32(&self) -> (r: u64)
        ensures
            r == self.spec_time_b32(),
    {
        self.time_b32
    }

    /// The sample counter, the time base of the oscillators.
    pub fn current_tick(&self) -> (r: u64)
        ensures
            r == self.spec_tick(),
    {
        self.tick
    }

    pub fn state(&self) -> (r: PlayState)
        ensures
            r == self.spec_state(),
    {
        self.state
    }

    pub fn set_loop_state(&mut self, loop_state: LoopState)
        requires
            old(self).wf(),
        ensures
            final(self).wf(),
            final(self).spec_loop_state() == loop_state,
            final(self).spec_state() == old(self).spec_state(),
            final(self).spec_tick() == old(self).spec_tick(),
            final(self).spec_time_b32() == old(self).spec_time_b32(),
            final(self).spec_active() == old(self).spec_active(),
            final(self).spec_preview_start() == old(self).spec_preview_start(),
            final(self).spec_ticks_per_b32() == old(self).spec_ticks_per_b32(),
            final(self).spec_sample_rate() == old(self).spec_sample_rate(),
    {
        self.loop_state = loop_state;
    }

    /// Pause and seek: jump to the given tick, reset the sample
    /// counter, and make exactly the notes starting there active.
    pub fn set_time_b32(&mut self, score: &Score, time_b32: u64)
        requires
            old(self).wf(),
            score.wf(),
        ensures
            final(self).wf(),
            final(self).spec_state() == PlayState::Paused,
            final(self).spec_time_b32() == time_b32,
            final(self).spec_tick() == 0,
            final(self).spec_active() == score@.filter(starts_at_pred(time_b32)),
            final(self).spec_preview_start() == old(self).spec_preview_start(),
            final(self).spec_loop_state() == old(self).spec_loop_state(),
            final(self).spec_ticks_per_b32() == old(self).spec_ticks_per_b32(),
            final(self).spec_sample_rate() == old(self).spec_sample_rate(),
    {
        self.pause();
        self.time_b32 = time_b32;
        self.tick = 0;
        self.active_notes.clear();
        self.update_active_notes(score);
        proof {
            assert(Seq::<Note>::empty().filter(sounding_after_pred(time_b32))
                =~= Seq::<Note>::empty());
            assert(self.spec_active() =~= score@.filter(starts_at_pred(time_b32)));
        }
    }

    /// Sound a single transient note, independent of the timeline, and
    /// start its wall-clock expiry timer at `now_ms`.
    pub fn preview_note(&mut self, pitch: Pitch, now_ms: u64)
        requires
            old(self).wf(),
        ensures
            final(self).wf(),
            final(self).spec_state() == PlayState::Preview,
            final(self).spec_active() =~= seq![
                Note { pitch, onset_b32: 0, duration_b32: PREVIEW_NOTE_B32 },
            ],
            final(self).spec_preview_start() == Some(now_ms),
            final(self).spec_tick() == old(self).spec_tick(),
            final(self).spec_time_b32() == old(self).spec_time_b32(),
            final(self).spec_loop_state() == old(self).spec_loop_state(),
            final(self).spec_ticks_per_b32() == old(self).spec_ticks_per_b32(),
            final(self).spec_sample_rate() == old(self).spec_sample_rate(),
    {
        self.state = PlayState::Preview;
        self.active_notes.clear();
        self.active_notes.push(Note { pitch, onset_b32: 0, duration_b32: PREVIEW_NOTE_B32 });
        self.preview_start_ms = Some(now_ms);
    }

    /// Cancel a running preview: back to stopped with silence. Outside
    /// a preview this does nothing.
    pub fn clear_preview(&mut self)
        requires
            old(self).wf(),
        ensures
            final(self).wf(),
            old(self).spec_state() == PlayState::Preview ==> final(self).spec_state()
                == PlayState::Stopped && final(self).spec_active() =~= Seq::<Note>::empty()
                && (final(self).spec_preview_start() is None) && final(self).spec_tick() == old(self).spec_tick() && final(self).spec_time_b32() == old(self).spec_time_b32()
                && final(self).spec_loop_state() == old(self).spec_loop_state(),
            old(self).spec_state() != PlayState::Preview ==> same_player(
                *final(self),
                *old(self),
            ),
            final(self).spec_ticks_per_b32() == old(self).spec_ticks_per_b32(),
            final(self).spec_sample_rate() == old(self).spec_sample_rate(),
    {
        if self.state() == PlayState::Preview {
            self.state = PlayState::Stopped;
            self.active_notes.clear();
            self.preview_start_ms = None;
        }
    }

    /// Drop every active note that has finished by the current tick and
    /// take up the notes starting at it.
    fn update_active_notes(&mut self, score: &Score)
        requires
            old(self).wf(),
            score.wf(),
        ensures
            final(self).wf(),
            final(self).spec_active() == old(self).spec_active().filter(
                sounding_after_pred(old(self).spec_time_b32()),
            ) + score@.filter(starts_at_pred(old(self).spec_time_b32())),
            final(self).spec_state() == old(self).spec_state(),
            final(self).spec_tick() == old(self).spec_tick(),
            final(self).spec_time_b32() == old(self).spec_time_b32(),
            final(self).spec_preview_start() == old(self).spec_preview_start(),
            final(self).spec_loop_state() == old(self).spec_loop_state(),
            final(self).spec_ticks_per_b32() == old(self).spec_ticks_per_b32(),
            final(self).spec_sample_rate() == old(self).spec_sample_rate(),
    {
        let t = self.time_b32;
        let ghost sp = sounding_after_pred(t);
        let mut kept: Vec<Note> = Vec::new();
        let n = self.active_notes.len();
        for i in 0..n
            invariant
                n == self.spec_active().len(),
                self.wf(),
                t == self.spec_time_b32(),
                sp == sounding_after_pred(t),
                kept@ == self.spec_active().take(i as int).filter(sp),
                forall|k: int| 0 <= k < kept@.len() ==> wf_note(#[trigger] kept@[k]),
        {
            proof {
                crate::score::lemma_filter_take_step(self.spec_active(), i as int, sp);
            }
            let nt = self.active_notes[i];
            if nt.onset_b32 + nt.duration_b32 > t {
                kept.push(nt);
            }
        }
        proof {
            assert(self.spec_active().take(n as int) =~= self.spec_active());
        }
        let mut fresh = score.notes_starting_at_time(t);
        proof {
            lemma_filter_sub(score@, starts_at_pred(t));
            assert forall|k: int| 0 <= k < fresh@.len() implies wf_note(#[trigger] fresh@[k]) by {
                assert(score@.contains(fresh@[k]));
                let w = choose|w: int| 0 <= w < score@.len() && score@[w] == fresh@[k];
                assert(wf_note(score@[w]));
            }
        }
        kept.append(&mut fresh);
        self.active_notes = kept;
    }

    /// Step the logical tick, then snap back to the loop start and cut
    /// every active note if the tick left an active loop region.
    fn handle_time_update(&mut self)
        requires
            old(self).wf(),
            old(self).spec_tick() != 0 ==> old(self).spec_time_b32() < u64::MAX,
        ensures
            final(self).wf(),
            final(self).spec_state() == old(self).spec_state(),
            final(self).spec_preview_start() == old(self).spec_preview_start(),
            final(self).spec_loop_state() == old(self).spec_loop_state(),
            final(self).spec_ticks_per_b32() == old(self).spec_ticks_per_b32(),
            final(self).spec_sample_rate() == old(self).spec_sample_rate(),
            ({
                let t1: int = if old(self).spec_tick() != 0 {
                    old(self).spec_time_b32() + 1
                } else {
                    old(self).spec_time_b32() as int
                };
                match loop_target(old(self).spec_loop_state(), t1) {
                    Some(st) => final(self).spec_time_b32() == st && final(self).spec_tick() == 0
                        && final(self).spec_active() =~= Seq::<Note>::empty(),
                    None => final(self).spec_time_b32() == t1 && final(self).spec_tick() == old(self).spec_tick() && final(self).spec_active() == old(self).spec_active(),
                }
            }),
    {
        if self.tick != 0 {
            self.time_b32 = self.time_b32 + 1;
        }
        if self.loop_state.is_looping() {
            match (self.loop_state.start_time_b32, self.loop_state.end_time_b32) {
                (Some(start), Some(end)) => {
                    if self.time_b32 >= end || self.time_b32 < start {
                        self.time_b32 = start;
                        self.tick = 0;
                        self.active_notes.clear();
                    }
                },
                _ => {},
            }
        }
    }

    /// Pull one sample: advance the clock and return the notes to
    /// sound for it. An empty result is a silent sample. While stopped
    /// or paused the result is always empty and nothing changes; an
    /// expired preview stops the clock and silences it; on a playing
    /// tick boundary the active set follows the timeline, the song's
    /// end stops the clock, and an active loop region snaps the tick
    /// back to its start with a hard cut.
    pub fn next_sample(&mut self, score: &Score, now_ms: u64) -> (r: Vec<Note>)
        requires
            old(self).wf(),
            score.wf(),
            old(self).spec_tick() < u64::MAX,
            old(self).spec_time_b32() < u64::MAX,
        ensures
            final(self).wf(),
            final(self).spec_ticks_per_b32() == old(self).spec_ticks_per_b32(),
            final(self).spec_sample_rate() == old(self).spec_sample_rate(),
            final(self).spec_loop_state() == old(self).spec_loop_state(),
            // silence while stopped or paused, with nothing disturbed
            (old(self).spec_state() == PlayState::Stopped || old(self).spec_state()
                == PlayState::Paused) ==> r@ =~= Seq::<Note>::empty() && same_player(
                *final(self),
                *old(self),
            ),
            // a preview that outlived its timer stops the clock
            old(self).spec_state() == PlayState::Preview && preview_expired(
                old(self).spec_preview_start(),
                now_ms,
            ) ==> r@ =~= Seq::<Note>::empty() && final(self).spec_state() == PlayState::Stopped
                && final(self).spec_active() =~= Seq::<Note>::empty() && (final(self).spec_preview_start() is None) && final(self).spec_tick() == old(self).spec_tick()
                && final(self).spec_time_b32() == old(self).spec_time_b32(),
            // a live preview keeps sounding its transient note
            old(self).spec_state() == PlayState::Preview && !preview_expired(
                old(self).spec_preview_start(),
                now_ms,
            ) ==> r@ == old(self).spec_active() && final(self).spec_state() == PlayState::Preview
                && final(self).spec_active() == old(self).spec_active() && final(self).spec_preview_start() == old(self).spec_preview_start() && final(self).spec_tick()
                == old(self).spec_tick() + 1 && final(self).spec_time_b32() == old(self).spec_time_b32(),
            // playing, off a tick boundary: only the sample counter moves
            old(self).spec_state() == PlayState::Playing && old(self).spec_tick() % old(self).spec_ticks_per_b32() != 0 ==> r@ == old(self).spec_active() && final(self).spec_state() == PlayState::Playing && final(self).spec_active() == old(self).spec_active() && final(self).spec_tick() == old(self).spec_tick() + 1 && final(self).spec_time_b32() == old(self).spec_time_b32() && final(self).spec_preview_start()
                == old(self).spec_preview_start(),
            // playing past the last note: stop
            old(self).spec_state() == PlayState::Playing && old(self).spec_tick() % old(self).spec_ticks_per_b32() == 0 && !(exists|i: int|
                0 <= i < score@.len() && note_end(score@[i]) > old(self).spec_time_b32()) ==> r@
                =~= Seq::<Note>::empty() && final(self).spec_state() == PlayState::Stopped
                && final(self).spec_active() =~= Seq::<Note>::empty() && final(self).spec_time_b32() == 0 && final(self).spec_tick() == 1 && final(self).spec_preview_start() == old(self).spec_preview_start(),
            // playing on a tick boundary inside the song
            (old(self).spec_state() == PlayState::Playing && old(self).spec_tick() % old(self).spec_ticks_per_b32() == 0 && (exists|i: int|
                0 <= i < score@.len() && note_end(score@[i]) > old(self).spec_time_b32())) ==> ({
                let t = old(self).spec_time_b32();
                let active1 = old(self).spec_active().filter(sounding_after_pred(t))
                    + score@.filter(starts_at_pred(t));
                let t1: int = if old(self).spec_tick() != 0 {
                    t + 1
                } else {
                    t as int
                };
                &&& final(self).spec_state() == PlayState::Playing
                &&& final(self).spec_preview_start() == old(self).spec_preview_start()
                &&& match loop_target(old(self).spec_loop_state(), t1) {
                    Some(st) => r@ =~= Seq::<Note>::empty() && final(self).spec_active()
                        =~= Seq::<Note>::empty() && final(self).spec_time_b32() == st && final(self).spec_tick() == 1,
                    None => r@ == active1 && final(self).spec_active() == active1 && final(self).spec_time_b32() == t1 && final(self).spec_tick() == old(self).spec_tick()
                        + 1,
                }
            }),
    {
        match self.preview_start_ms {
            Some(start_ms) => {
                if now_ms > start_ms && now_ms - start_ms > PREVIEW_DURATION_MS {
                    self.clear_preview();
                }
            },
            None => {},
        }
        match self.state {
            PlayState::Playing => {
                if self.tick % self.ticks_per_b32 == 0 {
                    if score.time_within_song(self.time_b32) {
                        self.update_active_notes(score);
                        self.handle_time_update();
                    } else {
                        self.active_notes.clear();
                        self.stop();
                    }
                }
                self.tick = self.tick + 1;
            },
            PlayState::Preview => {
                self.tick = self.tick + 1;
            },
            _ => {
                return Vec::new();
            },
        }
        if self.active_notes.len() == 0 {
            return Vec::new();
        }
        copy_notes(&self.active_notes)
    }
}

} // verus!
