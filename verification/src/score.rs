//! The note timeline: a store of pitched tick intervals with
//! overlap-merge insertion, exact-match toggling, range deletion and
//! point queries. Active-note states are derived from the stored notes
//! on demand rather than cached.

use vstd::prelude::*;

verus! {

use crate::pitch::{Pitch, spec_semitone};

/// A sounding note: a pitch occupying the ticks
/// `[onset_b32, onset_b32 + duration_b32 - 1]` inclusive.
#[derive(Debug, Clone, Copy, PartialEq, Eq, Structural)]
pub struct Note {
    pub pitch: Pitch,
    pub onset_b32: u64,
    pub duration_b32: u64,
}

/// Playback phase of a note relative to a tick inside its range.
#[derive(Debug, Clone, Copy, PartialEq, Eq, Structural)]
pub enum NoteState {
    Onset,
    Sustain,
    Release,
}

/// A note tagged with its playback phase at a queried tick.
#[derive(Debug, Clone, Copy, PartialEq, Eq, Structural)]
pub struct ActiveNote {
    pub note: Note,
    pub state: NoteState,
}

/// A rectangle of the edit surface: a half-open tick range
/// `[time_point_start_b32, time_point_end_b32)` and an inclusive pitch
/// range `[pitch_low, pitch_high]`.
#[derive(Debug, Clone, Copy, PartialEq, Eq, Structural)]
pub struct SelectionRange {
    pub time_point_start_b32: u64,
    pub time_point_end_b32: u64,
    pub pitch_low: Pitch,
    pub pitch_high: Pitch,
}

/// Failure of a timeline mutation. Mutations are atomic: on any error
/// the timeline is unchanged.
#[derive(Debug, Clone, Copy, PartialEq, Eq, Structural)]
pub enum ScoreError {
    /// A removal found no matching note.
    NotFound,
    /// A selection's tick bounds are malformed (start at or past end).
    InvalidRange,
}

/// First tick past the note's range.
pub open spec fn note_end(n: Note) -> int {
    n.onset_b32 + n.duration_b32
}

/// A note the timeline may hold: at least one tick long, with an end
/// that fits the tick type.
pub open spec fn wf_note(n: Note) -> bool {
    1 <= n.duration_b32 && n.onset_b32 + n.duration_b32 <= u64::MAX
}

/// The note's tick range intersects the half-open range `[start, end)`.
pub open spec fn overlaps_range(n: Note, start: int, end: int) -> bool {
    !(note_end(n) <= start || n.onset_b32 >= end)
}

/// The note is sounding at tick `t`.
pub open spec fn sounds_at(n: Note, t: int) -> bool {
    n.onset_b32 <= t < note_end(n)
}

/// Playback phase of note `n` at a tick inside its range.
pub open spec fn state_at(n: Note, t: int) -> NoteState {
    if t == n.onset_b32 {
        NoteState::Onset
    } else if t == note_end(n) - 1 {
        NoteState::Release
    } else {
        NoteState::Sustain
    }
}

/// The pitch lies in the inclusive pitch range of the selection.
pub open spec fn pitch_in_range(p: Pitch, sel: SelectionRange) -> bool {
    spec_semitone(sel.pitch_low) <= spec_semitone(p) <= spec_semitone(sel.pitch_high)
}

/// The note is selected: its onset lies in the selection's half-open
/// tick range and its pitch in the inclusive pitch range.
pub open spec fn in_selection(n: Note, sel: SelectionRange) -> bool {
    sel.time_point_start_b32 <= n.onset_b32 < sel.time_point_end_b32 && pitch_in_range(
        n.pitch,
        sel,
    )
}

/// Notes of pitch `p` whose range intersects `[start, end)`: the notes
/// an overlap-merge insertion absorbs.
pub open spec fn overlap_pred(p: Pitch, start: int, end: int) -> spec_fn(Note) -> bool {
    |n: Note| n.pitch == p && overlaps_range(n, start, end)
}

/// Notes an overlap-merge insertion leaves in place.
pub open spec fn keep_pred(p: Pitch, start: int, end: int) -> spec_fn(Note) -> bool {
    |n: Note| !(n.pitch == p && overlaps_range(n, start, end))
}

/// Onset of the merged note: the earliest onset among the absorbed
/// notes and the inserted one.
pub open spec fn merged_onset(ov: Seq<Note>, onset: u64) -> int {
    if ov.len() == 0 {
        onset as int
    } else if spec_first_onset(ov) < onset {
        spec_first_onset(ov)
    } else {
        onset as int
    }
}

/// End of the merged note: the latest end among the absorbed notes and
/// the inserted one.
pub open spec fn merged_end(ov: Seq<Note>, end: int) -> int {
    if ov.len() == 0 {
        end
    } else if spec_last_end(ov) > end {
        spec_last_end(ov)
    } else {
        end
    }
}

/// Overlap-merge insertion: every note of the same pitch whose range
/// intersects the inserted range is absorbed into one replacement note
/// spanning them all, appended after the untouched notes.
pub open spec fn spec_insert(s: Seq<Note>, p: Pitch, onset: u64, dur: u64) -> Seq<Note> {
    let end = onset + dur;
    let kept = s.filter(keep_pred(p, onset as int, end));
    let ov = s.filter(overlap_pred(p, onset as int, end));
    let mo = merged_onset(ov, onset);
    let me = merged_end(ov, end);
    kept.push(Note { pitch: p, onset_b32: mo as u64, duration_b32: (me - mo) as u64 })
}

/// Exact-match toggle: remove the note if it is stored, otherwise
/// append it without any merging.
pub open spec fn spec_toggle(s: Seq<Note>, p: Pitch, onset: u64, dur: u64) -> Seq<Note> {
    let n = Note { pitch: p, onset_b32: onset, duration_b32: dur };
    match s.index_of_first(n) {
        Some(i) => s.remove(i),
        None => s.push(n),
    }
}

/// Notes with exactly the given onset tick: what a point query returns.
pub open spec fn starts_at_pred(onset: u64) -> spec_fn(Note) -> bool {
    |n: Note| n.onset_b32 == onset
}

/// Notes still sounding strictly past tick `t`.
pub open spec fn sounding_after_pred(t: u64) -> spec_fn(Note) -> bool {
    |n: Note| note_end(n) > t
}

/// Notes a range deletion leaves in place: those outside the selection.
pub open spec fn keep_outside_pred(sel: SelectionRange) -> spec_fn(Note) -> bool {
    |n: Note| !in_selection(n, sel)
}

/// Notes a selection picks out.
pub open spec fn select_pred(sel: SelectionRange) -> spec_fn(Note) -> bool {
    |n: Note| in_selection(n, sel)
}

/// Overlap-merge insertion of a whole sequence of notes, first to last.
pub open spec fn spec_insert_all(base: Seq<Note>, add: Seq<Note>) -> Seq<Note>
    decreases add.len(),
{
    if add.len() == 0 {
        base
    } else {
        spec_insert_all(
            spec_insert(base, add[0].pitch, add[0].onset_b32, add[0].duration_b32),
            add.drop_first(),
        )
    }
}

/// The note as it stands after shifting every onset by `delta` ticks.
pub open spec fn shifted_note(n: Note, delta: int) -> Note {
    Note {
        pitch: n.pitch,
        onset_b32: (n.onset_b32 + delta) as u64,
        duration_b32: n.duration_b32,
    }
}

/// The notes sounding at tick `t`, each tagged with its playback phase,
/// in storage order.
pub open spec fn spec_active_at(s: Seq<Note>, t: int) -> Seq<ActiveNote>
    decreases s.len(),
{
    if s.len() == 0 {
        Seq::empty()
    } else {
        let rest = spec_active_at(s.drop_last(), t);
        if sounds_at(s.last(), t) {
            rest.push(ActiveNote { note: s.last(), state: state_at(s.last(), t) })
        } else {
            rest
        }
    }
}

/// Every note is well formed and no note occurs twice.
pub open spec fn wf_notes(s: Seq<Note>) -> bool {
    &&& forall|i: int| 0 <= i < s.len() ==> wf_note(#[trigger] s[i])
    &&& forall|i: int, j: int| 0 <= i < j < s.len() ==> s[i] != s[j]
}

/// The timeline: all stored notes, in storage order, plus the tempo.
#[derive(Debug)]
pub struct Score {
    notes: Vec<Note>,
    bpm: u16,
}

impl View for Score {
    type V = Seq<Note>;

    closed spec fn view(&self) -> Seq<Note> {
        self.notes@
    }
}

// ---------------------------------------------------------------------
// Small general facts about Seq::filter, used by the query and edit
// proofs below.
// ---------------------------------------------------------------------

/// Filtering one more element onto a prefix extends the filtered prefix
/// by that element exactly when it satisfies the predicate.
pub(crate) proof fn lemma_filter_take_step<A>(s: Seq<A>, i: int, pred: spec_fn(A) -> bool)
    requires
        0 <= i < s.len(),
    ensures
        s.take(i + 1).filter(pred) == if pred(s[i]) {
            s.take(i).filter(pred).push(s[i])
        } else {
            s.take(i).filter(pred)
        },
{
    reveal(Seq::filter);
    assert(s.take(i + 1).drop_last() =~= s.take(i));
    assert(s.take(i + 1).last() == s[i]);
}

/// A filter that rejects every element yields the empty sequence.
pub(crate) proof fn lemma_filter_none<A>(s: Seq<A>, pred: spec_fn(A) -> bool)
    requires
        forall|i: int| 0 <= i < s.len() ==> !pred(#[trigger] s[i]),
    ensures
        s.filter(pred) =~= Seq::<A>::empty(),
    decreases s.len(),
{
    reveal(Seq::filter);
    if s.len() > 0 {
        lemma_filter_none(s.drop_last(), pred);
    }
}

/// A filter that accepts every element yields the sequence itself.
pub(crate) proof fn lemma_filter_all<A>(s: Seq<A>, pred: spec_fn(A) -> bool)
    requires
        forall|i: int| 0 <= i < s.len() ==> pred(#[trigger] s[i]),
    ensures
        s.filter(pred) =~= s,
    decreases s.len(),
{
    reveal(Seq::filter);
    if s.len() > 0 {
        lemma_filter_all(s.drop_last(), pred);
    }
}

/// Every element of a filtered sequence occurs in the original.
pub(crate) proof fn lemma_filter_sub<A>(s: Seq<A>, pred: spec_fn(A) -> bool)
    ensures
        forall|k: int| 0 <= k < s.filter(pred).len() ==> s.contains(#[trigger] s.filter(pred)[k]),
    decreases s.len(),
{
    reveal(Seq::filter);
    if s.len() > 0 {
        lemma_filter_sub(s.drop_last(), pred);
        assert forall|k: int| 0 <= k < s.filter(pred).len() implies s.contains(
            #[trigger] s.filter(pred)[k],
        ) by {
            let f = s.filter(pred);
            let fd = s.drop_last().filter(pred);
            if k < fd.len() {
                let j = choose|j: int| 0 <= j < s.drop_last().len() && s.drop_last()[j] == fd[k];
                assert(s[j] == fd[k]);
            } else {
                assert(f[k] == s.last());
                assert(s[s.len() - 1] == s.last());
            }
        }
    }
}

/// Filtering a duplicate-free sequence yields a duplicate-free sequence.
pub(crate) proof fn lemma_filter_distinct<A>(s: Seq<A>, pred: spec_fn(A) -> bool)
    requires
        forall|i: int, j: int| 0 <= i < j < s.len() ==> s[i] != s[j],
    ensures
        forall|i: int, j: int|
            0 <= i < j < s.filter(pred).len() ==> s.filter(pred)[i] != s.filter(pred)[j],
    decreases s.len(),
{
    reveal(Seq::filter);
    if s.len() > 0 {
        let d = s.drop_last();
        lemma_filter_distinct(d, pred);
        lemma_filter_sub(d, pred);
        let fd = d.filter(pred);
        assert forall|i: int, j: int|
            0 <= i < j < s.filter(pred).len() implies s.filter(pred)[i] != s.filter(pred)[j] by {
            if j == s.filter(pred).len() - 1 && pred(s.last()) {
                // the last filtered element is s.last(); anything before it
                // comes from d and so differs from s.last()
                if fd.contains(fd[i]) {
                    let w = choose|w: int| 0 <= w < d.len() && d[w] == fd[i];
                    assert(s[w] == fd[i]);
                    assert(s[w] != s[s.len() - 1]);
                }
            }
        }
    }
}

// ---------------------------------------------------------------------
// Extrema of a set of notes: earliest onset and latest end.
// ---------------------------------------------------------------------

/// Earliest onset among the notes; 0 for an empty sequence.
pub open spec fn spec_first_onset(s: Seq<Note>) -> int
    decreases s.len(),
{
    if s.len() == 0 {
        0
    } else if s.len() == 1 {
        s[0].onset_b32 as int
    } else {
        let rest = spec_first_onset(s.drop_last());
        if s.last().onset_b32 < rest {
            s.last().onset_b32 as int
        } else {
            rest
        }
    }
}

/// Latest end among the notes; 0 for an empty sequence.
pub open spec fn spec_last_end(s: Seq<Note>) -> int
    decreases s.len(),
{
    if s.len() == 0 {
        0
    } else {
        let rest = spec_last_end(s.drop_last());
        if note_end(s.last()) > rest {
            note_end(s.last())
        } else {
            rest
        }
    }
}

/// The latest end is attained by some note and bounds every note's end.
pub(crate) proof fn lemma_last_end_bounds(s: Seq<Note>)
    requires
        s.len() > 0,
    ensures
        exists|i: int| 0 <= i < s.len() && note_end(s[i]) == spec_last_end(s),
        forall|i: int| 0 <= i < s.len() ==> note_end(#[trigger] s[i]) <= spec_last_end(s),
    decreases s.len(),
{
    assert(forall|i: int| 0 <= i < s.len() - 1 ==> s[i] == #[trigger] s.drop_last()[i]);
    assert(s[s.len() - 1] == s.last());
    if s.len() > 1 {
        lemma_last_end_bounds(s.drop_last());
        let d = s.drop_last();
        let w = choose|i: int| 0 <= i < d.len() && note_end(d[i]) == spec_last_end(d);
        assert(note_end(s[w]) == spec_last_end(d));
        if note_end(s.last()) > spec_last_end(d) {
            assert(note_end(s[s.len() - 1]) == spec_last_end(s));
        } else {
            assert(note_end(s[w]) == spec_last_end(s));
        }
        assert forall|i: int| 0 <= i < s.len() implies note_end(#[trigger] s[i]) <= spec_last_end(
            s,
        ) by {
            if i < s.len() - 1 {
                assert(s[i] == d[i]);
                assert(note_end(d[i]) <= spec_last_end(d));
            }
        }
    } else {
        assert(s.drop_last().len() == 0);
        assert(spec_last_end(s.drop_last()) == 0);
        assert(note_end(s[0]) >= 0);
        assert(note_end(s[0]) == spec_last_end(s));
    }
}

/// The earliest onset is attained by some note and bounds every onset.
pub(crate) proof fn lemma_first_onset_bounds(s: Seq<Note>)
    requires
        s.len() > 0,
    ensures
        exists|i: int| 0 <= i < s.len() && s[i].onset_b32 == spec_first_onset(s),
        forall|i: int| 0 <= i < s.len() ==> (#[trigger] s[i]).onset_b32 >= spec_first_onset(s),
    decreases s.len(),
{
    assert(forall|i: int| 0 <= i < s.len() - 1 ==> s[i] == #[trigger] s.drop_last()[i]);
    assert(s[s.len() - 1] == s.last());
    if s.len() > 1 {
        lemma_first_onset_bounds(s.drop_last());
        let d = s.drop_last();
        let w = choose|i: int| 0 <= i < d.len() && d[i].onset_b32 == spec_first_onset(d);
        assert(s[w].onset_b32 == spec_first_onset(d));
        if s.last().onset_b32 < spec_first_onset(d) {
            assert(s[s.len() - 1].onset_b32 == spec_first_onset(s));
        } else {
            assert(s[w].onset_b32 == spec_first_onset(s));
        }
        assert forall|i: int| 0 <= i < s.len() implies (#[trigger] s[i]).onset_b32
            >= spec_first_onset(s) by {
            if i < s.len() - 1 {
                assert(s[i] == d[i]);
                assert(d[i].onset_b32 >= spec_first_onset(d));
            }
        }
    } else {
        assert(s[0].onset_b32 == spec_first_onset(s));
    }
}

impl Score {
    /// Every stored note is valid and no note occurs twice.
    pub open spec fn wf(&self) -> bool {
        wf_notes(self@)
    }

    /// Tempo in beats per minute.
    pub closed spec fn spec_bpm(&self) -> u16 {
        self.bpm
    }

    /// An empty timeline at the default tempo of 120 beats per minute.
    pub fn new() -> (r: Score)
        ensures
            r@ =~= Seq::<Note>::empty(),
            r.wf(),
            r.spec_bpm() == 120,
    {
        Score { notes: Vec::new(), bpm: 120 }
    }

    pub fn get_bpm(&self) -> (r: u16)
        ensures
            r == self.spec_bpm(),
    {
        self.bpm
    }

    pub fn set_bpm(&mut self, bpm: u16)
        ensures
            final(self)@ == old(self)@,
            final(self).spec_bpm() == bpm,
    {
        self.bpm = bpm;
    }

    /// The stored notes, in storage order.
    pub fn get_notes(&self) -> (r: &Vec<Note>)
        ensures
            r@ == self@,
    {
        &self.notes
    }

    /// All notes with exactly the given onset tick, in storage order.
    pub fn notes_starting_at_time(&self, onset_b32: u64) -> (r: Vec<Note>)
        ensures
            r@ == self@.filter(starts_at_pred(onset_b32)),
    {
        let mut r: Vec<Note> = Vec::new();
        let n = self.notes.len();
        for i in 0..n
            invariant
                n == self@.len(),
                r@ == self@.take(i as int).filter(starts_at_pred(onset_b32)),
        {
            proof {
                lemma_filter_take_step(self@, i as int, starts_at_pred(onset_b32));
            }
            if self.notes[i].onset_b32 == onset_b32 {
                r.push(self.notes[i]);
            }
        }
        proof {
            assert(self@.take(n as int) =~= self@);
        }
        r
    }

    /// Whether some stored note is still sounding at or after the given
    /// tick, i.e. the tick lies strictly before the last note end.
    pub fn time_within_song(&self, time_point_b32: u64) -> (r: bool)
        requires
            self.wf(),
        ensures
            r == exists|i: int| 0 <= i < self@.len() && note_end(self@[i]) > time_point_b32,
    {
        let mut last: u64 = 0;
        let n = self.notes.len();
        for i in 0..n
            invariant
                n == self@.len(),
                self.wf(),
                forall|j: int| 0 <= j < i ==> note_end(#[trigger] self@[j]) <= last,
                last == 0 || exists|j: int| 0 <= j < i && note_end(self@[j]) == last,
        {
            let e = self.notes[i].onset_b32 + self.notes[i].duration_b32;
            if e > last {
                last = e;
                assert(note_end(self@[i as int]) == last);
            }
        }
        last > time_point_b32
    }

    /// Span from the earliest onset to the latest note end; 0 when the
    /// timeline is empty.
    pub fn duration(&self) -> (r: u64)
        requires
            self.wf(),
        ensures
            self@.len() == 0 ==> r == 0,
            self@.len() > 0 ==> r == spec_last_end(self@) - spec_first_onset(self@),
    {
        let n = self.notes.len();
        if n == 0 {
            return 0;
        }
        let mut first: u64 = self.notes[0].onset_b32;
        let mut last: u64 = self.notes[0].onset_b32 + self.notes[0].duration_b32;
        proof {
            let t1 = self@.take(1);
            assert(t1.drop_last() =~= Seq::<Note>::empty());
            assert(t1.last() == self@[0]);
            assert(wf_note(self@[0]));
            assert(spec_last_end(Seq::<Note>::empty()) == 0);
            assert(spec_last_end(t1) == note_end(self@[0]));
            assert(t1.len() == 1);
            assert(spec_first_onset(t1) == self@[0].onset_b32 as int);
        }
        for i in 1..n
            invariant
                n == self@.len(),
                1 <= i <= n,
                self.wf(),
                first == spec_first_onset(self@.take(i as int)),
                last == spec_last_end(self@.take(i as int)),
                first < last,
        {
            proof {
                assert(self@.take(i + 1).drop_last() =~= self@.take(i as int));
                assert(self@.take(i + 1).last() == self@[i as int]);
            }
            if self.notes[i].onset_b32 < first {
                first = self.notes[i].onset_b32;
            }
            let e = self.notes[i].onset_b32 + self.notes[i].duration_b32;
            if e > last {
                last = e;
            }
        }
        proof {
            assert(self@.take(n as int) =~= self@);
        }
        last - first
    }

    /// Exact-value toggle: if a note with exactly this pitch, onset and
    /// duration is stored, remove it; otherwise store it as given,
    /// without merging. The two gestures are deliberately different:
    /// `insert` merges, this does not.
    pub fn insert_or_remove(&mut self, pitch: Pitch, onset_b32: u64, duration_b32: u64)
        requires
            old(self).wf(),
            1 <= duration_b32,
            onset_b32 + duration_b32 <= u64::MAX,
        ensures
            final(self)@ == spec_toggle(old(self)@, pitch, onset_b32, duration_b32),
            final(self).wf(),
            final(self).spec_bpm() == old(self).spec_bpm(),
    {
        let note = Note { pitch, onset_b32, duration_b32 };
        let n = self.notes.len();
        let mut found: Option<usize> = None;
        for i in 0..n
            invariant
                n == self@.len(),
                self.wf(),
                note == (Note { pitch, onset_b32, duration_b32 }),
                match found {
                    Option::None => forall|j: int| 0 <= j < i ==> self@[j] != note,
                    Option::Some(k) => k < i && self@[k as int] == note && forall|j: int|
                        0 <= j < k ==> self@[j] != note,
                },
        {
            if self.notes[i] == note {
                match found {
                    Option::None => {
                        found = Some(i);
                    },
                    Option::Some(_) => {},
                }
            }
        }
        proof {
            old(self)@.index_of_first_ensures(note);
        }
        match found {
            Option::Some(k) => {
                proof {
                    assert(old(self)@.contains(note));
                    let idx = old(self)@.index_of_first(note).unwrap();
                    assert(idx == k as int);
                    old(self)@.remove_ensures(k as int);
                }
                self.notes.remove(k);
                proof {
                    let r = old(self)@.remove(k as int);
                    assert forall|i: int, j: int| 0 <= i < j < r.len() implies r[i] != r[j] by {
                        let oi = if i < k as int {
                            i
                        } else {
                            i + 1
                        };
                        let oj = if j < k as int {
                            j
                        } else {
                            j + 1
                        };
                        assert(r[i] == old(self)@[oi]);
                        assert(r[j] == old(self)@[oj]);
                    }
                    assert forall|i: int| 0 <= i < r.len() implies wf_note(#[trigger] r[i]) by {
                        let oi = if i < k as int {
                            i
                        } else {
                            i + 1
                        };
                        assert(r[i] == old(self)@[oi]);
                    }
                }
            },
            Option::None => {
                proof {
                    assert(forall|j: int| 0 <= j < old(self)@.len() ==> old(self)@[j] != note);
                    assert(!old(self)@.contains(note));
                }
                self.notes.push(note);
            },
        }
    }

    /// Overlap-merge insertion: absorb every stored note of the same
    /// pitch whose tick range intersects the inserted one, and store a
    /// single replacement spanning the earliest onset and latest end of
    /// them all. With no such note, this is a plain insertion.
    pub fn insert(&mut self, pitch: Pitch, onset_b32: u64, duration_b32: u64)
        requires
            old(self).wf(),
            1 <= duration_b32,
            onset_b32 + duration_b32 <= u64::MAX,
        ensures
            final(self)@ == spec_insert(old(self)@, pitch, onset_b32, duration_b32),
            final(self).wf(),
            final(self).spec_bpm() == old(self).spec_bpm(),
    {
        let end_b32 = onset_b32 + duration_b32;
        let ghost start_i = onset_b32 as int;
        let ghost end_i = end_b32 as int;
        let ghost kp = keep_pred(pitch, start_i, end_i);
        let ghost op = overlap_pred(pitch, start_i, end_i);
        let mut kept: Vec<Note> = Vec::new();
        let mut mo: u64 = onset_b32;
        let mut me: u64 = end_b32;
        let n = self.notes.len();
        for i in 0..n
            invariant
                n == self@.len(),
                self.wf(),
                end_i == onset_b32 + duration_b32,
                1 <= duration_b32,
                kp == keep_pred(pitch, start_i, end_i),
                op == overlap_pred(pitch, start_i, end_i),
                start_i == onset_b32 as int,
                kept@ == self@.take(i as int).filter(kp),
                mo as int == merged_onset(self@.take(i as int).filter(op), onset_b32),
                me as int == merged_end(self@.take(i as int).filter(op), end_i),
                mo <= onset_b32,
                end_b32 as int == end_i,
                me >= end_b32,
                forall|k: int| 0 <= k < kept@.len() ==> wf_note(#[trigger] kept@[k]),
        {
            proof {
                lemma_filter_take_step(self@, i as int, kp);
                lemma_filter_take_step(self@, i as int, op);
            }
            let nt = self.notes[i];
            let nt_end = nt.onset_b32 + nt.duration_b32;
            if nt.pitch == pitch && !(nt_end <= onset_b32 || nt.onset_b32 >= end_b32) {
                proof {
                    let ov = self@.take(i as int).filter(op);
                    assert(ov.push(nt).drop_last() =~= ov);
                    assert(ov.push(nt).last() == nt);
                    if ov.len() == 0 {
                        assert(ov.push(nt).len() == 1);
                        assert(spec_first_onset(ov.push(nt)) == nt.onset_b32 as int);
                        assert(spec_last_end(Seq::<Note>::empty()) == 0);
                        assert(ov =~= Seq::<Note>::empty());
                        assert(spec_last_end(ov.push(nt)) == note_end(nt));
                    }
                }
                if nt.onset_b32 < mo {
                    mo = nt.onset_b32;
                }
                if nt_end > me {
                    me = nt_end;
                }
            } else {
                kept.push(nt);
            }
        }
        proof {
            assert(self@.take(n as int) =~= self@);
            lemma_filter_distinct(self@, kp);
            lemma_filter_sub(self@, kp);
        }
        let merged = Note { pitch, onset_b32: mo, duration_b32: me - mo };
        kept.push(merged);
        self.notes = kept;
        proof {
            let s = old(self)@;
            let fin = self@;
            assert(fin == spec_insert(s, pitch, onset_b32, duration_b32));
            // the merged note overlaps the inserted range, so it cannot
            // equal any kept note, which by construction does not
            assert(overlaps_range(merged, start_i, end_i));
            let keptseq = s.filter(kp);
            assert forall|i: int, j: int| 0 <= i < j < fin.len() implies fin[i] != fin[j] by {
                if j == fin.len() - 1 {
                    assert(kp(keptseq[i]));
                }
            }
        }
    }

    /// Remove every note whose onset lies in the selection's half-open
    /// tick range and whose pitch lies in its inclusive pitch range.
    /// Notes merely sounding into the range keep their place. Reports
    /// `InvalidRange` for tick bounds with start at or past end, and
    /// `NotFound` when no note matches; on any error the timeline is
    /// unchanged.
    pub fn delete_in_selection(&mut self, selection_range: SelectionRange) -> (r: Result<
        (),
        ScoreError,
    >)
        requires
            old(self).wf(),
        ensures
            final(self).wf(),
            final(self).spec_bpm() == old(self).spec_bpm(),
            selection_range.time_point_start_b32 >= selection_range.time_point_end_b32 ==> r
                == Err::<(), ScoreError>(ScoreError::InvalidRange) && final(self)@ == old(self)@,
            selection_range.time_point_start_b32 < selection_range.time_point_end_b32 ==> (if (
            forall|i: int|
                0 <= i < old(self)@.len() ==> !in_selection(
                    #[trigger] old(self)@[i],
                    selection_range,
                )) {
                r == Err::<(), ScoreError>(ScoreError::NotFound) && final(self)@ == old(self)@
            } else {
                r == Ok::<(), ScoreError>(()) && final(self)@ == old(self)@.filter(
                    keep_outside_pred(selection_range),
                )
            }),
    {
        if selection_range.time_point_start_b32 >= selection_range.time_point_end_b32 {
            return Err(ScoreError::InvalidRange);
        }
        let ghost kp = keep_outside_pred(selection_range);
        let mut kept: Vec<Note> = Vec::new();
        let mut removed_any: bool = false;
        let n = self.notes.len();
        for i in 0..n
            invariant
                n == self@.len(),
                self.wf(),
                kp == keep_outside_pred(selection_range),
                kept@ == self@.take(i as int).filter(kp),
                removed_any == exists|j: int|
                    0 <= j < i && in_selection(#[trigger] self@[j], selection_range),
        {
            proof {
                lemma_filter_take_step(self@, i as int, kp);
            }
            let nt = self.notes[i];
            let sel_low = selection_range.pitch_low.semitone();
            let sel_high = selection_range.pitch_high.semitone();
            let in_sel = nt.onset_b32 >= selection_range.time_point_start_b32 && nt.onset_b32
                < selection_range.time_point_end_b32 && nt.pitch.semitone() >= sel_low
                && nt.pitch.semitone() <= sel_high;
            assert(in_sel == in_selection(self@[i as int], selection_range));
            if in_sel {
                removed_any = true;
            } else {
                kept.push(nt);
            }
        }
        proof {
            assert(self@.take(n as int) =~= self@);
            lemma_filter_distinct(self@, kp);
            lemma_filter_sub(self@, kp);
        }
        if !removed_any {
            proof {
                lemma_filter_all(self@, kp);
            }
            return Err(ScoreError::NotFound);
        }
        self.notes = kept;
        proof {
            let s = old(self)@;
            let fin = self@;
            assert forall|i: int| 0 <= i < fin.len() implies wf_note(#[trigger] fin[i]) by {
                assert(s.contains(fin[i]));
                let w = choose|w: int| 0 <= w < s.len() && s[w] == fin[i];
                assert(wf_note(s[w]));
            }
        }
        Ok(())
    }

    /// A new timeline holding only the selected notes, re-inserted with
    /// overlap-merge, so overlaps among the copies merge again.
    pub fn clone_at_selection(&self, selection_range: SelectionRange) -> (r: Score)
        requires
            self.wf(),
        ensures
            r@ == spec_insert_all(
                Seq::<Note>::empty(),
                self@.filter(select_pred(selection_range)),
            ),
            r.wf(),
            r.spec_bpm() == 120,
    {
        let ghost sp = select_pred(selection_range);
        let mut selected: Vec<Note> = Vec::new();
        let n = self.notes.len();
        for i in 0..n
            invariant
                n == self@.len(),
                self.wf(),
                sp == select_pred(selection_range),
                selected@ == self@.take(i as int).filter(sp),
                forall|k: int| 0 <= k < selected@.len() ==> wf_note(#[trigger] selected@[k]),
        {
            proof {
                lemma_filter_take_step(self@, i as int, sp);
            }
            let nt = self.notes[i];
            let sel_low = selection_range.pitch_low.semitone();
            let sel_high = selection_range.pitch_high.semitone();
            if nt.onset_b32 >= selection_range.time_point_start_b32 && nt.onset_b32
                < selection_range.time_point_end_b32 && nt.pitch.semitone() >= sel_low
                && nt.pitch.semitone() <= sel_high {
                selected.push(nt);
            }
        }
        proof {
            assert(self@.take(n as int) =~= self@);
        }
        let mut acc = Score::new();
        let m = selected.len();
        proof {
            assert(selected@.skip(0) =~= selected@);
        }
        for i in 0..m
            invariant
                m == selected@.len(),
                acc.wf(),
                acc.spec_bpm() == 120,
                forall|k: int| 0 <= k < selected@.len() ==> wf_note(#[trigger] selected@[k]),
                spec_insert_all(acc@, selected@.skip(i as int)) == spec_insert_all(
                    Seq::<Note>::empty(),
                    selected@,
                ),
        {
            proof {
                let rem = selected@.skip(i as int);
                assert(rem[0] == selected@[i as int]);
                assert(rem.drop_first() =~= selected@.skip(i + 1));
            }
            let nt = selected[i];
            acc.insert(nt.pitch, nt.onset_b32, nt.duration_b32);
        }
        proof {
            assert(selected@.skip(m as int) =~= Seq::<Note>::empty());
        }
        acc
    }

    /// A copy of this timeline with the other timeline's notes laid on
    /// top of it by overlap-merge insertion, so same-pitch overlaps
    /// across the two sources merge.
    pub fn merge_down(&self, other: &Score) -> (r: Score)
        requires
            self.wf(),
            other.wf(),
        ensures
            r@ == spec_insert_all(self@, other@),
            r.wf(),
            r.spec_bpm() == self.spec_bpm(),
    {
        let mut acc = self.clone();
        let m = other.notes.len();
        proof {
            assert(other@.skip(0) =~= other@);
        }
        for i in 0..m
            invariant
                m == other@.len(),
                other.wf(),
                acc.wf(),
                acc.spec_bpm() == self.spec_bpm(),
                spec_insert_all(acc@, other@.skip(i as int)) == spec_insert_all(self@, other@),
        {
            proof {
                let rem = other@.skip(i as int);
                assert(rem[0] == other@[i as int]);
                assert(rem.drop_first() =~= other@.skip(i + 1));
            }
            let nt = other.notes[i];
            acc.insert(nt.pitch, nt.onset_b32, nt.duration_b32);
        }
        proof {
            assert(other@.skip(m as int) =~= Seq::<Note>::empty());
        }
        acc
    }

    /// Earliest onset among the stored notes.
    fn min_onset(&self) -> (r: u64)
        requires
            self.wf(),
            self@.len() > 0,
        ensures
            r as int == spec_first_onset(self@),
    {
        let n = self.notes.len();
        let mut first: u64 = self.notes[0].onset_b32;
        proof {
            let t1 = self@.take(1);
            assert(t1.len() == 1);
            assert(t1[0] == self@[0]);
            assert(spec_first_onset(t1) == self@[0].onset_b32 as int);
        }
        for i in 1..n
            invariant
                n == self@.len(),
                1 <= i <= n,
                first == spec_first_onset(self@.take(i as int)),
        {
            proof {
                assert(self@.take(i + 1).drop_last() =~= self@.take(i as int));
                assert(self@.take(i + 1).last() == self@[i as int]);
            }
            if self.notes[i].onset_b32 < first {
                first = self.notes[i].onset_b32;
            }
        }
        proof {
            assert(self@.take(n as int) =~= self@);
        }
        first
    }

    /// A copy whose notes are shifted so that the earliest onset lands
    /// on the given start tick, preserving relative spacing. With no
    /// start tick, or an empty timeline, an unchanged copy.
    pub fn translate(&self, time_point_start_b32: Option<u64>) -> (r: Score)
        requires
            self.wf(),
            (match time_point_start_b32 {
                Option::Some(ns) => self@.len() > 0 && ns > spec_first_onset(self@)
                    ==> spec_last_end(self@) + ns - spec_first_onset(self@) <= u64::MAX,
                Option::None => true,
            }),
        ensures
            r.wf(),
            time_point_start_b32 is None ==> r@ == self@ && r.spec_bpm() == self.spec_bpm(),
            (match time_point_start_b32 {
                Option::Some(ns) => if self@.len() == 0 {
                    r@ == self@ && r.spec_bpm() == self.spec_bpm()
                } else {
                    r@.len() == self@.len() && r.spec_bpm() == 120 && forall|i: int|
                        0 <= i < self@.len() ==> #[trigger] r@[i] == shifted_note(
                            self@[i],
                            ns - spec_first_onset(self@),
                        )
                },
                Option::None => true,
            }),
    {
        match time_point_start_b32 {
            Option::None => self.clone(),
            Option::Some(new_start) => {
                if self.notes.len() == 0 {
                    return self.clone();
                }
                let first = self.min_onset();
                proof {
                    lemma_first_onset_bounds(self@);
                    lemma_last_end_bounds(self@);
                }
                let ghost delta = new_start - spec_first_onset(self@);
                let mut shifted: Vec<Note> = Vec::new();
                let n = self.notes.len();
                for i in 0..n
                    invariant
                        n == self@.len(),
                        n > 0,
                        self.wf(),
                        first as int == spec_first_onset(self@),
                        delta == new_start - first,
                        new_start > first ==> spec_last_end(self@) + delta <= u64::MAX,
                        forall|j: int|
                            0 <= j < self@.len() ==> (#[trigger] self@[j]).onset_b32 >= first
                                && note_end(self@[j]) <= spec_last_end(self@),
                        shifted@.len() == i,
                        forall|j: int|
                            0 <= j < i ==> #[trigger] shifted@[j] == shifted_note(self@[j], delta),
                {
                    let nt = self.notes[i];
                    let new_onset = if first > new_start {
                        nt.onset_b32 - (first - new_start)
                    } else {
                        nt.onset_b32 + (new_start - first)
                    };
                    assert(new_onset as int == nt.onset_b32 + delta);
                    shifted.push(
                        Note { pitch: nt.pitch, onset_b32: new_onset, duration_b32: nt.duration_b32 },
                    );
                }
                let r = Score { notes: shifted, bpm: 120 };
                proof {
                    assert forall|i: int, j: int| 0 <= i < j < r@.len() implies r@[i] != r@[j] by {
                        assert(r@[i] == shifted_note(self@[i], delta));
                        assert(r@[j] == shifted_note(self@[j], delta));
                        assert(self@[i] != self@[j]);
                    }
                    assert forall|i: int| 0 <= i < r@.len() implies wf_note(#[trigger] r@[i]) by {
                        assert(r@[i] == shifted_note(self@[i], delta));
                        assert(wf_note(self@[i]));
                    }
                }
                r
            },
        }
    }

    /// Every note sounding at the given tick, tagged `Onset` on its
    /// first tick, `Release` on its last, and `Sustain` in between.
    pub fn notes_active_at_time(&self, time_point_b32: u64) -> (r: Vec<ActiveNote>)
        requires
            self.wf(),
        ensures
            r@ == spec_active_at(self@, time_point_b32 as int),
    {
        let mut r: Vec<ActiveNote> = Vec::new();
        let n = self.notes.len();
        for i in 0..n
            invariant
                n == self@.len(),
                self.wf(),
                r@ == spec_active_at(self@.take(i as int), time_point_b32 as int),
        {
            proof {
                assert(self@.take(i + 1).drop_last() =~= self@.take(i as int));
                assert(self@.take(i + 1).last() == self@[i as int]);
            }
            let nt = self.notes[i];
            if nt.onset_b32 <= time_point_b32 && time_point_b32 < nt.onset_b32 + nt.duration_b32 {
                let state = if time_point_b32 == nt.onset_b32 {
                    NoteState::Onset
                } else if time_point_b32 == nt.onset_b32 + nt.duration_b32 - 1 {
                    NoteState::Release
                } else {
                    NoteState::Sustain
                };
                r.push(ActiveNote { note: nt, state });
            }
        }
        proof {
            assert(self@.take(n as int) =~= self@);
        }
        r
    }
}

/// Notes with the given onset and pitch: what a point query returns,
/// restricted to one pitch.
pub open spec fn starts_with_pitch_pred(p: Pitch, onset: u64) -> spec_fn(Note) -> bool {
    |n: Note| n.onset_b32 == onset && n.pitch == p
}

/// Law: inserting an interval that overlaps no stored note of its pitch
/// leaves, at the inserted onset, exactly one note of that pitch, and
/// it carries exactly the inserted bounds.
pub proof fn lemma_insert_fresh(s: Seq<Note>, p: Pitch, onset: u64, dur: u64)
    requires
        wf_notes(s),
        1 <= dur,
        onset + dur <= u64::MAX,
        forall|i: int|
            0 <= i < s.len() ==> !(overlap_pred(p, onset as int, onset + dur)(#[trigger] s[i])),
    ensures
        spec_insert(s, p, onset, dur).filter(starts_with_pitch_pred(p, onset)) =~= seq![
            Note { pitch: p, onset_b32: onset, duration_b32: dur },
        ],
{
    let end = onset + dur;
    let op = overlap_pred(p, onset as int, end);
    let kp = keep_pred(p, onset as int, end);
    let qp = starts_with_pitch_pred(p, onset);
    let note = Note { pitch: p, onset_b32: onset, duration_b32: dur };
    lemma_filter_none(s, op);
    assert forall|i: int| 0 <= i < s.len() implies kp(#[trigger] s[i]) by {
        assert(!op(s[i]));
    }
    lemma_filter_all(s, kp);
    let out = spec_insert(s, p, onset, dur);
    assert(out =~= s.push(note));
    assert forall|i: int| 0 <= i < s.len() implies !qp(#[trigger] s[i]) by {
        if qp(s[i]) {
            assert(wf_note(s[i]));
            assert(op(s[i]));
        }
    }
    lemma_filter_none(s, qp);
    reveal(Seq::filter);
    assert(s.push(note).drop_last() =~= s);
    assert(s.push(note).last() == note);
    assert(qp(note));
    assert(out.filter(qp) =~= Seq::<Note>::empty().push(note));
}

/// Law: inserting two same-pitch intervals whose tick ranges overlap,
/// into a timeline holding no other note of that pitch near either
/// range, yields that timeline plus a single note spanning from the
/// earlier onset to the later end.
pub proof fn lemma_insert_merges(s: Seq<Note>, p: Pitch, o1: u64, d1: u64, o2: u64, d2: u64)
    requires
        wf_notes(s),
        1 <= d1,
        o1 + d1 <= u64::MAX,
        1 <= d2,
        o2 + d2 <= u64::MAX,
        !(o1 + d1 <= o2 || o1 >= o2 + d2),
        forall|i: int| 0 <= i < s.len() ==> !(overlap_pred(p, o1 as int, o1 + d1)(#[trigger] s[i])),
        forall|i: int| 0 <= i < s.len() ==> !(overlap_pred(p, o2 as int, o2 + d2)(#[trigger] s[i])),
    ensures
        ({
            let mo: u64 = if o1 <= o2 {
                o1
            } else {
                o2
            };
            let me: int = if o1 + d1 >= o2 + d2 {
                o1 + d1
            } else {
                o2 + d2
            };
            spec_insert(spec_insert(s, p, o1, d1), p, o2, d2) =~= s.push(
                Note { pitch: p, onset_b32: mo, duration_b32: (me - mo) as u64 },
            )
        }),
{
    let e1 = o1 + d1;
    let e2 = o2 + d2;
    let n1 = Note { pitch: p, onset_b32: o1, duration_b32: d1 };
    // the first insertion absorbs nothing
    let op1 = overlap_pred(p, o1 as int, e1);
    let kp1 = keep_pred(p, o1 as int, e1);
    lemma_filter_none(s, op1);
    assert forall|i: int| 0 <= i < s.len() implies kp1(#[trigger] s[i]) by {
        assert(!op1(s[i]));
    }
    lemma_filter_all(s, kp1);
    let s1 = spec_insert(s, p, o1, d1);
    assert(s1 =~= s.push(n1));
    // the second insertion absorbs exactly the first note
    let op2 = overlap_pred(p, o2 as int, e2);
    let kp2 = keep_pred(p, o2 as int, e2);
    lemma_filter_none(s, op2);
    assert forall|i: int| 0 <= i < s.len() implies kp2(#[trigger] s[i]) by {
        assert(!op2(s[i]));
    }
    lemma_filter_all(s, kp2);
    reveal(Seq::filter);
    assert(s1.drop_last() =~= s);
    assert(s1.last() == n1);
    assert(op2(n1));
    assert(!kp2(n1));
    let ov2 = s1.filter(op2);
    assert(ov2 =~= Seq::<Note>::empty().push(n1));
    assert(s1.filter(kp2) =~= s);
    assert(ov2.len() == 1);
    assert(ov2[0] == n1);
    assert(spec_first_onset(ov2) == o1 as int);
    assert(ov2.drop_last() =~= Seq::<Note>::empty());
    assert(spec_last_end(Seq::<Note>::empty()) == 0);
    assert(spec_last_end(ov2) == note_end(n1));
    assert(merged_onset(ov2, o2) == if o1 <= o2 {
        o1 as int
    } else {
        o2 as int
    });
    assert(merged_end(ov2, e2 as int) == if o1 + d1 >= o2 + d2 {
        e1 as int
    } else {
        e2 as int
    });
}

/// The two notes' tick ranges intersect.
pub open spec fn notes_overlap(a: Note, b: Note) -> bool {
    overlaps_range(a, b.onset_b32 as int, note_end(b))
}

/// No two stored notes of one pitch have intersecting tick ranges: the
/// timeline invariant that overlap-merge insertion maintains.
pub open spec fn no_pitch_overlap(s: Seq<Note>) -> bool {
    forall|i: int, j: int|
        0 <= i < s.len() && 0 <= j < s.len() && i != j && s[i].pitch == s[j].pitch
            ==> !notes_overlap(#[trigger] s[i], #[trigger] s[j])
}

/// Law: overlap-merge insertion preserves the timeline invariant. On a
/// timeline where no pitch has two intersecting note ranges, `insert`
/// leaves no pitch with two intersecting note ranges.
pub proof fn lemma_insert_preserves_no_overlap(s: Seq<Note>, p: Pitch, onset: u64, dur: u64)
    requires
        wf_notes(s),
        no_pitch_overlap(s),
        1 <= dur,
        onset + dur <= u64::MAX,
    ensures
        no_pitch_overlap(spec_insert(s, p, onset, dur)),
{
    broadcast use vstd::seq_lib::group_filter_ensures;

    let end = onset + dur;
    let op = overlap_pred(p, onset as int, end);
    let kp = keep_pred(p, onset as int, end);
    let kept = s.filter(kp);
    let ov = s.filter(op);
    let mo = merged_onset(ov, onset);
    let me = merged_end(ov, end);
    lemma_filter_sub(s, kp);
    lemma_filter_sub(s, op);
    lemma_filter_distinct(s, kp);
    if ov.len() > 0 {
        lemma_first_onset_bounds(ov);
        lemma_last_end_bounds(ov);
        let wa = choose|w: int| 0 <= w < ov.len() && ov[w].onset_b32 == spec_first_onset(ov);
        let wb = choose|w: int| 0 <= w < ov.len() && note_end(ov[w]) == spec_last_end(ov);
        assert(s.contains(ov[wb]));
        let ws = choose|w: int| 0 <= w < s.len() && s[w] == ov[wb];
        assert(wf_note(s[ws]));
        assert(0 <= spec_first_onset(ov));
        assert(spec_last_end(ov) <= u64::MAX);
    }
    assert(0 <= mo <= onset);
    assert(end <= me <= u64::MAX);
    let merged = Note { pitch: p, onset_b32: mo as u64, duration_b32: (me - mo) as u64 };
    let out = spec_insert(s, p, onset, dur);
    assert(out == kept.push(merged));
    assert(merged.onset_b32 as int == mo);
    assert(note_end(merged) == me);
    assert forall|i: int, j: int|
        0 <= i < out.len() && 0 <= j < out.len() && i != j && out[i].pitch == out[j].pitch implies
        !notes_overlap(out[i], out[j]) by {
        if i < kept.len() && j < kept.len() {
            // two untouched notes: both stand in the original timeline
            // at distinct places, so the invariant there answers
            let a = kept[i];
            let b = kept[j];
            assert(s.contains(a));
            assert(s.contains(b));
            let wi = choose|w: int| 0 <= w < s.len() && s[w] == a;
            let wj = choose|w: int| 0 <= w < s.len() && s[w] == b;
            assert(a != b);
            assert(wi != wj);
            assert(!notes_overlap(s[wi], s[wj]));
        } else {
            // one of the pair is the merged note; name the other `e`
            let e = if i < kept.len() {
                kept[i]
            } else {
                kept[j]
            };
            assert(kp(e));
            assert(e.pitch == p);
            assert(!overlaps_range(e, onset as int, end as int));
            assert(s.contains(e));
            let we = choose|w: int| 0 <= w < s.len() && s[w] == e;
            if notes_overlap(e, merged) || notes_overlap(merged, e) {
                // `e` misses the inserted range, so it could only meet
                // the merged note on a flank the absorbed notes span;
                // the extreme absorbed note then meets `e` in `s`
                if note_end(e) <= onset {
                    // left flank: some absorbed note starts at `mo`
                    // and reaches past `onset`
                    assert(note_end(e) > mo);
                    assert(ov.len() > 0);
                    lemma_first_onset_bounds(ov);
                    let wa = choose|w: int| 0 <= w < ov.len() && ov[w].onset_b32 == spec_first_onset(ov);
                    let a = ov[wa];
                    assert(op(a));
                    assert(a.onset_b32 == mo);
                    assert(note_end(a) > onset);
                    assert(s.contains(a));
                    let ws = choose|w: int| 0 <= w < s.len() && s[w] == a;
                    assert(a != e);
                    assert(ws != we);
                    assert(!notes_overlap(s[ws], s[we]));
                    assert(notes_overlap(a, e));
                } else {
                    // right flank: some absorbed note ends at `me` and
                    // starts before `end`
                    assert(e.onset_b32 >= end);
                    assert(e.onset_b32 < me);
                    assert(ov.len() > 0);
                    lemma_last_end_bounds(ov);
                    let wb = choose|w: int| 0 <= w < ov.len() && note_end(ov[w]) == spec_last_end(ov);
                    let b = ov[wb];
                    assert(op(b));
                    assert(note_end(b) == me);
                    assert(b.onset_b32 < end);
                    assert(s.contains(b));
                    let ws = choose|w: int| 0 <= w < s.len() && s[w] == b;
                    assert(b != e);
                    assert(ws != we);
                    assert(!notes_overlap(s[ws], s[we]));
                    assert(notes_overlap(b, e));
                }
            }
        }
    }
}

/// Overlap-merge insertion yields valid, duplicate-free notes again.
pub proof fn lemma_insert_preserves_wf(s: Seq<Note>, p: Pitch, onset: u64, dur: u64)
    requires
        wf_notes(s),
        1 <= dur,
        onset + dur <= u64::MAX,
    ensures
        wf_notes(spec_insert(s, p, onset, dur)),
{
    broadcast use vstd::seq_lib::group_filter_ensures;

    let end = onset + dur;
    let op = overlap_pred(p, onset as int, end);
    let kp = keep_pred(p, onset as int, end);
    let kept = s.filter(kp);
    let ov = s.filter(op);
    let mo = merged_onset(ov, onset);
    let me = merged_end(ov, end);
    lemma_filter_sub(s, kp);
    lemma_filter_sub(s, op);
    lemma_filter_distinct(s, kp);
    if ov.len() > 0 {
        lemma_first_onset_bounds(ov);
        lemma_last_end_bounds(ov);
        let wb = choose|w: int| 0 <= w < ov.len() && note_end(ov[w]) == spec_last_end(ov);
        assert(s.contains(ov[wb]));
        let ws = choose|w: int| 0 <= w < s.len() && s[w] == ov[wb];
        assert(wf_note(s[ws]));
        assert(0 <= spec_first_onset(ov));
        assert(spec_last_end(ov) <= u64::MAX);
    }
    assert(0 <= mo <= onset);
    assert(end <= me <= u64::MAX);
    let merged = Note { pitch: p, onset_b32: mo as u64, duration_b32: (me - mo) as u64 };
    let out = spec_insert(s, p, onset, dur);
    assert(out == kept.push(merged));
    assert(wf_note(merged));
    assert(overlaps_range(merged, onset as int, end as int));
    assert forall|i: int| 0 <= i < out.len() implies wf_note(#[trigger] out[i]) by {
        if i < kept.len() {
            assert(s.contains(kept[i]));
            let w = choose|w: int| 0 <= w < s.len() && s[w] == kept[i];
            assert(wf_note(s[w]));
        }
    }
    assert forall|i: int, j: int| 0 <= i < j < out.len() implies out[i] != out[j] by {
        if j == out.len() - 1 {
            assert(kp(kept[i]));
        }
    }
}

/// Law: laying a whole sequence of notes onto a timeline by
/// overlap-merge insertion, as selection cloning and timeline merging
/// do, keeps the timeline invariant: no pitch ends up with two
/// intersecting note ranges.
pub proof fn lemma_insert_all_no_overlap(base: Seq<Note>, add: Seq<Note>)
    requires
        wf_notes(base),
        no_pitch_overlap(base),
        forall|i: int| 0 <= i < add.len() ==> wf_note(#[trigger] add[i]),
    ensures
        wf_notes(spec_insert_all(base, add)),
        no_pitch_overlap(spec_insert_all(base, add)),
    decreases add.len(),
{
    if add.len() > 0 {
        let n = add[0];
        let base1 = spec_insert(base, n.pitch, n.onset_b32, n.duration_b32);
        lemma_insert_preserves_wf(base, n.pitch, n.onset_b32, n.duration_b32);
        lemma_insert_preserves_no_overlap(base, n.pitch, n.onset_b32, n.duration_b32);
        assert(forall|i: int|
            0 <= i < add.drop_first().len() ==> wf_note(#[trigger] add.drop_first()[i]));
        lemma_insert_all_no_overlap(base1, add.drop_first());
    }
}

/// Law: toggling the same pitch, onset and duration twice in a row
/// returns the timeline to its prior set of notes.
pub proof fn lemma_toggle_twice(s: Seq<Note>, p: Pitch, onset: u64, dur: u64)
    requires
        wf_notes(s),
    ensures
        spec_toggle(spec_toggle(s, p, onset, dur), p, onset, dur).to_multiset()
            =~= s.to_multiset(),
{
    broadcast use vstd::seq_lib::group_to_multiset_ensures;
    broadcast use vstd::multiset::group_multiset_axioms;

    let n = Note { pitch: p, onset_b32: onset, duration_b32: dur };
    s.index_of_first_ensures(n);
    if s.contains(n) {
        let i = s.index_of_first(n).unwrap();
        let s1 = s.remove(i);
        s.remove_ensures(i);
        assert forall|j: int| 0 <= j < s1.len() implies s1[j] != n by {
            if j < i {
                assert(s1[j] == s[j]);
            } else {
                assert(s1[j] == s[j + 1]);
            }
        }
        assert(!s1.contains(n));
        s1.index_of_first_ensures(n);
        let s2 = spec_toggle(s1, p, onset, dur);
        assert(s2 == s1.push(n));
        assert(s1.to_multiset() =~= s.to_multiset().remove(n));
        assert(s2.to_multiset() =~= s.to_multiset().remove(n).insert(n));
        assert(s.to_multiset().count(n) > 0);
    } else {
        let s1 = s.push(n);
        assert(s1.to_multiset() =~= s.to_multiset().insert(n));
        assert(s1.contains(n)) by {
            assert(s1[s.len() as int] == n);
        }
        s1.index_of_first_ensures(n);
        let k = s1.index_of_first(n).unwrap();
        assert forall|j: int| 0 <= j < s.len() implies s1[j] != n by {
            assert(s1[j] == s[j]);
        }
        assert(k == s.len());
        let s2 = s1.remove(k);
        assert(s2 =~= s);
    }
}

impl Clone for Score {
    /// A copy holding the same notes and tempo.
    fn clone(&self) -> (r: Score)
        ensures
            r@ == self@,
            r.spec_bpm() == self.spec_bpm(),
    {
        let mut notes: Vec<Note> = Vec::new();
        let n = self.notes.len();
        for i in 0..n
            invariant
                n == self@.len(),
                notes@ == self@.take(i as int),
        {
            notes.push(self.notes[i]);
            assert(self@.take(i + 1) =~= self@.take(i as int).push(self@[i as int]));
        }
        proof {
            assert(self@.take(n as int) =~= self@);
        }
        Score { notes, bpm: self.bpm }
    }
}

} // verus!
