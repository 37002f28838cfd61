use dawww::pitch::{Pitch, Tone};
use dawww::score::{NoteState, Score, ScoreError, SelectionRange};

fn create_test_score() -> Score {
    let mut score = Score::new();
    // Add some test notes
    score.insert(Pitch::new(Tone::C, 4), 0, 32); // C4 (MIDI 60)
    score.insert(Pitch::new(Tone::E, 4), 32, 32); // E4 (MIDI 64)
    score.insert(Pitch::new(Tone::G, 4), 64, 32); // G4 (MIDI 67)
    score
}

#[test]
fn test_notes_starting_at_time() {
    let score = create_test_score();

    let notes = score.notes_starting_at_time(0);
    assert_eq!(notes.len(), 1);
    assert_eq!(notes[0].pitch, Pitch::new(Tone::C, 4));

    let empty_notes = score.notes_starting_at_time(16);
    assert!(empty_notes.is_empty());
}

#[test]
fn test_time_within_song() {
    let score = create_test_score();

    assert!(score.time_within_song(0));
    assert!(score.time_within_song(64));
    assert!(score.time_within_song(95));
    assert!(!score.time_within_song(96)); // Last note ends at 96
    assert!(!score.time_within_song(128));
}

#[test]
fn test_insert_or_remove() {
    let mut score = Score::new();

    // Test insertion
    score.insert_or_remove(Pitch::new(Tone::C, 4), 0, 32);
    assert_eq!(score.notes_starting_at_time(0).len(), 1);

    // Test removal
    score.insert_or_remove(Pitch::new(Tone::C, 4), 0, 32);
    assert_eq!(score.notes_starting_at_time(0).len(), 0);
}

#[test]
fn test_clone_at_selection() {
    let score = create_test_score();

    let selection_range = SelectionRange {
        time_point_start_b32: 0,
        time_point_end_b32: 64,
        pitch_low: Pitch::new(Tone::C, 4),
        pitch_high: Pitch::new(Tone::E, 4),
    };

    let selected = score.clone_at_selection(selection_range);

    assert_eq!(selected.notes_starting_at_time(0).len(), 1);
    assert_eq!(selected.notes_starting_at_time(32).len(), 1);
    assert_eq!(selected.notes_starting_at_time(64).len(), 0); // G4 is outside pitch range
}

#[test]
fn test_translate() {
    let score = create_test_score();

    // Test translation to later time
    let translated = score.translate(Some(32));
    assert!(translated.notes_starting_at_time(0).is_empty());
    assert_eq!(
        translated.notes_starting_at_time(32)[0].pitch,
        Pitch::new(Tone::C, 4)
    );

    // Test translation with None
    let no_translation = score.translate(None);
    assert_eq!(no_translation.notes_starting_at_time(0).len(), 1);
}

#[test]
fn test_insert() {
    let mut score = Score::new();

    // Test basic insertion
    score.insert(Pitch::new(Tone::C, 4), 0, 32);
    assert_eq!(score.notes_starting_at_time(0).len(), 1);

    // Test overlapping notes merge
    score.insert(Pitch::new(Tone::C, 4), 16, 32);
    let notes = score.notes_starting_at_time(0);
    assert_eq!(notes.len(), 1);
    assert_eq!(notes[0].duration_b32, 48); // Notes should merge
}

#[test]
fn test_merge_down() {
    let mut score1 = Score::new();
    score1.insert(Pitch::new(Tone::C, 4), 0, 32);

    let mut score2 = Score::new();
    score2.insert(Pitch::new(Tone::E, 4), 0, 32);

    let merged = score1.merge_down(&score2);
    assert_eq!(merged.notes_starting_at_time(0).len(), 2);
}

#[test]
fn test_duration() {
    let empty_score = Score::new();
    assert_eq!(empty_score.duration(), 0);

    let score = create_test_score();
    assert_eq!(score.duration(), 96); // From start of first note to end of last note
}

#[test]
fn test_note_states() {
    let mut score = Score::new();

    // Add a note from time 0 to 32
    score.insert(Pitch::new(Tone::C, 4), 0, 32);

    // Test onset
    let notes_at_0 = score.notes_active_at_time(0);
    assert_eq!(notes_at_0.len(), 1);
    assert_eq!(notes_at_0[0].state, NoteState::Onset);
    assert_eq!(notes_at_0[0].note.pitch, Pitch::new(Tone::C, 4));

    // Test sustain
    let notes_at_16 = score.notes_active_at_time(16);
    assert_eq!(notes_at_16.len(), 1);
    assert_eq!(notes_at_16[0].state, NoteState::Sustain);
    assert_eq!(notes_at_16[0].note.pitch, Pitch::new(Tone::C, 4));

    // Test release on the note's last occupied tick
    let notes_at_31 = score.notes_active_at_time(31);
    assert_eq!(notes_at_31.len(), 1);
    assert_eq!(notes_at_31[0].state, NoteState::Release);
    assert_eq!(notes_at_31[0].note.pitch, Pitch::new(Tone::C, 4));

    // Test no notes active once the note has ended
    let notes_at_32 = score.notes_active_at_time(32);
    assert_eq!(notes_at_32.len(), 0);

    let notes_at_33 = score.notes_active_at_time(33);
    assert_eq!(notes_at_33.len(), 0);
}

#[test]
fn test_overlapping_notes() {
    let mut score = Score::new();

    // Add two overlapping notes of the same pitch
    score.insert(Pitch::new(Tone::C, 4), 0, 32);
    score.insert(Pitch::new(Tone::C, 4), 16, 32);

    // Should be merged into one longer note
    let notes_at_0 = score.notes_active_at_time(0);
    assert_eq!(notes_at_0.len(), 1);
    assert_eq!(notes_at_0[0].state, NoteState::Onset);

    // The merged note occupies ticks 0 through 47
    let notes_at_47 = score.notes_active_at_time(47);
    assert_eq!(notes_at_47.len(), 1);
    assert_eq!(notes_at_47[0].state, NoteState::Release);

    let notes_at_48 = score.notes_active_at_time(48);
    assert_eq!(notes_at_48.len(), 0);

    // Test that the note persists through the middle
    let notes_at_24 = score.notes_active_at_time(24);
    assert_eq!(notes_at_24.len(), 1);
    assert_eq!(notes_at_24[0].state, NoteState::Sustain);
}

#[test]
fn test_remove_note() {
    let mut score = Score::new();

    // Add and then remove a note
    score.insert_or_remove(Pitch::new(Tone::C, 4), 0, 32);

    // Verify note exists
    assert_eq!(score.notes_active_at_time(16).len(), 1);

    // Remove the note
    score.insert_or_remove(Pitch::new(Tone::C, 4), 0, 32);

    // Verify note is gone from all time points
    assert_eq!(score.notes_active_at_time(0).len(), 0);
    assert_eq!(score.notes_active_at_time(16).len(), 0);
    assert_eq!(score.notes_active_at_time(32).len(), 0);
}

#[test]
fn test_multiple_pitches() {
    let mut score = Score::new();

    // Add two notes at different pitches at the same time
    score.insert(Pitch::new(Tone::C, 4), 0, 32);
    score.insert(Pitch::new(Tone::E, 4), 0, 32);

    let notes_at_0 = score.notes_active_at_time(0);
    assert_eq!(notes_at_0.len(), 2);
    assert!(notes_at_0.iter().all(|n| n.state == NoteState::Onset));

    // Verify pitches are different
    let pitches: Vec<Pitch> = notes_at_0.iter().map(|n| n.note.pitch).collect();
    assert!(pitches.contains(&Pitch::new(Tone::C, 4)));
    assert!(pitches.contains(&Pitch::new(Tone::E, 4)));
}

#[test]
fn test_insert_keeps_distinct_ranges_apart() {
    // Two same-pitch notes with non-overlapping ranges stay separate,
    // and the queried onset reports exactly the inserted bounds.
    let mut score = Score::new();
    score.insert(Pitch::new(Tone::C, 4), 0, 16);
    score.insert(Pitch::new(Tone::C, 4), 32, 16);

    let at_0 = score.notes_starting_at_time(0);
    assert_eq!(at_0.len(), 1);
    assert_eq!(at_0[0].onset_b32, 0);
    assert_eq!(at_0[0].duration_b32, 16);

    let at_32 = score.notes_starting_at_time(32);
    assert_eq!(at_32.len(), 1);
    assert_eq!(at_32[0].onset_b32, 32);
    assert_eq!(at_32[0].duration_b32, 16);
}

#[test]
fn test_toggle_twice_restores_score() {
    let mut score = create_test_score();
    let before = score.get_notes().clone();

    score.insert_or_remove(Pitch::new(Tone::D, 5), 16, 8);
    score.insert_or_remove(Pitch::new(Tone::D, 5), 16, 8);
    assert_eq!(score.get_notes().len(), before.len());
    for (a, b) in score.get_notes().iter().zip(before.iter()) {
        assert_eq!(a.pitch, b.pitch);
        assert_eq!(a.onset_b32, b.onset_b32);
        assert_eq!(a.duration_b32, b.duration_b32);
    }

    // The removing-then-reinserting order restores the set of notes too
    score.insert_or_remove(Pitch::new(Tone::C, 4), 0, 32);
    assert_eq!(score.notes_starting_at_time(0).len(), 0);
    score.insert_or_remove(Pitch::new(Tone::C, 4), 0, 32);
    assert_eq!(score.notes_starting_at_time(0).len(), 1);
    assert_eq!(score.get_notes().len(), before.len());
}

#[test]
fn test_delete_in_selection_keeps_late_onset() {
    let mut score = create_test_score(); // C4@0, E4@32, G4@64

    let selection_range = SelectionRange {
        time_point_start_b32: 0,
        time_point_end_b32: 64,
        pitch_low: Pitch::new(Tone::C, 4),
        pitch_high: Pitch::new(Tone::E, 4),
    };

    let r = score.delete_in_selection(selection_range);
    assert_eq!(r, Ok(()));
    // C4 and E4 are gone; G4 starts at 64, outside [0, 64)
    assert_eq!(score.notes_starting_at_time(0).len(), 0);
    assert_eq!(score.notes_starting_at_time(32).len(), 0);
    assert_eq!(score.notes_starting_at_time(64).len(), 1);
    assert_eq!(
        score.notes_starting_at_time(64)[0].pitch,
        Pitch::new(Tone::G, 4)
    );
}

#[test]
fn test_delete_in_selection_invalid_range() {
    let mut score = create_test_score();
    let selection_range = SelectionRange {
        time_point_start_b32: 64,
        time_point_end_b32: 0,
        pitch_low: Pitch::new(Tone::C, 4),
        pitch_high: Pitch::new(Tone::G, 4),
    };
    let r = score.delete_in_selection(selection_range);
    assert_eq!(r, Err(ScoreError::InvalidRange));
    // the timeline is untouched
    assert_eq!(score.duration(), 96);
}

#[test]
fn test_delete_in_selection_not_found() {
    let mut score = create_test_score();
    let selection_range = SelectionRange {
        time_point_start_b32: 100,
        time_point_end_b32: 200,
        pitch_low: Pitch::new(Tone::C, 4),
        pitch_high: Pitch::new(Tone::G, 4),
    };
    let r = score.delete_in_selection(selection_range);
    assert_eq!(r, Err(ScoreError::NotFound));
    assert_eq!(score.duration(), 96);
}

#[test]
fn test_translate_earlier_and_empty() {
    let mut score = Score::new();
    score.insert(Pitch::new(Tone::C, 4), 64, 8);
    score.insert(Pitch::new(Tone::E, 4), 96, 8);

    // Shift so the earliest onset lands on 16; spacing is preserved
    let shifted = score.translate(Some(16));
    assert_eq!(shifted.notes_starting_at_time(16).len(), 1);
    assert_eq!(shifted.notes_starting_at_time(48).len(), 1);
    assert_eq!(shifted.duration(), score.duration());

    // An empty timeline translates to an unchanged copy
    let empty = Score::new();
    let still_empty = empty.translate(Some(10));
    assert_eq!(still_empty.duration(), 0);
}

#[test]
fn test_bpm_round_trip() {
    let mut score = Score::new();
    assert_eq!(score.get_bpm(), 120);
    score.set_bpm(140);
    assert_eq!(score.get_bpm(), 140);
    // tempo changes leave the notes alone
    score.insert(Pitch::new(Tone::A, 4), 0, 4);
    score.set_bpm(90);
    assert_eq!(score.notes_starting_at_time(0).len(), 1);
}

#[test]
fn test_insert_at_largest_onset() {
    // a note may end exactly at the top of the tick range
    let mut score = Score::new();
    score.insert(Pitch::new(Tone::B, 8), u64::MAX - 32, 32);
    assert_eq!(score.notes_starting_at_time(u64::MAX - 32).len(), 1);
    assert!(score.time_within_song(u64::MAX - 1));
    assert!(!score.time_within_song(u64::MAX));
    assert_eq!(score.duration(), 32);
}
