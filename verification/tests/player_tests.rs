use dawww::loop_state::{LoopMode, LoopState};
use dawww::pitch::{Pitch, Tone};
use dawww::player::{PlayState, Player};
use dawww::score::{Note, Score};

/// Mix active notes the way the audio layer does: the arithmetic mean
/// of one sine oscillator per note, or silence with no note active.
fn mix(notes: &[Note], tick: u64, sample_rate: u64) -> f64 {
    if notes.is_empty() {
        return 0.0;
    }
    let mut total = 0.0_f64;
    for note in notes {
        let semis = note.pitch.semitone() as f64 - Pitch::new(Tone::A, 4).semitone() as f64;
        let frequency = 440.0_f64 * (2.0_f64).powf(semis / 12.0);
        total += (2.0 * std::f64::consts::PI * frequency * (tick as f64) / sample_rate as f64).sin();
    }
    total / notes.len() as f64
}

#[test]
fn test_stopped_clock_is_silent() {
    // While stopped, every pulled sample is 0.0, whatever the timeline holds
    let mut score = Score::new();
    score.insert(Pitch::new(Tone::C, 4), 0, 32);
    score.insert(Pitch::new(Tone::E, 4), 0, 32);

    let mut player = Player::create(44100, 120);
    assert_eq!(player.state(), PlayState::Stopped);
    for now in 0..100u64 {
        let notes = player.next_sample(&score, now);
        assert!(notes.is_empty());
        assert_eq!(mix(&notes, player.current_tick(), 44100), 0.0);
        assert_eq!(player.state(), PlayState::Stopped);
    }
}

#[test]
fn test_paused_clock_is_silent() {
    let mut score = Score::new();
    score.insert(Pitch::new(Tone::C, 4), 0, 32);

    let mut player = Player::create(44100, 120);
    player.play();
    player.pause();
    let notes = player.next_sample(&score, 0);
    assert!(notes.is_empty());
    assert_eq!(mix(&notes, player.current_tick(), 44100), 0.0);
}

#[test]
fn test_preview_sounds_one_transient_note() {
    let score = Score::new();
    let mut player = Player::create(44100, 120);

    player.preview_note(Pitch::new(Tone::G, 4), 1000);
    assert_eq!(player.state(), PlayState::Preview);

    // before expiry the preview sounds exactly its one transient note
    let notes = player.next_sample(&score, 1100);
    assert_eq!(notes.len(), 1);
    assert_eq!(notes[0].pitch, Pitch::new(Tone::G, 4));
    assert_eq!(notes[0].onset_b32, 0);
    assert_eq!(notes[0].duration_b32, 16);
    assert_eq!(player.state(), PlayState::Preview);

    // at exactly the expiry bound the preview still sounds
    let notes = player.next_sample(&score, 1250);
    assert_eq!(notes.len(), 1);

    // once the expiry duration has elapsed, the clock stops and silences
    let notes = player.next_sample(&score, 1251);
    assert!(notes.is_empty());
    assert_eq!(player.state(), PlayState::Stopped);
    let notes = player.next_sample(&score, 1300);
    assert!(notes.is_empty());
    assert_eq!(player.state(), PlayState::Stopped);
}

#[test]
fn test_clear_preview() {
    let mut player = Player::create(44100, 120);
    player.preview_note(Pitch::new(Tone::C, 3), 0);
    assert_eq!(player.state(), PlayState::Preview);
    player.clear_preview();
    assert_eq!(player.state(), PlayState::Stopped);

    // outside a preview it does nothing
    player.play();
    player.clear_preview();
    assert_eq!(player.state(), PlayState::Playing);
}

#[test]
fn test_toggle_playback_transitions() {
    let mut player = Player::create(44100, 120);
    assert_eq!(player.state(), PlayState::Stopped);
    player.toggle_playback();
    assert_eq!(player.state(), PlayState::Playing);
    player.toggle_playback();
    assert_eq!(player.state(), PlayState::Paused);
    player.toggle_playback();
    assert_eq!(player.state(), PlayState::Playing);
    player.preview_note(Pitch::new(Tone::C, 4), 0);
    player.toggle_playback();
    assert_eq!(player.state(), PlayState::Paused);
    assert!(!player.is_playing());
    player.play();
    assert!(player.is_playing());
}

#[test]
fn test_playing_sounds_notes_and_stops_at_song_end() {
    // two samples per tick, so boundaries come quickly
    let mut score = Score::new();
    score.insert(Pitch::new(Tone::C, 4), 0, 2);

    let mut player = Player::create(64, 60); // 64*60/60/32 = 2 samples per tick
    player.play();

    // tick 0 boundary: the note starting at tick 0 becomes active
    let notes = player.next_sample(&score, 0);
    assert_eq!(notes.len(), 1);
    assert_eq!(notes[0].pitch, Pitch::new(Tone::C, 4));
    assert_ne!(mix(&notes, player.current_tick(), 64), 0.0);

    // off-boundary sample: the active set carries over
    let notes = player.next_sample(&score, 0);
    assert_eq!(notes.len(), 1);

    // the clock runs on until the song's sounding range is exhausted,
    // then stops and yields silence
    let mut stopped = false;
    for _ in 0..32 {
        let notes = player.next_sample(&score, 0);
        if player.state() == PlayState::Stopped {
            assert!(notes.is_empty());
            stopped = true;
            break;
        }
    }
    assert!(stopped);
    assert_eq!(player.current_time_b32(), 0);
}

#[test]
fn test_set_time_seeks_and_pauses() {
    let mut score = Score::new();
    score.insert(Pitch::new(Tone::E, 4), 8, 4);

    let mut player = Player::create(64, 60);
    player.play();
    player.set_time_b32(&score, 8);
    assert_eq!(player.state(), PlayState::Paused);
    assert_eq!(player.current_time_b32(), 8);

    // paused output is silent even with a sounding note queued up
    let notes = player.next_sample(&score, 0);
    assert!(notes.is_empty());
}

#[test]
fn test_loop_snaps_back_to_start() {
    let mut score = Score::new();
    score.insert(Pitch::new(Tone::C, 4), 0, 64);

    let mut player = Player::create(64, 60); // 2 samples per tick
    player.set_loop_state(LoopState {
        mode: LoopMode::Looping,
        start_time_b32: Some(0),
        end_time_b32: Some(2),
    });
    player.play();

    // run the clock; the logical tick must never reach the loop end
    for _ in 0..40 {
        let _ = player.next_sample(&score, 0);
        assert!(player.current_time_b32() < 2);
        assert_eq!(player.state(), PlayState::Playing);
    }
}

#[test]
fn test_loop_armed_without_bounds_has_no_effect() {
    let mut score = Score::new();
    score.insert(Pitch::new(Tone::C, 4), 0, 8);

    let mut player = Player::create(64, 60);
    player.set_loop_state(LoopState {
        mode: LoopMode::Looping,
        start_time_b32: Some(0),
        end_time_b32: None,
    });
    player.play();

    let mut max_time = 0;
    for _ in 0..10 {
        let _ = player.next_sample(&score, 0);
        max_time = max_time.max(player.current_time_b32());
    }
    // with an unset bound the loop never snaps the clock back
    assert!(max_time >= 2);
}

#[test]
fn test_stop_resets_clock() {
    let mut score = Score::new();
    score.insert(Pitch::new(Tone::C, 4), 0, 16);

    let mut player = Player::create(64, 60);
    player.play();
    for _ in 0..6 {
        let _ = player.next_sample(&score, 0);
    }
    assert!(player.current_time_b32() > 0);
    player.stop();
    assert_eq!(player.state(), PlayState::Stopped);
    assert_eq!(player.current_time_b32(), 0);
    assert_eq!(player.current_tick(), 0);
}
