use dawww::components::GridComponent;
use dawww::grid::TrackerGrid;
use dawww::drawing::{Dimensions, Position};
use dawww::loop_state::{LoopMode, LoopState};
use dawww::pitch::{Pitch, Tone};

fn grid() -> GridComponent {
    GridComponent::new(
        Position { x: 60, y: 60 },
        (400, 300),
        (40, 30),
        (0, 255, 255, 255),
    )
}

#[test]
fn test_grid_new() {
    let g = grid();
    assert_eq!(g.position.x, 60);
    assert_eq!(g.position.y, 60);
    assert_eq!(g.size, (400, 300));
    assert_eq!(g.cell_size, (40, 30));
    assert_eq!(g.color, (0, 255, 255, 255));
    assert_eq!(g.selected_cell, (0, 0));
    assert!(g.notes.is_empty());
}

#[test]
fn test_grid_move_selection() {
    let mut g = grid();
    g.move_selection(3, 2);
    assert_eq!(g.selected_cell, (3, 2));
    g.move_selection(-5, -1);
    assert_eq!(g.selected_cell, (-2, 1));
}

#[test]
fn test_grid_toggle_note() {
    let mut g = grid();
    g.move_selection(2, 5);

    // placing a note
    g.toggle_note();
    assert_eq!(g.notes, vec![(2, 5)]);

    // toggling the same cell removes it again
    g.toggle_note();
    assert!(g.notes.is_empty());

    // notes on other cells stay put
    g.toggle_note();
    g.move_selection(1, 0);
    g.toggle_note();
    assert_eq!(g.notes, vec![(2, 5), (3, 5)]);
    g.move_selection(-1, 0);
    g.toggle_note();
    assert_eq!(g.notes, vec![(3, 5)]);
}

#[test]
fn test_dimensions_fields() {
    let d = Dimensions {
        width: 1920,
        height: 1080,
        cols: 240,
        rows: 67,
    };
    assert_eq!(d.width, 1920);
    assert_eq!(d.height, 1080);
    assert_eq!(d.cols, 240);
    assert_eq!(d.rows, 67);
}

#[test]
fn test_loop_state_new() {
    let ls = LoopState::new();
    assert_eq!(ls.mode, LoopMode::Disabled);
    assert!(ls.start_time_b32.is_none());
    assert!(ls.end_time_b32.is_none());
    assert!(!ls.is_looping());

    let looping = LoopState {
        mode: LoopMode::Looping,
        start_time_b32: Some(4),
        end_time_b32: None,
    };
    assert!(looping.is_looping());
}

#[test]
fn test_pitch_order_and_tones() {
    // the pitch order follows semitone distance from the reference
    let c4 = Pitch::new(Tone::C, 4);
    let e4 = Pitch::new(Tone::E, 4);
    let c5 = Pitch::new(Tone::C, 5);
    assert_eq!(c4.semitone(), 48);
    assert_eq!(e4.semitone(), 52);
    assert_eq!(c5.semitone(), 60);
    assert!(c4.semitone() < e4.semitone());
    assert!(e4.semitone() < c5.semitone());

    // tone indices round-trip
    for i in 0..12u16 {
        assert_eq!(Tone::from_index(i).index(), i);
    }
    assert_eq!(Tone::from_index(0), Tone::C);
    assert_eq!(Tone::from_index(11), Tone::B);
}

#[test]
fn test_tracker_grid_cursor_clamps() {
    let mut g = TrackerGrid::new();
    // starts on the left edge of the middle row
    assert!(g.get_notes().is_empty());
    g.move_cursor(-5, 0);
    g.move_cursor(0, -100);
    // clamped to the top-left corner
    g.move_cursor(1, 1);
    g.move_cursor(-2, -2);
    g.move_cursor(200, 300);
    // clamped to the bottom-right corner: further moves keep it there
    g.move_cursor(1, 1);
    assert!(g.get_notes().is_empty());
}

#[test]
fn test_tracker_grid_toggle() {
    let mut g = TrackerGrid::new();
    g.toggle_note();
    assert_eq!(g.get_notes().len(), 1);
    assert_eq!(g.get_notes()[0].1, true);

    // toggling the same cell flips the flag in place
    g.toggle_note();
    assert_eq!(g.get_notes().len(), 1);
    assert_eq!(g.get_notes()[0].1, false);

    // another cell gets its own entry
    g.move_cursor(1, 0);
    g.toggle_note();
    assert_eq!(g.get_notes().len(), 2);
    assert_eq!(g.get_notes()[1].1, true);
}
