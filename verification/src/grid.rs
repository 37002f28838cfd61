//! The tracker grid's editable state: a clamped cell cursor and a map
//! from cell to note-on flag, stored as a duplicate-free list of
//! entries. Painting the grid on the terminal stays with the rendering
//! layer outside this crate's core.

use vstd::prelude::*;

verus! {

use crate::pitch::{Pitch, Tone};

pub const GRID_WIDTH: i32 = 64;

pub const GRID_HEIGHT: i32 = 24;

/// One grid cell's note flag, keyed by its cell coordinates.
pub type GridEntry = ((i32, i32), bool);

/// No two entries carry the same cell key.
pub open spec fn unique_keys(s: Seq<GridEntry>) -> bool {
    forall|i: int, j: int| 0 <= i < j < s.len() ==> (#[trigger] s[i]).0 != (#[trigger] s[j]).0
}

/// The tracker grid: cursor position, per-cell note flags, and the
/// pitch its bottom row starts at.
#[derive(Debug)]
pub struct TrackerGrid {
    cursor_x: i32,
    cursor_y: i32,
    notes: Vec<GridEntry>,
    start_pitch: Pitch,
}

impl TrackerGrid {
    pub closed spec fn spec_cursor(&self) -> (i32, i32) {
        (self.cursor_x, self.cursor_y)
    }

    pub closed spec fn spec_notes(&self) -> Seq<GridEntry> {
        self.notes@
    }

    pub closed spec fn spec_start_pitch(&self) -> Pitch {
        self.start_pitch
    }

    /// Each cell appears at most once in the note list.
    pub open spec fn wf(&self) -> bool {
        unique_keys(self.spec_notes())
    }

    /// An empty grid, cursor at the left edge of the middle row,
    /// starting at C3.
    pub fn new() -> (r: TrackerGrid)
        ensures
            r.wf(),
            r.spec_cursor().0 == 0 && r.spec_cursor().1 == GRID_HEIGHT / 2,
            r.spec_notes() =~= Seq::<GridEntry>::empty(),
            r.spec_start_pitch() == (Pitch { tone: Tone::C, octave: 3 }),
    {
        TrackerGrid {
            cursor_x: 0,
            cursor_y: GRID_HEIGHT / 2,
            notes: Vec::new(),
            start_pitch: Pitch::new(Tone::C, 3), // Start at C3
        }
    }

    /// Move the cursor by the given cell offsets, clamped to the grid.
    pub fn move_cursor(&mut self, dx: i32, dy: i32)
        requires
            old(self).wf(),
            i32::MIN <= old(self).spec_cursor().0 + dx <= i32::MAX,
            i32::MIN <= old(self).spec_cursor().1 + dy <= i32::MAX,
        ensures
            final(self).wf(),
            final(self).spec_cursor().0 == ({
                let nx = old(self).spec_cursor().0 + dx;
                if nx < 0 {
                    0int
                } else if nx > GRID_WIDTH - 1 {
                    (GRID_WIDTH - 1) as int
                } else {
                    nx
                }
            }),
            final(self).spec_cursor().1 == ({
                let ny = old(self).spec_cursor().1 + dy;
                if ny < 0 {
                    0int
                } else if ny > GRID_HEIGHT - 1 {
                    (GRID_HEIGHT - 1) as int
                } else {
                    ny
                }
            }),
            final(self).spec_notes() == old(self).spec_notes(),
            final(self).spec_start_pitch() == old(self).spec_start_pitch(),
    {
        let nx = self.cursor_x + dx;
        self.cursor_x = if nx < 0 {
            0
        } else if nx > GRID_WIDTH - 1 {
            GRID_WIDTH - 1
        } else {
            nx
        };
        let ny = self.cursor_y + dy;
        self.cursor_y = if ny < 0 {
            0
        } else if ny > GRID_HEIGHT - 1 {
            GRID_HEIGHT - 1
        } else {
            ny
        };
    }

    /// Flip the note flag of the cursor's cell: an absent cell is
    /// taken as off and recorded as on.
    pub fn toggle_note(&mut self)
        requires
            old(self).wf(),
        ensures
            final(self).wf(),
            final(self).spec_cursor() == old(self).spec_cursor(),
            final(self).spec_start_pitch() == old(self).spec_start_pitch(),
            (forall|k: int|
                0 <= k < old(self).spec_notes().len() ==> (#[trigger] old(self).spec_notes()[k]).0
                    != (old(self).spec_cursor())) ==> final(self).spec_notes() == old(
                self,
            ).spec_notes().push(((old(self).spec_cursor()), true)),
            (exists|k: int|
                0 <= k < old(self).spec_notes().len() && (#[trigger] old(self).spec_notes()[k]).0
                    == (old(self).spec_cursor())) ==> (exists|k: int|
                0 <= k < old(self).spec_notes().len() && (#[trigger] old(self).spec_notes()[k]).0
                    == (old(self).spec_cursor()) && final(self).spec_notes() == old(
                    self,
                ).spec_notes().update(
                    k,
                    ((old(self).spec_cursor()), !old(self).spec_notes()[k].1),
                )),
    {
        let pos = (self.cursor_x, self.cursor_y);
        let n = self.notes.len();
        let mut found: Option<usize> = None;
        for i in 0..n
            invariant
                n == self.spec_notes().len(),
                pos.0 == self.cursor_x && pos.1 == self.cursor_y,
                match found {
                    Option::None => forall|j: int|
                        0 <= j < i ==> (#[trigger] self.spec_notes()[j]).0 != pos,
                    Option::Some(k) => k < i && (self.spec_notes()[k as int]).0 == pos,
                },
        {
            let cell = self.notes[i];
            if cell.0.0 == pos.0 && cell.0.1 == pos.1 {
                match found {
                    Option::None => {
                        found = Some(i);
                    },
                    Option::Some(_) => {},
                }
            }
        }
        match found {
            Option::Some(k) => {
                let current = self.notes[k].1;
                self.notes.set(k, (pos, !current));
                proof {
                    let fin = self.spec_notes();
                    let o = old(self).spec_notes();
                    assert(fin == o.update(k as int, (pos, !o[k as int].1)));
                    assert forall|i: int, j: int| 0 <= i < j < fin.len() implies (
                    #[trigger] fin[i]).0 != (#[trigger] fin[j]).0 by {
                        assert(o[i].0 != o[j].0);
                    }
                }
            },
            Option::None => {
                self.notes.push((pos, true));
                proof {
                    let fin = self.spec_notes();
                    let o = old(self).spec_notes();
                    assert forall|i: int, j: int| 0 <= i < j < fin.len() implies (
                    #[trigger] fin[i]).0 != (#[trigger] fin[j]).0 by {
                        if j < fin.len() - 1 {
                            assert(o[i].0 != o[j].0);
                        } else {
                            assert(o[i].0 != pos);
                        }
                    }
                }
            },
        }
    }

    /// The per-cell note flags, one entry per touched cell.
    pub fn get_notes(&self) -> (r: &Vec<GridEntry>)
        ensures
            r@ == self.spec_notes(),
    {
        &self.notes
    }
}

} // verus!
